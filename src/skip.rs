use vstd::prelude::*;
use crate::cursor::offset_by;
use crate::error::Error;
use crate::lazyopen::Opener;
use crate::readseek::{fill, read_full, wf, ReadSeek, SeekFrom};

verus! {

/// The bytes of `data` from `offset` on; none where `data` is shorter.
pub open spec fn skipped(data: Seq<u8>, offset: int) -> Seq<u8> {
    if offset >= data.len() {
        Seq::empty()
    } else {
        data.subrange(offset, data.len() as int)
    }
}

/// A stream without the first `offset` bytes of another.
///
/// The inner stream is positioned lazily: the first read, and the first
/// read after each seek, moves it; constructing or seeking does not.
pub struct Skip<T: ReadSeek> {
    inner: T,
    offset: u64,
    cursor: u64,
    /// Whether the inner stream stands at `offset + cursor`.
    synced: bool,
}

impl<T: ReadSeek> Skip<T> {
    pub fn new(inner: T, offset: u64) -> (r: Skip<T>)
        requires
            wf(&inner),
        ensures
            wf(&r),
            r.data() == skipped(inner.data(), offset as int),
            r.pos() == 0,
            r.reliable() == (inner.reliable() && inner.lenient()),
            r.lenient(),
            !r.touched(),
            r.inner_stream() == inner,
    {
        Skip { inner, offset, cursor: 0, synced: false }
    }

    /// The wrapped stream.
    pub closed spec fn inner_stream(&self) -> T {
        self.inner
    }

    /// Whether the inner stream has been positioned since the last seek.
    pub closed spec fn touched(&self) -> bool {
        self.synced
    }
}

impl<T: ReadSeek> ReadSeek for Skip<T> {
    closed spec fn data(&self) -> Seq<u8> {
        skipped(self.inner.data(), self.offset as int)
    }

    closed spec fn pos(&self) -> int {
        self.cursor as int
    }

    closed spec fn inv(&self) -> bool {
        &&& wf(&self.inner)
        &&& self.synced ==> self.inner.pos() == self.offset + self.cursor
    }

    closed spec fn reliable(&self) -> bool {
        self.inner.reliable() && self.inner.lenient()
    }

    closed spec fn lenient(&self) -> bool {
        true
    }

    closed spec fn opened(&self) -> bool {
        self.inner.opened()
    }

    closed spec fn sized(&self) -> bool {
        self.inner.sized()
    }


    fn read(&mut self, buf: &mut [u8]) -> (r: Result<usize, Error>)
        ensures
            r matches Ok(n) ==> read_full(old(self).data(), old(self).pos(), old(buf)@, final(buf)@, n as int),
    {
        let ghost idata = self.inner.data();
        if self.offset > u64::MAX - self.cursor {
            // The cursor lies past every byte the inner stream can hold.
            return Ok(0);
        }
        if !self.synced {
            self.inner.seek(SeekFrom::Start(self.offset + self.cursor))?;
            self.synced = true;
        }
        let ghost before = buf@;
        let n = match fill(&mut self.inner, buf) {
            Ok(n) => n,
            Err(e) => {
                self.synced = false;
                return Err(e);
            },
        };
        proof {
            let d = skipped(idata, self.offset as int);
            assert forall|j: int| 0 <= j < n implies buf@[j] == d[self.cursor + j] by {
                assert(buf@[j] == idata[self.offset + self.cursor + j]);
            }
        }
        self.cursor = self.cursor + n as u64;
        Ok(n)
    }

    fn seek(&mut self, pos: SeekFrom) -> (r: Result<u64, Error>) {
        let target = match pos {
            SeekFrom::Start(o) => Some(o),
            SeekFrom::Current(o) => offset_by(self.cursor, o),
            SeekFrom::End(o) => {
                self.synced = false;
                let end = self.inner.seek(SeekFrom::End(0))?;
                let len = if end >= self.offset { end - self.offset } else { 0 };
                offset_by(len, o)
            },
        };
        match target {
            Some(t) => {
                self.cursor = t;
                self.synced = false;
                Ok(t)
            },
            None => Err(Error::InvalidSeek),
        }
    }
}

/// Opens another opener's stream without its first `offset` bytes.
pub struct SkipOpener<O: Opener> {
    inner: O,
    offset: u64,
}

impl<O: Opener> SkipOpener<O> {
    pub fn new(inner: O, offset: u64) -> (r: SkipOpener<O>)
        ensures
            r.data() == skipped(inner.data(), offset as int),
            r.reliable() == (inner.reliable() && inner.lenient()),
            r.lenient(),
    {
        SkipOpener { inner, offset }
    }
}

impl<O: Opener> Opener for SkipOpener<O> {
    type Reader = Skip<O::Reader>;

    closed spec fn data(&self) -> Seq<u8> {
        skipped(self.inner.data(), self.offset as int)
    }

    closed spec fn reliable(&self) -> bool {
        self.inner.reliable() && self.inner.lenient()
    }

    closed spec fn lenient(&self) -> bool {
        true
    }

    fn open(self) -> (r: Result<Skip<O::Reader>, Error>) {
        let f = self.inner.open()?;
        Ok(Skip::new(f, self.offset))
    }
}

} // verus!
