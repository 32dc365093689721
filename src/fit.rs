use vstd::prelude::*;
use crate::cursor::offset_by;
use crate::error::Error;
use crate::lazyopen::Opener;
use crate::readseek::{wf, ReadSeek, SeekFrom};

verus! {

/// `data` cut or padded with zeros to exactly `len` bytes.
pub open spec fn fitted(data: Seq<u8>, len: nat) -> Seq<u8> {
    Seq::new(len, |i: int| if i < data.len() { data[i] } else { 0u8 })
}

/// A stream of exactly `len` bytes taken from another: what the other
/// holds beyond `len` is cut off, and where it is shorter, zeros follow.
///
/// A stream whose real length is only estimated in advance keeps, through
/// this, the length that was announced for it. Seeks do not touch the inner
/// stream; the next read positions it.
pub struct Fitted<T: ReadSeek> {
    inner: T,
    len: u64,
    cursor: u64,
    synced: bool,
}

impl<T: ReadSeek> Fitted<T> {
    pub fn new(inner: T, len: u64) -> (r: Fitted<T>)
        requires
            wf(&inner),
        ensures
            wf(&r),
            r.data() == fitted(inner.data(), len as nat),
            r.pos() == 0,
            r.reliable() == (inner.reliable() && inner.lenient()),
            r.lenient(),
    {
        Fitted { inner, len, cursor: 0, synced: false }
    }
}

impl<T: ReadSeek> ReadSeek for Fitted<T> {
    closed spec fn data(&self) -> Seq<u8> {
        fitted(self.inner.data(), self.len as nat)
    }

    closed spec fn pos(&self) -> int {
        self.cursor as int
    }

    closed spec fn inv(&self) -> bool {
        &&& wf(&self.inner)
        &&& self.synced ==> self.inner.pos() == self.cursor
    }

    closed spec fn reliable(&self) -> bool {
        self.inner.reliable() && self.inner.lenient()
    }

    closed spec fn lenient(&self) -> bool {
        true
    }

    closed spec fn opened(&self) -> bool {
        self.inner.opened()
    }

    closed spec fn sized(&self) -> bool {
        self.inner.sized()
    }


    fn read(&mut self, buf: &mut [u8]) -> (r: Result<usize, Error>) {
        let ghost d = self.data();
        let ghost idata = self.inner.data();
        let ghost before = buf@;
        let room = buf.len();
        let limit: usize = if self.cursor >= self.len {
            0
        } else if self.len - self.cursor < room as u64 {
            (self.len - self.cursor) as usize
        } else {
            room
        };
        if limit == 0 {
            return Ok(0);
        }
        if !self.synced {
            self.inner.seek(SeekFrom::Start(self.cursor))?;
            self.synced = true;
        }
        let ghost ipos = self.inner.pos();
        let mut n: usize = 0;
        let mut total: usize = 0;
        {
            let (head, tail) = buf.split_at_mut(limit);
            n = match self.inner.read(head) {
                Ok(n) => n,
                Err(e) => {
                    self.synced = false;
                    return Err(e);
                },
            };
            total = n;
            if n == 0 {
                // The inner stream ends before the announced length.
                let mut i: usize = 0;
                while i < limit
                    invariant
                        i <= limit == head@.len(),
                        forall|j: int| 0 <= j < i ==> head@[j] == 0u8,
                    decreases limit - i,
                {
                    head[i] = 0;
                    i = i + 1;
                }
                total = limit;
            }
            proof {
                assert forall|j: int| 0 <= j < total implies #[trigger] buf@[j] == d[self.cursor + j] by {
                    assert(buf@[j] == head@[j]);
                    if n == 0 {
                        assert(self.cursor + j >= idata.len());
                    }
                }
                assert forall|j: int| total <= j < room implies #[trigger] buf@[j] == before[j] by {
                    if j >= limit {
                        assert(buf@[j] == tail@[j - limit]);
                    } else {
                        assert(buf@[j] == head@[j]);
                    }
                }
            }
        }
        if n == 0 {
            // The inner stream is left behind.
            self.synced = false;
        }
        self.cursor = self.cursor + total as u64;
        Ok(total)
    }

    fn seek(&mut self, pos: SeekFrom) -> (r: Result<u64, Error>) {
        let target = match pos {
            SeekFrom::Start(o) => Some(o),
            SeekFrom::Current(o) => offset_by(self.cursor, o),
            SeekFrom::End(o) => offset_by(self.len, o),
        };
        match target {
            Some(t) => {
                self.cursor = t;
                self.synced = false;
                Ok(t)
            },
            None => Err(Error::InvalidSeek),
        }
    }
}

/// Opens another opener's stream fitted to `len` bytes.
pub struct FitOpener<O: Opener> {
    inner: O,
    len: u64,
}

impl<O: Opener> FitOpener<O> {
    pub fn new(inner: O, len: u64) -> (r: FitOpener<O>)
        ensures
            r.data() == fitted(inner.data(), len as nat),
            r.reliable() == (inner.reliable() && inner.lenient()),
            r.lenient(),
    {
        FitOpener { inner, len }
    }
}

impl<O: Opener> Opener for FitOpener<O> {
    type Reader = Fitted<O::Reader>;

    closed spec fn data(&self) -> Seq<u8> {
        fitted(self.inner.data(), self.len as nat)
    }

    closed spec fn reliable(&self) -> bool {
        self.inner.reliable() && self.inner.lenient()
    }

    closed spec fn lenient(&self) -> bool {
        true
    }

    fn open(self) -> (r: Result<Fitted<O::Reader>, Error>) {
        let f = self.inner.open()?;
        Ok(Fitted::new(f, self.len))
    }
}

} // verus!
