use vstd::prelude::*;
use crate::error::Error;
use crate::lazyopen::Opener;
use crate::readseek::{wf, avail, read_full, seek_target, valid_offset, ReadSeek, SeekFrom};

verus! {

/// A stream over bytes held in memory.
pub struct Cursor {
    bytes: Vec<u8>,
    offset: u64,
}

impl Cursor {
    pub fn new(bytes: Vec<u8>) -> (r: Cursor)
        requires
            bytes@.len() <= u64::MAX,
        ensures
            wf(&r),
            r.data() == bytes@,
            r.pos() == 0,
            r.reliable(),
            r.lenient(),
            r.sized(),
            !r.opened(),
    {
        Cursor { bytes, offset: 0 }
    }
}

impl ReadSeek for Cursor {
    closed spec fn data(&self) -> Seq<u8> {
        self.bytes@
    }

    closed spec fn pos(&self) -> int {
        self.offset as int
    }

    closed spec fn inv(&self) -> bool {
        self.bytes@.len() <= u64::MAX
    }

    closed spec fn reliable(&self) -> bool {
        true
    }

    closed spec fn lenient(&self) -> bool {
        true
    }

    closed spec fn opened(&self) -> bool {
        false
    }

    closed spec fn sized(&self) -> bool {
        true
    }


    fn read(&mut self, buf: &mut [u8]) -> (r: Result<usize, Error>)
        ensures
            r matches Ok(n) && read_full(old(self).data(), old(self).pos(), old(buf)@, final(buf)@, n as int),
    {
        let len = self.bytes.len();
        let room = buf.len();
        let n: usize = if self.offset >= len as u64 {
            0
        } else if (len as u64 - self.offset) < room as u64 {
            (len as u64 - self.offset) as usize
        } else {
            room
        };
        if n == 0 {
            return Ok(0);
        }
        let start = self.offset as usize;
        let ghost before = buf@;
        let mut i: usize = 0;
        while i < n
            invariant
                n <= room == buf@.len() == before.len(),
                n == avail(len as int, start as int, room as int),
                start == self.offset,
                len == self.bytes@.len(),
                start + n <= len,
                i <= n,
                forall|j: int| 0 <= j < i ==> buf@[j] == self.bytes@[start + j],
                forall|j: int| i <= j < room ==> buf@[j] == before[j],
            decreases n - i,
        {
            buf[i] = self.bytes[start + i];
            i = i + 1;
        }
        self.offset = self.offset + n as u64;
        Ok(n)
    }

    fn seek(&mut self, pos: SeekFrom) -> (r: Result<u64, Error>) {
        let len = self.bytes.len() as u64;
        match resolve_seek(pos, self.offset, len) {
            Some(t) => {
                self.offset = t;
                Ok(t)
            },
            None => Err(Error::InvalidSeek),
        }
    }
}

/// Opens a `Cursor` over bytes it holds; never fails.
pub struct MemoryOpener {
    bytes: Vec<u8>,
}

impl MemoryOpener {
    pub fn new(bytes: Vec<u8>) -> (r: MemoryOpener)
        ensures
            r.data() == bytes@,
            r.reliable(),
            r.lenient(),
    {
        MemoryOpener { bytes }
    }
}

impl Opener for MemoryOpener {
    type Reader = Cursor;

    closed spec fn data(&self) -> Seq<u8> {
        self.bytes@
    }

    closed spec fn reliable(&self) -> bool {
        true
    }

    closed spec fn lenient(&self) -> bool {
        true
    }

    fn open(self) -> (r: Result<Cursor, Error>) {
        let len = self.bytes.len();
        assert(len as int <= u64::MAX);
        Ok(Cursor::new(self.bytes))
    }
}

/// Resolves a seek on a stream of `len` bytes whose cursor stands at `cur`;
/// `None` where the target is not a valid offset.
pub fn resolve_seek(pos: SeekFrom, cur: u64, len: u64) -> (r: Option<u64>)
    ensures
        r matches Some(t) ==> t == seek_target(pos, cur as int, len as int),
        r is None <==> !valid_offset(seek_target(pos, cur as int, len as int)),
{
    match pos {
        SeekFrom::Start(o) => Some(o),
        SeekFrom::End(o) => offset_by(len, o),
        SeekFrom::Current(o) => offset_by(cur, o),
    }
}

/// `base + delta`, where that is a valid offset.
pub fn offset_by(base: u64, delta: i64) -> (r: Option<u64>)
    ensures
        r matches Some(t) ==> t == base + delta,
        r is None <==> !valid_offset(base + delta),
{
    if delta >= 0 {
        let d = delta as u64;
        if base > u64::MAX - d {
            None
        } else {
            Some(base + d)
        }
    } else {
        let d: u64 = if delta == i64::MIN {
            (i64::MAX as u64) + 1
        } else {
            (-delta) as u64
        };
        if d > base {
            None
        } else {
            Some(base - d)
        }
    }
}

} // verus!
