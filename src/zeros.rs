use vstd::prelude::*;
use crate::cursor::resolve_seek;
use crate::error::Error;
use crate::readseek::{wf, avail, read_full, ReadSeek, SeekFrom};

verus! {

/// A stream of `length` zero bytes.
pub struct Zeros {
    length: u64,
    offset: u64,
}

/// A stream of `length` zero bytes.
pub fn zeros(length: u64) -> (r: Zeros)
    ensures
        wf(&r),
        r.data() == Seq::new(length as nat, |i: int| 0u8),
        r.pos() == 0,
        r.reliable(),
        r.lenient(),
        r.sized(),
        !r.opened(),
{
    Zeros { length, offset: 0 }
}

impl ReadSeek for Zeros {
    closed spec fn data(&self) -> Seq<u8> {
        Seq::new(self.length as nat, |i: int| 0u8)
    }

    closed spec fn pos(&self) -> int {
        self.offset as int
    }

    closed spec fn inv(&self) -> bool {
        true
    }

    closed spec fn reliable(&self) -> bool {
        true
    }

    closed spec fn lenient(&self) -> bool {
        true
    }

    closed spec fn opened(&self) -> bool {
        false
    }

    closed spec fn sized(&self) -> bool {
        true
    }


    fn read(&mut self, buf: &mut [u8]) -> (r: Result<usize, Error>)
        ensures
            r matches Ok(n) && read_full(old(self).data(), old(self).pos(), old(buf)@, final(buf)@, n as int),
    {
        let len = self.length;
        let room = buf.len();
        let n: usize = if self.offset >= len {
            0
        } else if len - self.offset < room as u64 {
            (len - self.offset) as usize
        } else {
            room
        };
        let ghost before = buf@;
        let ghost data = self.data();
        let mut i: usize = 0;
        while i < n
            invariant
                n <= room == buf@.len() == before.len(),
                n == avail(len as int, self.offset as int, room as int),
                data == Seq::new(len as nat, |i: int| 0u8),
                n > 0 ==> self.offset + n <= len,
                i <= n,
                forall|j: int| 0 <= j < i ==> buf@[j] == data[self.offset + j],
                forall|j: int| i <= j < room ==> buf@[j] == before[j],
            decreases n - i,
        {
            buf[i] = 0;
            i = i + 1;
        }
        self.offset = self.offset + n as u64;
        Ok(n)
    }

    fn seek(&mut self, pos: SeekFrom) -> (r: Result<u64, Error>) {
        match resolve_seek(pos, self.offset, self.length) {
            Some(t) => {
                self.offset = t;
                Ok(t)
            },
            None => Err(Error::InvalidSeek),
        }
    }
}

} // verus!
