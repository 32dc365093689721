use vstd::prelude::*;
use crate::cursor::resolve_seek;
use crate::error::Error;
use crate::readseek::{wf, avail, read_full, ReadSeek, SeekFrom};

verus! {

/// The bytes of a stream that repeats `pat` for `size` bytes. Nothing can be
/// repeated out of an empty pattern, so that stream is empty.
pub open spec fn repeated(pat: Seq<u8>, size: nat) -> Seq<u8> {
    if pat.len() == 0 {
        Seq::empty()
    } else {
        Seq::new(size, |i: int| pat[i % pat.len() as int])
    }
}

/// A stream that repeats a fixed byte sequence up to a declared length,
/// without holding more than one copy of the sequence.
pub struct Pattern {
    pat: Vec<u8>,
    size: u64,
    offset: u64,
}

impl Pattern {
    pub fn new(pat: Vec<u8>, size: u64) -> (r: Pattern)
        ensures
            wf(&r),
            r.data() == repeated(pat@, size as nat),
            r.pos() == 0,
            r.reliable(),
            r.lenient(),
            r.sized(),
            !r.opened(),
    {
        Pattern { pat, size, offset: 0 }
    }

    /// The length of the stream.
    fn len(&self) -> (r: u64)
        ensures
            r == self.data().len(),
    {
        if self.pat.len() == 0 {
            0
        } else {
            self.size
        }
    }
}

impl ReadSeek for Pattern {
    closed spec fn data(&self) -> Seq<u8> {
        repeated(self.pat@, self.size as nat)
    }

    closed spec fn pos(&self) -> int {
        self.offset as int
    }

    closed spec fn inv(&self) -> bool {
        true
    }

    closed spec fn reliable(&self) -> bool {
        true
    }

    closed spec fn lenient(&self) -> bool {
        true
    }

    closed spec fn opened(&self) -> bool {
        false
    }

    closed spec fn sized(&self) -> bool {
        true
    }


    fn read(&mut self, buf: &mut [u8]) -> (r: Result<usize, Error>)
        ensures
            r matches Ok(n) && read_full(old(self).data(), old(self).pos(), old(buf)@, final(buf)@, n as int),
    {
        let len = self.len();
        let room = buf.len();
        let n: usize = if self.offset >= len {
            0
        } else if len - self.offset < room as u64 {
            (len - self.offset) as usize
        } else {
            room
        };
        let plen = self.pat.len();
        let ghost before = buf@;
        let ghost data = self.data();
        let mut i: usize = 0;
        while i < n
            invariant
                n <= room == buf@.len() == before.len(),
                n == avail(len as int, self.offset as int, room as int),
                len == data.len(),
                data == repeated(self.pat@, self.size as nat),
                plen == self.pat@.len(),
                n > 0 ==> plen > 0 && self.offset + n <= len,
                i <= n,
                forall|j: int| 0 <= j < i ==> buf@[j] == data[self.offset + j],
                forall|j: int| i <= j < room ==> buf@[j] == before[j],
            decreases n - i,
        {
            let k = ((self.offset + i as u64) % (plen as u64)) as usize;
            buf[i] = self.pat[k];
            proof {
                assert(data[self.offset + i] == self.pat@[k as int]);
            }
            i = i + 1;
        }
        self.offset = self.offset + n as u64;
        Ok(n)
    }

    fn seek(&mut self, pos: SeekFrom) -> (r: Result<u64, Error>) {
        let len = self.len();
        match resolve_seek(pos, self.offset, len) {
            Some(t) => {
                self.offset = t;
                Ok(t)
            },
            None => Err(Error::InvalidSeek),
        }
    }
}

} // verus!
