use vstd::prelude::*;
use crate::error::Error;
use crate::readseek::{wf, ReadSeek, SeekFrom};

verus! {

/// One operation that a stream performed.
#[derive(Clone, Copy, Debug, PartialEq, Eq)]
pub enum Operation {
    Read { buflen: usize, nread: usize },
    Seek { pos: SeekFrom, new_pos: u64 },
}

/// A stream that passes everything through to another and keeps a log of
/// each operation that succeeded.
pub struct OpRecorder<T: ReadSeek> {
    inner: T,
    ops: Vec<Operation>,
}

impl<T: ReadSeek> OpRecorder<T> {
    pub fn new(inner: T) -> (r: OpRecorder<T>)
        requires
            wf(&inner),
        ensures
            wf(&r),
            r.data() == inner.data(),
            r.pos() == inner.pos(),
            r.reliable() == inner.reliable(),
            r.lenient() == inner.lenient(),
            r.history() == Seq::<Operation>::empty(),
    {
        OpRecorder { inner, ops: Vec::new() }
    }

    /// The operations performed so far, oldest first.
    pub closed spec fn history(&self) -> Seq<Operation> {
        self.ops@
    }

    pub fn ops(&self) -> (r: &[Operation])
        ensures
            r@ == self.history(),
    {
        self.ops.as_slice()
    }
}

impl<T: ReadSeek> ReadSeek for OpRecorder<T> {
    closed spec fn data(&self) -> Seq<u8> {
        self.inner.data()
    }

    closed spec fn pos(&self) -> int {
        self.inner.pos()
    }

    closed spec fn inv(&self) -> bool {
        wf(&self.inner)
    }

    closed spec fn reliable(&self) -> bool {
        self.inner.reliable()
    }

    closed spec fn lenient(&self) -> bool {
        self.inner.lenient()
    }

    closed spec fn opened(&self) -> bool {
        self.inner.opened()
    }

    closed spec fn sized(&self) -> bool {
        self.inner.sized()
    }


    fn read(&mut self, buf: &mut [u8]) -> (r: Result<usize, Error>)
        ensures
            r matches Ok(n) ==> final(self).history() == old(self).history().push(
                Operation::Read { buflen: old(buf)@.len() as usize, nread: n },
            ),
            r is Err ==> final(self).history() == old(self).history(),
    {
        let buflen = buf.len();
        let nread = self.inner.read(buf)?;
        self.ops.push(Operation::Read { buflen, nread });
        Ok(nread)
    }

    fn seek(&mut self, pos: SeekFrom) -> (r: Result<u64, Error>)
        ensures
            r matches Ok(p) ==> final(self).history() == old(self).history().push(
                Operation::Seek { pos, new_pos: p },
            ),
            r is Err ==> final(self).history() == old(self).history(),
    {
        let new_pos = self.inner.seek(pos)?;
        self.ops.push(Operation::Seek { pos, new_pos });
        Ok(new_pos)
    }
}

} // verus!
