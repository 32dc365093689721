use vstd::prelude::*;
use crate::error::Error;

verus! {

/// Where a seek is measured from.
#[derive(Clone, Copy, Debug, PartialEq, Eq, Structural)]
pub enum SeekFrom {
    Start(u64),
    End(i64),
    Current(i64),
}

/// The position that a seek asks for, on a stream of `len` bytes whose
/// cursor stands at `cur`.
pub open spec fn seek_target(pos: SeekFrom, cur: int, len: int) -> int {
    match pos {
        SeekFrom::Start(o) => o as int,
        SeekFrom::End(o) => len + o,
        SeekFrom::Current(o) => cur + o,
    }
}

/// A position that a seek may land on.
pub open spec fn valid_offset(t: int) -> bool {
    0 <= t <= u64::MAX
}

/// A target between the start and the end of a stream of `len` bytes.
pub open spec fn in_bounds(t: int, len: int) -> bool {
    0 <= t <= len
}

/// How many bytes are left to read at `pos` in a stream of `len` bytes,
/// bounded by the room in a buffer of `room` bytes.
pub open spec fn avail(len: int, pos: int, room: int) -> int {
    if pos >= len {
        0
    } else if len - pos < room {
        len - pos
    } else {
        room
    }
}

/// A read of `n` bytes at `pos` of `data` into a buffer that held `before`
/// and now holds `after`: the first `n` bytes are the stream's next bytes, the
/// rest of the buffer is untouched, and some progress is made whenever it can
/// be.
pub open spec fn read_ok(data: Seq<u8>, pos: int, before: Seq<u8>, after: Seq<u8>, n: int) -> bool {
    let room = before.len() as int;
    &&& 0 <= n <= avail(data.len() as int, pos, room)
    &&& (avail(data.len() as int, pos, room) > 0 ==> n > 0)
    &&& after.len() == before.len()
    &&& forall|j: int| 0 <= j < n ==> after[j] == data[pos + j]
    &&& forall|j: int| n <= j < room ==> after[j] == before[j]
}

/// A read that returns every byte that fits: `n` is all that is available.
pub open spec fn read_full(data: Seq<u8>, pos: int, before: Seq<u8>, after: Seq<u8>, n: int) -> bool {
    &&& read_ok(data, pos, before, after, n)
    &&& n == avail(data.len() as int, pos, before.len() as int)
}

/// A stream in a state its operations accept: its own invariant holds, and
/// its length and cursor fit in 64 bits.
pub open spec fn wf<S: ReadSeek>(s: &S) -> bool {
    &&& s.inv()
    &&& s.data().len() <= u64::MAX
    &&& 0 <= s.pos() <= u64::MAX
}

/// A readable and seekable byte stream.
///
/// The stream is modelled by the whole sequence of its bytes, `data`, which
/// never changes, and a cursor `pos`, which may stand past the end. A stream
/// that is `reliable` never fails; others (remote or lazily opened ones) may,
/// and after a failure their cursor is unknown. A reliable stream always
/// accepts a seek between its start and its end; whether it accepts one past
/// the end is its own affair. A stream that is `sized` answers a seek to its
/// end with its length, without opening anything it has not opened.
pub trait ReadSeek: Sized {
    open spec fn data(&self) -> Seq<u8> {
        Seq::empty()
    }

    open spec fn pos(&self) -> int {
        0
    }

    open spec fn inv(&self) -> bool {
        true
    }

    open spec fn reliable(&self) -> bool {
        false
    }

    /// Whether a source that is opened only on demand has been opened.
    open spec fn opened(&self) -> bool {
        false
    }

    /// Whether the length is known without opening anything.
    open spec fn sized(&self) -> bool {
        false
    }

    /// Whether a seek past the end is accepted, as well as one within.
    open spec fn lenient(&self) -> bool {
        false
    }

    /// Reads the next bytes into the front of `buf`.
    fn read(&mut self, buf: &mut [u8]) -> (r: Result<usize, Error>)
        requires
            old(self).inv(),
            old(self).data().len() <= u64::MAX,
            0 <= old(self).pos() <= u64::MAX,
        ensures
            final(self).inv(),
            final(self).data().len() <= u64::MAX,
            0 <= final(self).pos() <= u64::MAX,
            final(self).data() == old(self).data(),
            final(self).reliable() == old(self).reliable(),
            final(self).lenient() == old(self).lenient(),
            old(self).reliable() ==> r is Ok,
            r matches Ok(n) ==> {
                &&& read_ok(old(self).data(), old(self).pos(), old(buf)@, final(buf)@, n as int)
                &&& final(self).pos() == old(self).pos() + n
            },
    ;

    /// Moves the cursor; returns the new position.
    fn seek(&mut self, pos: SeekFrom) -> (r: Result<u64, Error>)
        requires
            old(self).inv(),
            old(self).data().len() <= u64::MAX,
            0 <= old(self).pos() <= u64::MAX,
        ensures
            final(self).inv(),
            final(self).data().len() <= u64::MAX,
            0 <= final(self).pos() <= u64::MAX,
            final(self).data() == old(self).data(),
            final(self).reliable() == old(self).reliable(),
            final(self).lenient() == old(self).lenient(),
            pos == SeekFrom::End(0) && old(self).sized() ==> final(self).opened() == old(self).opened(),
            pos == SeekFrom::End(0) && old(self).sized() ==> r == Ok::<u64, Error>(old(self).data().len() as u64),
            old(self).reliable() && in_bounds(
                seek_target(pos, old(self).pos(), old(self).data().len() as int),
                old(self).data().len() as int,
            ) ==> r is Ok,
            old(self).reliable() && old(self).lenient() && valid_offset(
                seek_target(pos, old(self).pos(), old(self).data().len() as int),
            ) ==> r is Ok,
            old(self).reliable() && r is Err ==> final(self).pos() == old(self).pos(),
            r matches Ok(p) ==> {
                &&& p == seek_target(pos, old(self).pos(), old(self).data().len() as int)
                &&& final(self).pos() == p
            },
    ;
}

} // verus!

verus! {

/// Reads into `buf` until it is full or the stream has nothing more to give,
/// so that every byte that fits is returned.
pub fn fill<R: ReadSeek>(reader: &mut R, buf: &mut [u8]) -> (r: Result<usize, Error>)
    requires
        wf(old(reader)),
    ensures
        wf(final(reader)),
        final(reader).data() == old(reader).data(),
        final(reader).reliable() == old(reader).reliable(),
        final(reader).lenient() == old(reader).lenient(),
        old(reader).reliable() ==> r is Ok,
        r matches Ok(n) ==> {
            &&& read_full(old(reader).data(), old(reader).pos(), old(buf)@, final(buf)@, n as int)
            &&& final(reader).pos() == old(reader).pos() + n
        },
{
    let ghost data = reader.data();
    let ghost start = reader.pos();
    let ghost before = buf@;
    let room = buf.len();
    let mut total: usize = 0;
    loop
        invariant
            wf(reader),
            reader.data() == data,
            data == old(reader).data(),
            start == old(reader).pos(),
            before == old(buf)@,
            reader.reliable() == old(reader).reliable(),
            reader.lenient() == old(reader).lenient(),
            buf@.len() == room,
            room == before.len(),
            total <= room,
            reader.pos() == start + total,
            total > 0 ==> start + total <= data.len(),
            forall|j: int| 0 <= j < total ==> buf@[j] == data[start + j],
            forall|j: int| total <= j < room ==> buf@[j] == before[j],
        ensures
            wf(reader),
            reader.data() == data,
            reader.reliable() == old(reader).reliable(),
            reader.lenient() == old(reader).lenient(),
            buf@.len() == room,
            total <= room,
            reader.pos() == start + total,
            total > 0 ==> start + total <= data.len(),
            forall|j: int| 0 <= j < total ==> buf@[j] == data[start + j],
            forall|j: int| total <= j < room ==> buf@[j] == before[j],
            total == room || start + total >= data.len(),
        decreases room - total,
    {
        if total == room {
            break;
        }
        let ghost mid = buf@;
        let n = {
            let (head, rest) = buf.split_at_mut(total);
            let n = reader.read(rest)?;
            proof {
                assert forall|j: int| 0 <= j < total + n implies #[trigger] buf@[j] == data[start + j] by {
                    if j >= total {
                        assert(buf@[j] == rest@[j - total]);
                    } else {
                        assert(buf@[j] == head@[j]);
                        assert(head@[j] == mid[j]);
                    }
                }
                assert forall|j: int| total + n <= j < room implies #[trigger] buf@[j] == before[j] by {
                    assert(buf@[j] == rest@[j - total]);
                }
            }
            n
        };
        if n == 0 {
            break;
        }
        total = total + n;
    }
    Ok(total)
}

} // verus!
