use vstd::prelude::*;
use crate::cursor::offset_by;
use crate::error::Error;
use crate::readseek::{wf, avail, read_full, seek_target, ReadSeek, SeekFrom};

verus! {

/// The bytes of `parts` one after another.
pub open spec fn flatten(parts: Seq<Seq<u8>>) -> Seq<u8>
    decreases parts.len(),
{
    if parts.len() == 0 {
        Seq::empty()
    } else {
        flatten(parts.drop_last()) + parts.last()
    }
}

/// Where part `k` begins in `flatten(parts)`.
pub open spec fn start_of(parts: Seq<Seq<u8>>, k: int) -> int {
    flatten(parts.take(k)).len() as int
}

proof fn lemma_flatten_step(parts: Seq<Seq<u8>>, k: int)
    requires
        0 <= k < parts.len(),
    ensures
        flatten(parts.take(k + 1)) == flatten(parts.take(k)) + parts[k],
        start_of(parts, k + 1) == start_of(parts, k) + parts[k].len(),
{
    assert(parts.take(k + 1).drop_last() =~= parts.take(k));
}

/// `flatten(parts.take(k))` is a prefix of `flatten(parts)`.
proof fn lemma_flatten_prefix(parts: Seq<Seq<u8>>, k: int)
    requires
        0 <= k <= parts.len(),
    ensures
        start_of(parts, k) <= flatten(parts).len(),
        forall|j: int| 0 <= j < start_of(parts, k) ==> #[trigger] flatten(parts)[j] == flatten(parts.take(k))[j],
    decreases parts.len() - k,
{
    if k == parts.len() {
        assert(parts.take(k) =~= parts);
    } else {
        lemma_flatten_step(parts, k);
        lemma_flatten_prefix(parts, k + 1);
        assert forall|j: int| 0 <= j < start_of(parts, k) implies #[trigger] flatten(parts)[j] == flatten(parts.take(k))[j] by {
            assert(flatten(parts)[j] == flatten(parts.take(k + 1))[j]);
        }
    }
}

/// Byte `j` of part `k` stands at `start_of(parts, k) + j` in the whole:
/// read from its start, a concatenation yields the bytes of its first part,
/// then those of the second, and so on, with nothing added or left out.
pub proof fn lemma_part_at(parts: Seq<Seq<u8>>, k: int, j: int)
    requires
        0 <= k < parts.len(),
        0 <= j < parts[k].len(),
    ensures
        start_of(parts, k) + j < flatten(parts).len(),
        flatten(parts)[start_of(parts, k) + j] == parts[k][j],
{
    lemma_flatten_step(parts, k);
    lemma_flatten_prefix(parts, k + 1);
    assert(flatten(parts)[start_of(parts, k) + j] == flatten(parts.take(k + 1))[start_of(parts, k) + j]);
}

proof fn lemma_start_mono(parts: Seq<Seq<u8>>, i: int, j: int)
    requires
        0 <= i <= j <= parts.len(),
    ensures
        start_of(parts, i) <= start_of(parts, j),
    decreases j - i,
{
    if i < j {
        lemma_flatten_step(parts, j - 1);
        lemma_start_mono(parts, i, j - 1);
    }
}

proof fn lemma_start_bounds(parts: Seq<Seq<u8>>, k: int)
    requires
        0 <= k <= parts.len(),
    ensures
        0 <= start_of(parts, k) <= flatten(parts).len(),
        k == parts.len() ==> start_of(parts, k) == flatten(parts).len(),
{
    lemma_flatten_prefix(parts, k);
    if k == parts.len() {
        assert(parts.take(k) =~= parts);
    }
}

/// The bytes of each of `files`.
pub open spec fn datas<T: ReadSeek>(files: Seq<T>) -> Seq<Seq<u8>> {
    files.map_values(|f: T| f.data())
}

/// Whether every one of `files` is reliable.
pub open spec fn all_reliable<T: ReadSeek>(files: Seq<T>) -> bool {
    forall|i: int| 0 <= i < files.len() ==> #[trigger] files[i].reliable()
}

/// Whether any of `files` has opened a source it opens on demand.
pub open spec fn any_opened<T: ReadSeek>(files: Seq<T>) -> bool {
    exists|i: int| 0 <= i < files.len() && #[trigger] files[i].opened()
}

/// Whether every one of `files` knows its length without opening anything.
pub open spec fn all_sized<T: ReadSeek>(files: Seq<T>) -> bool {
    forall|i: int| 0 <= i < files.len() ==> #[trigger] files[i].sized()
}

/// Replacing one source by one with the same bytes and reliability keeps
/// what a concatenation of them is.
proof fn lemma_replace<T: ReadSeek>(files: Seq<T>, k: int, f: T)
    requires
        0 <= k < files.len(),
        f.data() == files[k].data(),
        f.reliable() == files[k].reliable(),
    ensures
        f.opened() == files[k].opened() ==> any_opened(files.update(k, f)) == any_opened(files),
        datas(files.update(k, f)) == datas(files),
        all_reliable(files) == all_reliable(files.update(k, f)),
        (forall|i: int| 0 <= i < files.len() ==> #[trigger] wf(&files[i])) && wf(&f) ==> (forall|i: int|
            0 <= i < files.len() ==> #[trigger] wf(&files.update(k, f)[i])),
{
    assert(datas(files.update(k, f)) =~= datas(files));
    if f.opened() == files[k].opened() {
        if any_opened(files) {
            let i = choose|i: int| 0 <= i < files.len() && #[trigger] files[i].opened();
            assert(files.update(k, f)[i].opened());
        }
        if any_opened(files.update(k, f)) {
            let i = choose|i: int| 0 <= i < files.len() && #[trigger] files.update(k, f)[i].opened();
            assert(files[i].opened());
        }
    }
    if all_reliable(files.update(k, f)) {
        assert forall|i: int| 0 <= i < files.len() implies #[trigger] files[i].reliable() by {
            assert(files.update(k, f)[i].reliable());
        }
    }
}

/// Several streams presented as one, each following the last.
///
/// Where each source begins is found lazily: a seek discovers the sizes of
/// the sources only as far as it needs, and only a seek relative to the end
/// discovers them all. Seeks move the cursor only; the source under the
/// cursor is positioned on the next read.
pub struct Concat<T: ReadSeek> {
    files: Vec<T>,
    /// The source under the cursor; `files.len()` once all are read.
    chunk_index: usize,
    /// Where the source under the cursor begins.
    chunk_start: u64,
    offset: u64,
    /// Whether the source under the cursor stands where the cursor does.
    synced: bool,
    /// Where each of the first `ends.len()` sources ends.
    ends: Vec<u64>,
}

impl<T: ReadSeek> Concat<T> {
    pub closed spec fn parts(&self) -> Seq<Seq<u8>> {
        datas(self.files@)
    }

    pub closed spec fn sources(&self) -> Seq<T> {
        self.files@
    }

    /// The source under the cursor; the number of sources once all are read.
    pub closed spec fn current(&self) -> int {
        self.chunk_index as int
    }

    /// The number of sources whose extent has been discovered.
    pub closed spec fn indexed(&self) -> nat {
        self.ends@.len()
    }

    pub fn new(files: Vec<T>) -> (r: Result<Concat<T>, Error>)
        requires
            forall|i: int| 0 <= i < files@.len() ==> #[trigger] wf(&files@[i]),
            flatten(datas(files@)).len() <= u64::MAX,
        ensures
            files@.len() == 0 <==> r is Err,
            r matches Err(e) ==> e is NoSources,
            r matches Ok(c) ==> {
                &&& wf(&c)
                &&& c.data() == flatten(datas(files@))
                &&& c.parts() == datas(files@)
                &&& c.pos() == 0
                &&& c.indexed() == 0
                &&& c.reliable() == all_reliable(files@)
                &&& c.opened() == any_opened(files@)
                &&& c.sized() == all_sized(files@)
            },
    {
        if files.len() == 0 {
            return Err(Error::NoSources);
        }
        let c = Concat { files, chunk_index: 0, chunk_start: 0, offset: 0, synced: false, ends: Vec::new() };
        proof {
            assert(c.files@.take(0) =~= Seq::<T>::empty());
            assert(datas(c.files@).take(0) =~= Seq::<Seq<u8>>::empty());
            lemma_start_bounds(datas(c.files@), 1);
        }
        Ok(c)
    }

    /// The bytes of a concatenation are those of its sources, one after
    /// another.
    pub proof fn lemma_data(&self)
        ensures
            self.data() == flatten(self.parts()),
    {
    }

    /// The sources, in order.
    pub fn files(&self) -> (r: &Vec<T>)
        ensures
            r@ == self.sources(),
            datas(r@) == self.parts(),
    {
        &self.files
    }

    /// Discovers the extent of sources until one that reaches past `target`
    /// is known, or all are.
    fn index_up_to(&mut self, target: u64) -> (r: Result<(), Error>)
        requires
            old(self).inv(),
            !old(self).synced,
        ensures
            final(self).inv(),
            !final(self).synced,
            final(self).parts() == old(self).parts(),
            final(self).reliable() == old(self).reliable(),
            final(self).offset == old(self).offset,
            final(self).chunk_index == old(self).chunk_index,
            final(self).chunk_start == old(self).chunk_start,
            final(self).files@.len() == old(self).files@.len(),
            old(self).ends@.len() <= final(self).ends@.len(),
            all_sized(old(self).files@) ==> any_opened(final(self).files@) == any_opened(old(self).files@),
            old(self).reliable() || all_sized(old(self).files@) ==> r is Ok,
            r is Ok ==> final(self).ends@.len() == final(self).files@.len() || (
                final(self).ends@.len() > 0 && target < final(self).ends@[final(self).ends@.len() - 1]),
            // Only the sources newly indexed were touched, and only as far as
            // `target` needs.
            forall|i: int|
                0 <= i < old(self).files@.len() && (i < old(self).ends@.len() || final(self).ends@.len() < i)
                    ==> final(self).files@[i] == old(self).files@[i],
            r is Ok && final(self).ends@.len() < final(self).files@.len() ==> final(self).files@[final(self).ends@.len() as int]
                == old(self).files@[final(self).ends@.len() as int],
            final(self).ends@.len() > old(self).ends@.len() ==> target >= start_of(
                old(self).parts(),
                final(self).ends@.len() - 1,
            ),
    {
        let ghost parts = self.parts();
        let ghost rel = self.reliable();
        let ghost n0 = self.ends@.len();
        loop
            invariant
                self.inv(),
                !self.synced,
                self.parts() == parts,
                parts == old(self).parts(),
                self.reliable() == rel,
                rel == old(self).reliable(),
                self.offset == old(self).offset,
                self.chunk_index == old(self).chunk_index,
                self.chunk_start == old(self).chunk_start,
                self.files@.len() == old(self).files@.len(),
                all_sized(old(self).files@) ==> any_opened(self.files@) == any_opened(old(self).files@),
                n0 <= self.ends@.len(),
                n0 == old(self).ends@.len(),
                forall|i: int|
                    0 <= i < self.files@.len() && !(n0 <= i < self.ends@.len()) ==> self.files@[i] == old(self).files@[i],
                self.ends@.len() > n0 ==> target >= start_of(parts, self.ends@.len() - 1),
            decreases self.files@.len() - self.ends@.len(),
        {
            let m = self.ends.len();
            let current_end: u64 = if m == 0 { 0 } else { self.ends[m - 1] };
            if target < current_end {
                return Ok(());
            }
            if m == self.files.len() {
                return Ok(());
            }
            proof {
                if m == 0 {
                    assert(parts.take(0) =~= Seq::<Seq<u8>>::empty());
                }
                assert(current_end == start_of(parts, m as int));
                lemma_flatten_step(parts, m as int);
                lemma_start_bounds(parts, m as int + 1);
                assert(self.files@[m as int].data() == parts[m as int]);
                assert(wf(&self.files@[m as int]));
                if rel {
                    assert(self.files@[m as int].reliable());
                }
                assert(self.files@[m as int] == old(self).files@[m as int]);
                if all_sized(old(self).files@) {
                    assert(self.files@[m as int].sized());
                }
            }
            let ghost files0 = self.files@;
            let size = match self.files[m].seek(SeekFrom::End(0)) {
                Ok(s) => s,
                Err(e) => {
                    proof {
                        lemma_replace(files0, m as int, self.files@[m as int]);
                    }
                    return Err(e);
                },
            };
            proof {
                lemma_replace(files0, m as int, self.files@[m as int]);
            }
            self.ends.push(current_end + size);
        }
    }

    /// The source that holds `target`, or the last one where `target` lies
    /// past all of them, and where that source begins.
    fn locate(&self, target: u64) -> (r: (usize, u64))
        requires
            self.inv(),
            self.ends@.len() == self.files@.len() || (self.ends@.len() > 0 && target < self.ends@[self.ends@.len() - 1]),
        ensures
            r.0 < self.files@.len(),
            r.1 == start_of(self.parts(), r.0 as int),
            r.1 <= target,
            r.0 + 1 < self.files@.len() ==> target < start_of(self.parts(), r.0 + 1),
    {
        let ghost parts = self.parts();
        let m = self.ends.len();
        proof {
            assert forall|i: int, j: int| 0 <= i <= j < m implies self.ends@[i] <= self.ends@[j] by {
                lemma_start_mono(parts, i + 1, j + 1);
            }
        }
        // The first source whose end lies past `target`.
        let mut lo: usize = 0;
        let mut hi: usize = m;
        while lo < hi
            invariant
                self.inv(),
                m == self.ends@.len(),
                0 <= lo <= hi <= m,
                forall|i: int, j: int| 0 <= i <= j < m ==> self.ends@[i] <= self.ends@[j],
                forall|i: int| 0 <= i < lo ==> self.ends@[i] <= target,
                forall|i: int| hi <= i < m ==> target < self.ends@[i],
            decreases hi - lo,
        {
            let mid = lo + (hi - lo) / 2;
            if target < self.ends[mid] {
                hi = mid;
            } else {
                lo = mid + 1;
            }
        }
        proof {
            if lo < m {
                assert(target < self.ends@[lo as int]);
                assert(self.ends@[lo as int] == start_of(parts, lo + 1));
            }
        }
        let k: usize = if lo < m { lo } else { m - 1 };
        let start: u64 = if k == 0 { 0 } else { self.ends[k - 1] };
        proof {
            if k == 0 {
                assert(parts.take(0) =~= Seq::<Seq<u8>>::empty());
            }
            if lo == m {
                // `target` lies at or past the end of every source.
                assert(m == self.files@.len());
                lemma_start_bounds(parts, m as int);
                lemma_start_mono(parts, k as int, m as int);
            }
        }
        (k, start)
    }
}

impl<T: ReadSeek> ReadSeek for Concat<T> {
    closed spec fn data(&self) -> Seq<u8> {
        flatten(self.parts())
    }

    closed spec fn pos(&self) -> int {
        self.offset as int
    }

    closed spec fn inv(&self) -> bool {
        let parts = self.parts();
        let n = self.files@.len() as int;
        let k = self.chunk_index as int;
        &&& n >= 1
        &&& forall|i: int| 0 <= i < n ==> #[trigger] wf(&self.files@[i])
        &&& flatten(parts).len() <= u64::MAX
        &&& self.ends@.len() <= n
        &&& forall|i: int| 0 <= i < self.ends@.len() ==> #[trigger] self.ends@[i] == start_of(parts, i + 1)
        &&& k <= n
        &&& k < n ==> {
            &&& self.chunk_start == start_of(parts, k)
            &&& self.chunk_start <= self.offset
            &&& k + 1 < n ==> self.offset <= start_of(parts, k + 1)
            &&& self.synced ==> self.files@[k].pos() == self.offset - self.chunk_start
        }
        &&& k == n ==> self.offset >= flatten(parts).len()
        &&& self.offset <= flatten(parts).len()
    }

    closed spec fn reliable(&self) -> bool {
        all_reliable(self.files@)
    }

    closed spec fn opened(&self) -> bool {
        any_opened(self.files@)
    }

    closed spec fn sized(&self) -> bool {
        all_sized(self.files@)
    }


    /// A read goes through the sources from the one under the cursor on,
    /// and touches none after the one it stops in.
    fn read(&mut self, buf: &mut [u8]) -> (r: Result<usize, Error>)
        ensures
            r matches Ok(n) ==> read_full(old(self).data(), old(self).pos(), old(buf)@, final(buf)@, n as int),
            old(self).current() <= final(self).current(),
            forall|i: int| final(self).current() < i < old(self).sources().len() ==> #[trigger] final(self).sources()[i] == old(self).sources()[i],
            final(self).indexed() == old(self).indexed(),
    {
        let ghost parts = self.parts();
        let ghost data = self.data();
        let ghost rel = self.reliable();
        let ghost before = buf@;
        let ghost start_offset = self.offset;
        let n_files = self.files.len();
        let room = buf.len();
        let mut total: usize = 0;
        while total < room && self.chunk_index < n_files
            invariant
                self.inv(),
                self.parts() == parts,
                parts == old(self).parts(),
                data == flatten(parts),
                data == old(self).data(),
                self.reliable() == rel,
                rel == old(self).reliable(),
                old(self).chunk_index <= self.chunk_index,
                self.ends@ == old(self).ends@,
                forall|i: int| self.chunk_index < i < n_files ==> #[trigger] self.files@[i] == old(self).files@[i],
                start_offset == old(self).offset,
                before == old(buf)@,
                n_files == self.files@.len(),
                room == buf@.len() == before.len(),
                total <= room,
                self.offset == start_offset + total,
                total > 0 ==> self.offset <= data.len(),
                forall|j: int| 0 <= j < total ==> buf@[j] == data[start_offset + j],
                forall|j: int| total <= j < room ==> buf@[j] == before[j],
            decreases (room - total) + (n_files - self.chunk_index),
        {
            let k = self.chunk_index;
            proof {
                assert(self.files@[k as int].data() == parts[k as int]);
                assert(wf(&self.files@[k as int]));
                if rel {
                    assert(self.files@[k as int].reliable());
                }
                lemma_flatten_step(parts, k as int);
                lemma_start_bounds(parts, k as int + 1);
            }
            if !self.synced {
                let within = self.offset - self.chunk_start;
                let ghost files0 = self.files@;
                match self.files[k].seek(SeekFrom::Start(within)) {
                    Ok(_) => {},
                    Err(e) => {
                        proof {
                            lemma_replace(files0, k as int, self.files@[k as int]);
                        }
                        return Err(e);
                    },
                }
                proof {
                    lemma_replace(files0, k as int, self.files@[k as int]);
                }
                self.synced = true;
            }
            proof {
                assert(self.files@[k as int].data() == parts[k as int]);
                if rel {
                    assert(self.files@[k as int].reliable());
                }
            }
            let ghost buf_before = buf@;
            let ghost file_pos = self.files@[k as int].pos();
            let ghost files0 = self.files@;
            let (head, rest) = buf.split_at_mut(total);
            let nread = match self.files[k].read(rest) {
                Ok(v) => v,
                Err(e) => {
                    self.synced = false;
                    proof {
                        lemma_replace(files0, k as int, self.files@[k as int]);
                    }
                    return Err(e);
                },
            };
            proof {
                lemma_replace(files0, k as int, self.files@[k as int]);
                assert(head@ == buf_before.subrange(0, total as int));
                assert(buf@ == head@ + rest@);
                assert(file_pos == self.offset - self.chunk_start);
                assert forall|j: int| 0 <= j < total + nread implies #[trigger] buf@[j] == data[start_offset + j] by {
                    if j < total {
                        assert(buf@[j] == head@[j]);
                    } else {
                        assert(buf@[j] == rest@[j - total]);
                        assert(rest@[j - total] == parts[k as int][file_pos + (j - total)]);
                        lemma_part_at(parts, k as int, file_pos + (j - total));
                    }
                }
                assert forall|j: int| total + nread <= j < room implies buf@[j] == before[j] by {
                    assert(buf@[j] == rest@[j - total]);
                }
                lemma_start_bounds(parts, n_files as int);
                if k + 2 <= n_files {
                    lemma_start_mono(parts, k + 1, k + 2);
                    lemma_start_mono(parts, k + 1, n_files as int);
                }
            }
            if nread == 0 {
                proof {
                    assert(avail(parts[k as int].len() as int, file_pos, (room - total) as int) == 0);
                    assert(self.offset >= start_of(parts, k as int + 1));
                }
                self.chunk_index = k + 1;
                self.chunk_start = self.offset;
                self.synced = false;
            } else {
                total = total + nread;
                self.offset = self.offset + nread as u64;
            }
        }
        proof {
            if self.chunk_index == n_files && total > 0 {
                assert(self.offset == data.len());
            }
        }
        Ok(total)
    }

    /// A target past the total length fails, and leaves the cursor where
    /// it was. A seek from the start or the cursor discovers the extent of
    /// sources only up to the one that holds its target.
    fn seek(&mut self, pos: SeekFrom) -> (r: Result<u64, Error>)
        ensures
            old(self).sized() ==> final(self).opened() == old(self).opened(),
            seek_target(pos, old(self).pos(), old(self).data().len() as int) > old(self).data().len() ==> r is Err,
            r is Err ==> final(self).pos() == old(self).pos(),
            r is Ok && !(pos is End) ==> forall|i: int|
                final(self).indexed() <= i < old(self).sources().len() ==> #[trigger] final(self).sources()[i]
                    == old(self).sources()[i],
            !(pos is End) && final(self).indexed() > old(self).indexed() ==> seek_target(
                pos,
                old(self).pos(),
                old(self).data().len() as int,
            ) >= start_of(old(self).parts(), final(self).indexed() - 1),
            forall|i: int| 0 <= i < old(self).indexed() ==> #[trigger] final(self).sources()[i] == old(self).sources()[i],
    {
        let ghost parts = self.parts();
        let ghost len = self.data().len();
        self.synced = false;
        let target: u64 = match pos {
            SeekFrom::Start(o) => {
                self.index_up_to(o)?;
                if self.ends.len() == self.files.len() && o > self.ends[self.ends.len() - 1] {
                    proof {
                        lemma_start_bounds(parts, self.files@.len() as int);
                    }
                    return Err(Error::InvalidSeek);
                }
                o
            },
            SeekFrom::Current(o) => {
                match offset_by(self.offset, o) {
                    Some(t) => {
                        self.index_up_to(t)?;
                        if self.ends.len() == self.files.len() && t > self.ends[self.ends.len() - 1] {
                            proof {
                                lemma_start_bounds(parts, self.files@.len() as int);
                            }
                            return Err(Error::InvalidSeek);
                        }
                        t
                    },
                    None => {
                        return Err(Error::InvalidSeek);
                    },
                }
            },
            SeekFrom::End(o) => {
                self.index_up_to(u64::MAX)?;
                let m = self.ends.len();
                let end = self.ends[m - 1];
                proof {
                    lemma_start_bounds(parts, m as int);
                }
                if o > 0 {
                    return Err(Error::InvalidSeek);
                }
                match offset_by(end, o) {
                    Some(t) => t,
                    None => {
                        return Err(Error::InvalidSeek);
                    },
                }
            },
        };
        proof {
            lemma_start_bounds(parts, self.files@.len() as int);
            if self.ends@.len() < self.files@.len() {
                lemma_start_mono(parts, self.ends@.len() as int, self.files@.len() as int);
            }
        }
        let (k, start) = self.locate(target);
        proof {
            lemma_start_bounds(parts, k as int + 1);
        }
        self.chunk_index = k;
        self.chunk_start = start;
        self.offset = target;
        Ok(target)
    }
}

} // verus!
