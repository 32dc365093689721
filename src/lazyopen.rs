use vstd::prelude::*;
use crate::error::Error;
use crate::readseek::{fill, read_full, wf, ReadSeek, SeekFrom};

verus! {

/// Something that can be opened, once, into a stream.
///
/// It declares the bytes that the stream it opens will hold, and whether the
/// opening can fail.
pub trait Opener {
    type Reader: ReadSeek;

    open spec fn data(&self) -> Seq<u8> {
        Seq::empty()
    }

    open spec fn reliable(&self) -> bool {
        false
    }

    /// Whether the stream it opens accepts seeks past its end.
    open spec fn lenient(&self) -> bool {
        false
    }

    fn open(self) -> (r: Result<Self::Reader, Error>)
        ensures
            self.reliable() ==> r is Ok,
            r matches Ok(f) ==> {
                &&& wf(&f)
                &&& f.data() == self.data()
                &&& f.pos() == 0
                &&& self.reliable() ==> f.reliable()
                &&& self.lenient() ==> f.lenient()
            },
    ;
}

/// A stream whose source is opened on first use.
///
/// A size hint, where given, answers a seek to the end while the source is
/// still unopened; the opened source is then moved to its end before it is
/// used. A failure to open is kept and returned again on every later call.
pub struct LazyOpen<O: Opener> {
    opener: Option<O>,
    file: Option<O::Reader>,
    failure: Option<Error>,
    size_hint: Option<u64>,
    /// A seek to the end was answered from the size hint.
    at_end: bool,
    content: Ghost<Seq<u8>>,
    trusty: Ghost<bool>,
    loose: Ghost<bool>,
    /// How many times the opener has been called.
    opens: Ghost<nat>,
}

impl<O: Opener> LazyOpen<O> {
    pub fn new(open_fn: O) -> (r: LazyOpen<O>)
        requires
            open_fn.data().len() <= u64::MAX,
        ensures
            wf(&r),
            r.data() == open_fn.data(),
            r.reliable() == open_fn.reliable(),
            r.lenient() == open_fn.lenient(),
            r.pos() == 0,
            r.unopened(),
            !r.opened(),
            r.opens() == 0,
    {
        LazyOpen {
            opener: Some(open_fn),
            file: None,
            failure: None,
            size_hint: None,
            at_end: false,
            content: Ghost(open_fn.data()),
            trusty: Ghost(open_fn.reliable()),
            loose: Ghost(open_fn.lenient()),
            opens: Ghost(0),
        }
    }

    pub fn with_size_hint(size_hint: u64, open_fn: O) -> (r: LazyOpen<O>)
        requires
            size_hint == open_fn.data().len(),
        ensures
            wf(&r),
            r.data() == open_fn.data(),
            r.reliable() == open_fn.reliable(),
            r.lenient() == open_fn.lenient(),
            r.pos() == 0,
            r.unopened(),
            r.hint() == Some(size_hint),
            !r.opened(),
            r.sized(),
    {
        LazyOpen {
            opener: Some(open_fn),
            file: None,
            failure: None,
            size_hint: Some(size_hint),
            at_end: false,
            content: Ghost(open_fn.data()),
            trusty: Ghost(open_fn.reliable()),
            loose: Ghost(open_fn.lenient()),
            opens: Ghost(0),
        }
    }

    /// Whether the source has not been opened yet.
    pub closed spec fn unopened(&self) -> bool {
        self.opener is Some
    }

    pub proof fn lemma_opened(&self)
        ensures
            self.opened() == !self.unopened(),
    {
    }

    /// How many times the opener has been called.
    pub closed spec fn opens(&self) -> nat {
        self.opens@
    }

    /// Opening failed; the failure is returned again on every later call.
    pub closed spec fn failed(&self) -> bool {
        self.failure is Some
    }

    /// The opener is called at most once: never while the source is
    /// unopened, once after.
    pub proof fn lemma_opens(&self)
        requires
            self.inv(),
        ensures
            self.opens() <= 1,
            self.unopened() <==> self.opens() == 0,
            self.failed() ==> !self.unopened(),
    {
    }

    pub closed spec fn hint(&self) -> Option<u64> {
        self.size_hint
    }

    /// Whether the source has been opened, or an attempt to open it failed.
    pub fn is_opened(&self) -> (r: bool)
        ensures
            r == !self.unopened(),
    {
        self.opener.is_none()
    }

    /// Opens the source where that has not been done yet, and moves it to
    /// the end where a seek to the end was answered from the hint.
    fn ensure_open(&mut self) -> (r: Result<(), Error>)
        requires
            old(self).inv(),
        ensures
            final(self).inv(),
            final(self).data() == old(self).data(),
            final(self).reliable() == old(self).reliable(),
            final(self).hint() == old(self).hint(),
            final(self).lenient() == old(self).lenient(),
            !final(self).unopened(),
            old(self).file is Some ==> r is Ok && *final(self) == *old(self),
            old(self).failed() ==> r is Err && *final(self) == *old(self),
            final(self).failed() ==> r is Err,
            final(self).opens() == if old(self).unopened() { old(self).opens() + 1 } else { old(self).opens() },
            old(self).reliable() ==> r is Ok,
            r is Ok ==> final(self).file is Some && final(self).pos() == old(self).pos(),
    {
        if self.file.is_some() {
            return Ok(());
        }
        match &self.failure {
            Some(e) => {
                return Err(e.clone());
            },
            None => {},
        }
        let opener = self.opener.take();
        self.opens = Ghost(self.opens@ + 1);
        let f = match opener {
            Some(o) => o.open(),
            None => Err(Error::Io(String::new())),
        };
        match f {
            Ok(f) => {
                self.file = Some(f);
            },
            Err(e) => {
                self.at_end = false;
                self.failure = Some(e.clone());
                return Err(e);
            },
        }
        if self.at_end {
            self.at_end = false;
            let r = match &mut self.file {
                Some(f) => f.seek(SeekFrom::End(0)),
                None => Err(Error::Io(String::new())),
            };
            match r {
                Ok(_) => {},
                Err(e) => {
                    return Err(e);
                },
            }
        }
        Ok(())
    }
}

impl<O: Opener> ReadSeek for LazyOpen<O> {
    closed spec fn data(&self) -> Seq<u8> {
        self.content@
    }

    closed spec fn pos(&self) -> int {
        match self.file {
            Some(f) => f.pos(),
            None => if self.at_end {
                self.content@.len() as int
            } else {
                0
            },
        }
    }

    closed spec fn inv(&self) -> bool {
        &&& self.content@.len() <= u64::MAX
        &&& self.size_hint matches Some(h) ==> h == self.content@.len()
        &&& self.at_end ==> self.opener is Some && self.size_hint is Some
        &&& self.opens@ == (if self.opener is Some { 0nat } else { 1nat })
        &&& match self.opener {
            Some(o) => {
                &&& self.file is None
                &&& self.failure is None
                &&& o.data() == self.content@
                &&& o.reliable() == self.trusty@
                &&& o.lenient() == self.loose@
            },
            None => match self.file {
                Some(f) => {
                    &&& self.failure is None
                    &&& wf(&f)
                    &&& f.data() == self.content@
                    &&& self.trusty@ ==> f.reliable()
                    &&& self.loose@ ==> f.lenient()
                },
                None => self.failure is Some && !self.trusty@,
            },
        }
    }

    closed spec fn reliable(&self) -> bool {
        self.trusty@
    }

    closed spec fn lenient(&self) -> bool {
        self.loose@
    }

    closed spec fn opened(&self) -> bool {
        self.opener is None
    }

    closed spec fn sized(&self) -> bool {
        (self.opener is Some && self.size_hint is Some) || (self.file matches Some(f) && f.sized())
    }


    fn read(&mut self, buf: &mut [u8]) -> (r: Result<usize, Error>)
        ensures
            !final(self).unopened(),
            r matches Ok(n) ==> read_full(old(self).data(), old(self).pos(), old(buf)@, final(buf)@, n as int),
            old(self).failed() ==> final(self).failed(),
            final(self).failed() ==> r is Err,
            final(self).opens() <= 1,
    {
        self.ensure_open()?;
        match &mut self.file {
            Some(f) => fill(f, buf),
            None => Err(Error::Io(String::new())),
        }
    }

    fn seek(&mut self, pos: SeekFrom) -> (r: Result<u64, Error>)
        ensures
            old(self).unopened() && old(self).hint() is Some && pos == SeekFrom::End(0) ==> final(self).unopened(),
            !(old(self).unopened() && old(self).hint() is Some && pos == SeekFrom::End(0)) ==> !final(self).unopened(),
            old(self).failed() ==> final(self).failed(),
            final(self).failed() ==> r is Err,
            final(self).opens() <= 1,
    {
        if self.opener.is_some() {
            if let Some(h) = self.size_hint {
                if pos == SeekFrom::End(0) {
                    self.at_end = true;
                    return Ok(h);
                }
            }
        }
        self.ensure_open()?;
        match &mut self.file {
            Some(f) => f.seek(pos),
            None => Err(Error::Io(String::new())),
        }
    }
}

} // verus!
