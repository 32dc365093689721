use vstd::prelude::*;
use crate::cursor::offset_by;
use crate::error::Error;
use crate::readseek::{seek_target, valid_offset, SeekFrom};

verus! {

/// HTTP status: the whole resource follows.
pub const STATUS_OK: u16 = 200;

/// HTTP status: the requested range follows.
pub const STATUS_PARTIAL_CONTENT: u16 = 206;

/// HTTP status: the requested range starts at or past the end.
pub const STATUS_RANGE_NOT_SATISFIABLE: u16 = 416;

/// A request count after one more request; it stops at the largest value.
pub open spec fn bumped(n: u64) -> u64 {
    if n < u64::MAX {
        (n + 1) as u64
    } else {
        n
    }
}

/// What the seeker knows of the response that is open, if any.
#[derive(Clone, Copy, Debug, PartialEq, Eq, Structural)]
pub enum ResponseState {
    /// No response is open; the next read asks for one.
    NoResponse,
    /// A response is open and its next byte is the one at the cursor.
    Response,
    /// The cursor is at or past the end: reads return nothing.
    OutOfRange,
}

/// What the caller must do to serve a read.
#[derive(Clone, Copy, Debug, PartialEq, Eq, Structural)]
pub enum ReadStep {
    /// Return no bytes: the cursor is at or past the end.
    Eof,
    /// Read from the open response until the buffer is full or it ends.
    Drain,
    /// Send a range request for `bytes=<offset>-` and pass the answer to
    /// `on_response`.
    Request(u64),
}

/// What the caller must do with the answer to a request.
#[derive(Clone, Copy, Debug, PartialEq, Eq, Structural)]
pub enum ResponseStep {
    /// Keep the response as the open one.
    Keep,
    /// Drop the response and send a request for `bytes=<offset>-` to learn
    /// the length of the resource; pass its answer to `on_response` too.
    Request(u64),
    /// Drop the response: the cursor lies past the end.
    Discard,
}

/// What the caller must do with its open and its set-aside response after a
/// seek. Where the cursor has not `moved`, nothing. Otherwise: first take
/// the open one out; then, if `revive`, make the set-aside one the open one;
/// then, if `stash`, set the one taken out aside, else drop it.
#[derive(Clone, Copy, Debug, PartialEq, Eq, Structural)]
pub struct SeekStep {
    pub position: u64,
    pub moved: bool,
    pub revive: bool,
    pub stash: bool,
}

/// The decisions of a stream over a remote resource fetched by HTTP range
/// requests.
///
/// The caller holds the connection and at most two responses: the open one,
/// and one set aside by a seek. This type decides when to send a request and
/// which response serves a read, so that a linear read needs one request, a
/// seek to where the cursor stands needs none, and a seek back to where a
/// response was left takes that response up again.
#[derive(Clone, Copy, Debug, PartialEq, Eq)]
pub struct RangeSeeker {
    offset: u64,
    content_length: Option<u64>,
    state: ResponseState,
    /// Where the set-aside response stands, if there is one.
    cached: Option<u64>,
    /// Where a request that was answered "not satisfiable" was made.
    probing: Option<u64>,
    num_requests: u64,
}

impl RangeSeeker {
    pub fn new() -> (r: RangeSeeker)
        ensures
            r.offset() == 0,
            r.content_length() is None,
            r.state() == ResponseState::NoResponse,
            r.cached() is None,
            r.requests() == 0,
            r.probing() is None,
    {
        RangeSeeker { offset: 0, content_length: None, state: ResponseState::NoResponse, cached: None, probing: None, num_requests: 0 }
    }

    pub closed spec fn offset(&self) -> u64 {
        self.offset
    }

    pub closed spec fn content_length(&self) -> Option<u64> {
        self.content_length
    }

    pub closed spec fn state(&self) -> ResponseState {
        self.state
    }

    pub closed spec fn cached(&self) -> Option<u64> {
        self.cached
    }

    pub closed spec fn probing(&self) -> Option<u64> {
        self.probing
    }

    pub closed spec fn requests(&self) -> u64 {
        self.num_requests
    }

    /// The cursor.
    pub fn position(&self) -> (r: u64)
        ensures
            r == self.offset(),
    {
        self.offset
    }

    /// How many requests have been asked for.
    pub fn num_requests(&self) -> (r: u64)
        ensures
            r == self.requests(),
    {
        self.num_requests
    }

    /// The length of the resource, once a response has told it.
    pub fn length(&self) -> (r: Option<u64>)
        ensures
            r == self.content_length(),
    {
        self.content_length
    }

    fn count_request(&mut self)
        ensures
            final(self).requests() == bumped(old(self).requests()),
            final(self).offset() == old(self).offset(),
            final(self).content_length() == old(self).content_length(),
            final(self).state() == old(self).state(),
            final(self).cached() == old(self).cached(),
            final(self).probing() == old(self).probing(),
    {
        if self.num_requests < u64::MAX {
            self.num_requests = self.num_requests + 1;
        }
    }

    /// Decides how a read is served. A read always drops the set-aside
    /// response: one that was left part-way is no use for a later target.
    pub fn begin_read(&mut self) -> (r: ReadStep)
        requires
            old(self).probing() is None,
        ensures
            final(self).cached() is None,
            final(self).offset() == old(self).offset(),
            final(self).content_length() == old(self).content_length(),
            final(self).state() == old(self).state(),
            final(self).probing() is None,
            r == (if old(self).content_length() matches Some(l) && old(self).offset() >= l {
                ReadStep::Eof
            } else {
                match old(self).state() {
                    ResponseState::Response => ReadStep::Drain,
                    ResponseState::OutOfRange => ReadStep::Eof,
                    ResponseState::NoResponse => ReadStep::Request(old(self).offset()),
                }
            }),
            r is Request ==> final(self).requests() == bumped(old(self).requests()),
            !(r is Request) ==> final(self).requests() == old(self).requests(),
    {
        self.cached = None;
        if let Some(l) = self.content_length {
            if self.offset >= l {
                return ReadStep::Eof;
            }
        }
        match self.state {
            ResponseState::Response => ReadStep::Drain,
            ResponseState::OutOfRange => ReadStep::Eof,
            ResponseState::NoResponse => {
                self.count_request();
                ReadStep::Request(self.offset)
            },
        }
    }

    /// Takes in the answer to a request made at the cursor (or, after a
    /// "not satisfiable" answer, at the start): its status and the length it
    /// announced.
    pub fn on_response(&mut self, status: u16, length: Option<u64>) -> (r: Result<ResponseStep, Error>)
        ensures
            final(self).cached() == old(self).cached(),
            final(self).offset() == old(self).offset(),
            // "Not satisfiable" at the cursor: learn the length from the start.
            old(self).probing() is None && status == STATUS_RANGE_NOT_SATISFIABLE ==> {
                &&& r == Ok::<ResponseStep, Error>(ResponseStep::Request(0))
                &&& final(self).probing() == Some(old(self).offset())
                &&& final(self).requests() == bumped(old(self).requests())
            },
            // The answer that opens a response at the cursor.
            old(self).probing() is None && ((status == STATUS_OK && old(self).offset() == 0) || status == STATUS_PARTIAL_CONTENT) ==> {
                &&& length is Some && old(self).offset() + length->0 <= u64::MAX ==> {
                    &&& r == Ok::<ResponseStep, Error>(ResponseStep::Keep)
                    &&& final(self).state() == ResponseState::Response
                    &&& final(self).content_length() == Some((old(self).offset() + length->0) as u64)
                }
                &&& !(length is Some && old(self).offset() + length->0 <= u64::MAX) ==> r is Err && final(self).state() == ResponseState::NoResponse
                &&& final(self).requests() == old(self).requests()
            },
            // The answer to the request that learns the length.
            old(self).probing() is Some && (status == STATUS_OK || status == STATUS_PARTIAL_CONTENT) ==> {
                &&& length is Some ==> r == Ok::<ResponseStep, Error>(ResponseStep::Discard)
                    && final(self).content_length() == Some(length->0)
                    && final(self).state() == ResponseState::OutOfRange
                &&& length is None ==> r is Err && final(self).state() == ResponseState::NoResponse
                &&& final(self).requests() == old(self).requests()
            },
            // Any other answer fails.
            status != STATUS_OK && status != STATUS_PARTIAL_CONTENT && (status != STATUS_RANGE_NOT_SATISFIABLE || old(self).probing() is Some)
                ==> (r matches Err(e) && e is Protocol && final(self).state() == ResponseState::NoResponse),
            old(self).probing() is None && status == STATUS_OK && old(self).offset() != 0
                ==> (r matches Err(e) && e is Protocol && final(self).state() == ResponseState::NoResponse),
            r != Ok::<ResponseStep, Error>(ResponseStep::Request(0)) ==> final(self).probing() is None,
    {
        if self.probing.is_none() && status == STATUS_RANGE_NOT_SATISFIABLE {
            self.probing = Some(self.offset);
            self.count_request();
            return Ok(ResponseStep::Request(0));
        }
        if let Some(_) = self.probing {
            self.probing = None;
            if status == STATUS_OK || status == STATUS_PARTIAL_CONTENT {
                match length {
                    Some(l) => {
                        self.content_length = Some(l);
                        self.state = ResponseState::OutOfRange;
                        return Ok(ResponseStep::Discard);
                    },
                    None => {
                        self.state = ResponseState::NoResponse;
                        return Err(Error::Protocol(String::new()));
                    },
                }
            }
            self.state = ResponseState::NoResponse;
            return Err(Error::Protocol(String::new()));
        }
        if (status == STATUS_OK && self.offset == 0) || status == STATUS_PARTIAL_CONTENT {
            match length {
                Some(l) => {
                    if l > u64::MAX - self.offset {
                        self.state = ResponseState::NoResponse;
                        return Err(Error::Protocol(String::new()));
                    }
                    self.content_length = Some(self.offset + l);
                    self.state = ResponseState::Response;
                    Ok(ResponseStep::Keep)
                },
                None => {
                    self.state = ResponseState::NoResponse;
                    Err(Error::Protocol(String::new()))
                },
            }
        } else {
            self.state = ResponseState::NoResponse;
            Err(Error::Protocol(String::new()))
        }
    }

    /// Records that `n` bytes were read from the open response.
    pub fn end_read(&mut self, n: u64) -> (r: Result<(), Error>)
        ensures
            old(self).offset() + n <= u64::MAX ==> r is Ok && final(self).offset() == old(self).offset() + n,
            old(self).offset() + n > u64::MAX ==> r is Err && final(self).offset() == old(self).offset(),
            final(self).cached() == old(self).cached(),
            final(self).content_length() == old(self).content_length(),
            final(self).state() == old(self).state(),
            final(self).probing() == old(self).probing(),
            final(self).requests() == old(self).requests(),
    {
        if n > u64::MAX - self.offset {
            return Err(Error::InvalidSeek);
        }
        self.offset = self.offset + n;
        Ok(())
    }

    /// Moves the cursor. A seek relative to the end needs the length: where
    /// it is not known yet, this returns `None` after asking for a request at
    /// the cursor, whose answer goes to `on_response`, after which the seek
    /// is made again.
    pub fn seek(&mut self, pos: SeekFrom) -> (r: Result<Option<SeekStep>, Error>)
        requires
            old(self).probing() is None,
        ensures
            pos is End && old(self).content_length() is None ==> {
                &&& r == Ok::<Option<SeekStep>, Error>(None)
                &&& final(self).requests() == bumped(old(self).requests())
                &&& final(self).offset() == old(self).offset()
                &&& final(self).cached() == old(self).cached()
                &&& final(self).state() == ResponseState::NoResponse
                &&& final(self).content_length() == old(self).content_length()
            },
            !(pos is End && old(self).content_length() is None) ==> {
                let len = match old(self).content_length() { Some(l) => l as int, None => 0 };
                let t = seek_target(pos, old(self).offset() as int, len);
                &&& !valid_offset(t) ==> r is Err && *final(self) == *old(self)
                &&& valid_offset(t) ==> (r matches Ok(Some(step)) && {
                    &&& step.position == t
                    &&& step.moved == (t != old(self).offset())
                    &&& final(self).offset() == t
                    &&& final(self).requests() == old(self).requests()
                    &&& final(self).content_length() == old(self).content_length()
                    &&& t == old(self).offset() ==> !step.revive && !step.stash && final(self).state() == old(self).state()
                        && final(self).cached() == old(self).cached()
                    &&& t != old(self).offset() ==> {
                        &&& step.revive == (old(self).cached() == Some(t as u64))
                        &&& step.stash == (old(self).state() == ResponseState::Response)
                        &&& final(self).state() == if step.revive {
                            ResponseState::Response
                        } else if pos == SeekFrom::End(0) {
                            ResponseState::OutOfRange
                        } else {
                            ResponseState::NoResponse
                        }
                        &&& final(self).cached() == if step.stash {
                            Some(old(self).offset())
                        } else if step.revive {
                            None
                        } else {
                            old(self).cached()
                        }
                    }
                })
            },
            final(self).probing() is None,
    {
        let target = match pos {
            SeekFrom::Start(o) => Some(o),
            SeekFrom::Current(o) => offset_by(self.offset, o),
            SeekFrom::End(o) => {
                match self.content_length {
                    Some(l) => offset_by(l, o),
                    None => {
                        // The length comes with the answer to a request at the cursor.
                        self.count_request();
                        self.state = ResponseState::NoResponse;
                        return Ok(None);
                    },
                }
            },
        };
        let t = match target {
            Some(t) => t,
            None => {
                return Err(Error::InvalidSeek);
            },
        };
        if t == self.offset {
            return Ok(Some(SeekStep { position: t, moved: false, revive: false, stash: false }));
        }
        let previous = self.state;
        let previous_offset = self.offset;
        self.state = if pos == SeekFrom::End(0) { ResponseState::OutOfRange } else { ResponseState::NoResponse };
        let revive = self.cached == Some(t);
        if revive {
            self.cached = None;
            self.state = ResponseState::Response;
        }
        let stash = previous == ResponseState::Response;
        if stash {
            self.cached = Some(previous_offset);
        }
        self.offset = t;
        Ok(Some(SeekStep { position: t, moved: true, revive, stash }))
    }
}

} // verus!
