use vstd::prelude::*;

verus! {

/// The error taxonomy of the library. Every failure of a component is one of
/// these before the filesystem layer turns it into a protocol error code.
#[derive(Clone, Debug, PartialEq, Eq)]
pub enum Error {
    /// The requested entry does not exist.
    NotFound,
    /// A stale or unknown handle id.
    BadHandle,
    /// A failure of the catalog or tag collaborators.
    Backend(String),
    /// A local or transport I/O failure.
    Io(String),
    /// An unexpected answer to a range request.
    Protocol(String),
    /// A seek that resolves to a position before the start of a stream, or
    /// past the largest representable offset.
    InvalidSeek,
    /// A stream concatenation was asked for without any sources.
    NoSources,
    /// A request that would write to the read-only filesystem.
    ReadOnly,
    /// A request of a verb that this filesystem does not implement.
    NotSupported,
}

impl Error {
    /// Whether this is the "no such entry" error.
    pub fn is_not_found(&self) -> (r: bool)
        ensures
            r == (*self is NotFound),
    {
        match self {
            Error::NotFound => true,
            _ => false,
        }
    }
}

} // verus!
