use vstd::prelude::*;
use crate::error::Error;
use crate::readseek::{wf, ReadSeek};

verus! {

/// A point in time, as seconds and nanoseconds since the Unix epoch.
#[derive(Clone, Copy, Debug, PartialEq, Eq, Structural)]
pub struct Timestamp {
    pub secs: i64,
    pub nanos: u32,
}

/// What every node reports about itself, without doing its expensive work.
#[derive(Clone, Copy, Debug, PartialEq, Eq, Structural)]
pub struct Metadata {
    pub mtime: Timestamp,
    pub ctime: Timestamp,
    pub perm: u16,
}

/// A node that can describe itself.
pub trait Meta {
    fn metadata(&self) -> Result<Metadata, Error>;
}

/// A regular file: its size is known without opening it.
pub trait File: Meta {
    type Reader: ReadSeek;

    fn open_ro(&self) -> (r: Result<Self::Reader, Error>)
        ensures
            r matches Ok(f) ==> wf(&f),
    ;

    fn size(&self) -> Result<u64, Error>;
}

/// A directory: a listing of named nodes, whose files are `F`, whose
/// directories are `D` and whose links are `S`.
pub trait Directory<F, D, S>: Meta {
    fn files(&self) -> Result<Vec<(String, Node<F, D, S>)>, Error>;

    /// The node called `name`; `NotFound` where there is none. Unless
    /// overridden, the first entry of the listing with that name.
    fn file_by_name(&self, name: &str) -> (r: Result<Node<F, D, S>, Error>) {
        let files = self.files()?;
        find_entry(files, name)
    }
}

/// The node of the first of `entries` called `name`; `NotFound` where none
/// is.
pub fn find_entry<F, D, S>(entries: Vec<(String, Node<F, D, S>)>, name: &str) -> (r: Result<Node<F, D, S>, Error>)
    ensures
        r matches Ok(n) ==> exists|i: int|
            0 <= i < entries@.len() && #[trigger] entries@[i].0@ == name@ && entries@[i].1 == n
                && forall|j: int| 0 <= j < i ==> entries@[j].0@ != name@,
        r is Err ==> r == Err::<Node<F, D, S>, Error>(Error::NotFound),
        r is Err <==> forall|i: int| 0 <= i < entries@.len() ==> (#[trigger] entries@[i]).0@ != name@,
{
    let mut list = entries;
    let ghost all = list@;
    let key = name.to_owned();
    let mut i: usize = 0;
    while i < list.len()
        invariant
            list@ == all,
            all == entries@,
            key@ == name@,
            i <= all.len(),
            forall|j: int| 0 <= j < i ==> all[j].0@ != name@,
        decreases all.len() - i,
    {
        if list[i].0 == key {
            let (_, node) = list.remove(i);
            proof {
                assert(all[i as int].0@ == name@ && all[i as int].1 == node);
            }
            return Ok(node);
        }
        i = i + 1;
    }
    Err(Error::NotFound)
}

/// A symbolic link.
pub trait Symlink: Meta {
    fn read_link(&self) -> Result<String, Error>;
}

/// A family of node types that make up one tree, and its root.
pub trait NodeType: Sized {
    type File: File + Clone;
    type Directory: Directory<Self::File, Self::Directory, Self::Symlink> + Clone;
    type Symlink: Symlink + Clone;

    fn root(&self) -> Self::Directory;
}

/// One node of a tree: a file, a directory or a symbolic link.
pub enum Node<F, D, S> {
    File(F),
    Directory(D),
    Symlink(S),
}

} // verus!

verus! {

impl<F: Clone, D: Clone, S: Clone> Clone for Node<F, D, S> {
    fn clone(&self) -> (r: Self)
        ensures
            r.kind() == self.kind(),
    {
        match self {
            Node::File(f) => Node::File(f.clone()),
            Node::Directory(d) => Node::Directory(d.clone()),
            Node::Symlink(s) => Node::Symlink(s.clone()),
        }
    }
}

/// Which of the three a node is.
#[derive(Clone, Copy, Debug, PartialEq, Eq, Structural)]
pub enum NodeKind {
    File,
    Directory,
    Symlink,
}

impl<F, D, S> Node<F, D, S> {
    pub open spec fn kind(&self) -> NodeKind {
        match self {
            Node::File(_) => NodeKind::File,
            Node::Directory(_) => NodeKind::Directory,
            Node::Symlink(_) => NodeKind::Symlink,
        }
    }

    /// Which of the three this node is.
    pub fn node_kind(&self) -> (r: NodeKind)
        ensures
            r == self.kind(),
    {
        match self {
            Node::File(_) => NodeKind::File,
            Node::Directory(_) => NodeKind::Directory,
            Node::Symlink(_) => NodeKind::Symlink,
        }
    }

    pub fn file(&self) -> (r: Option<&F>)
        ensures
            r is Some <==> self is File,
            r matches Some(f) ==> *self == Node::<F, D, S>::File(*f),
    {
        match self {
            Node::File(f) => Some(f),
            _ => None,
        }
    }

    pub fn directory(&self) -> (r: Option<&D>)
        ensures
            r is Some <==> self is Directory,
            r matches Some(d) ==> *self == Node::<F, D, S>::Directory(*d),
    {
        match self {
            Node::Directory(d) => Some(d),
            _ => None,
        }
    }

    pub fn symlink(&self) -> (r: Option<&S>)
        ensures
            r is Some <==> self is Symlink,
            r matches Some(s) ==> *self == Node::<F, D, S>::Symlink(*s),
    {
        match self {
            Node::Symlink(s) => Some(s),
            _ => None,
        }
    }

}

impl<F: Meta, D: Meta, S: Meta> Node<F, D, S> {
    /// The metadata of the node, whichever kind it is.
    pub fn metadata(&self) -> Result<Metadata, Error> {
        match self {
            Node::File(f) => f.metadata(),
            Node::Directory(d) => d.metadata(),
            Node::Symlink(s) => s.metadata(),
        }
    }
}

} // verus!
