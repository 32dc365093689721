use vstd::prelude::*;
use std::collections::HashMap;
use crate::error::Error;
use crate::node::{Directory, File, Meta, Metadata, Node, NodeKind, Symlink, Timestamp};
use crate::nodecache::DirCache;
use crate::readseek::{wf, ReadSeek, SeekFrom};

verus! {

broadcast use vstd::std_specs::hash::group_hash_axioms;

/// The inode of the root directory.
pub const INO_ROOT: u64 = 1;

/// The first inode handed to a node other than the root.
pub const INO_FIRST_CHILD: u64 = 2;

/// open(2) flags that ask to write or create (their values on Linux).
pub const O_APPEND: u32 = 0o2000;
pub const O_CREAT: u32 = 0o100;
pub const O_EXCL: u32 = 0o200;
pub const O_TRUNC: u32 = 0o1000;

/// Every flag of `open` that asks to change the filesystem.
pub const WRITE_FLAGS: u32 = O_APPEND | O_CREAT | O_EXCL | O_TRUNC;

/// The block size that attributes count in.
pub const BLOCK_SIZE: u64 = 1024;

/// The attributes of a node, as the filesystem protocol reports them.
#[derive(Clone, Copy, Debug, PartialEq, Eq)]
pub struct Attr {
    pub ino: u64,
    pub size: u64,
    pub blocks: u64,
    pub atime: Timestamp,
    pub mtime: Timestamp,
    pub ctime: Timestamp,
    pub crtime: Timestamp,
    pub kind: NodeKind,
    pub perm: u16,
    pub nlink: u32,
    pub uid: u32,
    pub gid: u32,
    pub rdev: u32,
    pub flags: u32,
}

/// One entry of a directory listing: `offset` is where the next entry is.
#[derive(Clone, Debug, PartialEq, Eq)]
pub struct DirEntry {
    pub ino: u64,
    pub offset: i64,
    pub kind: NodeKind,
    pub name: String,
}

/// Whether the table maps the child `name` of `parent` to `ino`.
pub open spec fn assigned(table: Seq<(u64, String, u64)>, parent: u64, name: Seq<char>, ino: u64) -> bool {
    exists|i: int| 0 <= i < table.len() && #[trigger] table[i].0 == parent && table[i].1@ == name && table[i].2 == ino
}

/// Every child that `a` maps, `b` maps to the same inode.
pub open spec fn table_grows(a: Seq<(u64, String, u64)>, b: Seq<(u64, String, u64)>) -> bool {
    forall|p: u64, n: Seq<char>, i: u64| #[trigger] assigned(a, p, n, i) ==> assigned(b, p, n, i)
}

/// `ino` is the inode that `table` gave the child `name` of `parent`, if it
/// gave that child any.
pub open spec fn agrees(table: Seq<(u64, String, u64)>, parent: u64, name: Seq<char>, ino: u64) -> bool {
    forall|i: u64| #[trigger] assigned(table, parent, name, i) ==> ino == i
}

/// No child is listed twice, no inode is handed out twice, and every inode
/// lies in `[INO_FIRST_CHILD, next)`.
pub open spec fn table_wf(table: Seq<(u64, String, u64)>, next: u64) -> bool {
    &&& INO_FIRST_CHILD <= next
    &&& forall|i: int| 0 <= i < table.len() ==> INO_FIRST_CHILD <= (#[trigger] table[i]).2 < next
    &&& forall|i: int, j: int|
        0 <= i < table.len() && 0 <= j < table.len() && #[trigger] table[i].2 == #[trigger] table[j].2 ==> i == j
    &&& forall|i: int, j: int|
        0 <= i < table.len() && 0 <= j < table.len() && (#[trigger] table[i]).0 == (#[trigger] table[j]).0
            && table[i].1@ == table[j].1@ ==> i == j
}

/// Whether `ino` is the root or an inode the table handed out.
pub open spec fn handed_out(table: Seq<(u64, String, u64)>, ino: u64) -> bool {
    ino == INO_ROOT || exists|i: int| 0 <= i < table.len() && #[trigger] table[i].2 == ino
}

/// The node table of a mounted filesystem, and its open handles.
///
/// Inodes are handed out from a counter, one per distinct (parent, name)
/// pair, and remembered for the life of the mount: the same child always
/// gets the same inode, and two children never share one.
pub struct FS<F: File, D, S> {
    nodes: HashMap<u64, Node<F, DirCache<F, D, S>, S>>,
    inodes: Vec<(u64, String, u64)>,
    next_ino: u64,
    read_handles: HashMap<u64, F::Reader>,
    next_read_handle: u64,
    readdir_handles: HashMap<u64, Vec<DirEntry>>,
    next_readdir_handle: u64,
    uid: u32,
    gid: u32,
}

impl<F: File + Clone, D: Directory<F, D, S> + Clone, S: Symlink + Clone> FS<F, D, S> {
    pub closed spec fn node_map(&self) -> Map<u64, Node<F, DirCache<F, D, S>, S>> {
        self.nodes@
    }

    pub closed spec fn inode_table(&self) -> Seq<(u64, String, u64)> {
        self.inodes@
    }

    pub closed spec fn readers(&self) -> Map<u64, F::Reader> {
        self.read_handles@
    }

    pub closed spec fn listings(&self) -> Map<u64, Vec<DirEntry>> {
        self.readdir_handles@
    }

    pub closed spec fn next_read(&self) -> u64 {
        self.next_read_handle
    }

    pub closed spec fn next_readdir(&self) -> u64 {
        self.next_readdir_handle
    }

    pub closed spec fn owner(&self) -> (u32, u32) {
        (self.uid, self.gid)
    }

    pub closed spec fn inv(&self) -> bool {
        &&& table_wf(self.inodes@, self.next_ino)
        &&& self.nodes@.contains_key(INO_ROOT)
        &&& self.nodes@[INO_ROOT] is Directory
        &&& forall|ino: u64| #[trigger] self.nodes@.contains_key(ino) ==> handed_out(self.inodes@, ino)
        &&& forall|h: u64| #[trigger] self.read_handles@.contains_key(h) ==> 1 <= h < self.next_read_handle
        &&& forall|h: u64| #[trigger] self.read_handles@.contains_key(h) ==> wf(&self.read_handles@[h])
        &&& forall|h: u64| #[trigger] self.readdir_handles@.contains_key(h) ==> 1 <= h < self.next_readdir_handle
        &&& forall|h: u64, j: int|
            #[trigger] self.readdir_handles@.contains_key(h) && 0 <= j < self.readdir_handles@[h]@.len()
                ==> #[trigger] self.readdir_handles@[h]@[j].offset == j + 1
        &&& 1 <= self.next_read_handle
        &&& 1 <= self.next_readdir_handle
    }

    /// A filesystem whose root directory is `root`.
    pub fn new(root: DirCache<F, D, S>, uid: u32, gid: u32) -> (r: Self)
        ensures
            r.inv(),
            r.node_map() == map![INO_ROOT => Node::<F, DirCache<F, D, S>, S>::Directory(root)],
            r.inode_table().len() == 0,
            r.readers().dom().len() == 0,
            r.listings().dom().len() == 0,
            r.owner() == (uid, gid),
            r.next_read() == 1,
            r.next_readdir() == 1,
    {
        let mut nodes: HashMap<u64, Node<F, DirCache<F, D, S>, S>> = HashMap::new();
        nodes.insert(INO_ROOT, Node::Directory(root));
        let fs = FS {
            nodes,
            inodes: Vec::new(),
            next_ino: INO_FIRST_CHILD,
            read_handles: HashMap::new(),
            next_read_handle: 1,
            readdir_handles: HashMap::new(),
            next_readdir_handle: 1,
            uid,
            gid,
        };
        proof {
            assert(fs.nodes@ =~= map![INO_ROOT => Node::<F, DirCache<F, D, S>, S>::Directory(root)]);
        }
        fs
    }

    /// The inode of the child `name` of `parent`: the one it was given
    /// before, or a fresh one. Fails only when the inode numbers have run out.
    pub fn inode_for_child(&mut self, parent: u64, name: &String) -> (r: Result<u64, Error>)
        requires
            old(self).inv(),
        ensures
            final(self).inv(),
            final(self).node_map() == old(self).node_map(),
            final(self).readers() == old(self).readers(),
            final(self).listings() == old(self).listings(),
            final(self).next_read() == old(self).next_read(),
            final(self).next_readdir() == old(self).next_readdir(),
            final(self).owner() == old(self).owner(),
            table_grows(old(self).inode_table(), final(self).inode_table()),
            forall|i: u64| handed_out(old(self).inode_table(), i) ==> #[trigger] handed_out(final(self).inode_table(), i),
            forall|i: u64| assigned(old(self).inode_table(), parent, name@, i) ==> r == Ok::<u64, Error>(i),
            r matches Ok(i) ==> assigned(final(self).inode_table(), parent, name@, i) && agrees(old(self).inode_table(), parent, name@, i),
            r matches Ok(i) ==> INO_FIRST_CHILD <= i,
            r is Err ==> final(self).inode_table() == old(self).inode_table(),
    {
        let mut k: usize = 0;
        while k < self.inodes.len()
            invariant
                k <= self.inodes@.len(),
                self.inv(),
                *self == *old(self),
                forall|j: int| 0 <= j < k ==> !(self.inodes@[j].0 == parent && self.inodes@[j].1@ == name@),
            decreases self.inodes@.len() - k,
        {
            if self.inodes[k].0 == parent && self.inodes[k].1 == *name {
                let ino = self.inodes[k].2;
                proof {
                    assert forall|i: u64| assigned(old(self).inode_table(), parent, name@, i) implies i == ino by {
                        let j = choose|j: int| 0 <= j < self.inodes@.len() && #[trigger] self.inodes@[j].0 == parent && self.inodes@[j].1@ == name@ && self.inodes@[j].2 == i;
                        assert(j == k);
                    }
                    assert(assigned(self.inodes@, parent, name@, ino)) by {
                        assert(self.inodes@[k as int].0 == parent);
                    }
                }
                proof {
                    assert(table_grows(self.inodes@, self.inodes@));
                }
                return Ok(ino);
            }
            k = k + 1;
        }
        if self.next_ino == u64::MAX {
            return Err(Error::Io(String::new()));
        }
        let ino = self.next_ino;
        let ghost before = self.inodes@;
        let entry = (parent, name.clone(), ino);
        self.inodes.push(entry);
        self.next_ino = ino + 1;
        proof {
            let t = self.inodes@;
            assert(t[before.len() as int] == entry);
            assert forall|p: u64, n: Seq<char>, i: u64| #[trigger] assigned(before, p, n, i) implies assigned(t, p, n, i) by {
                let j = choose|j: int| 0 <= j < before.len() && #[trigger] before[j].0 == p && before[j].1@ == n && before[j].2 == i;
                assert(t[j] == before[j]);
            }
            assert forall|i: u64| handed_out(before, i) implies #[trigger] handed_out(t, i) by {
                if i != INO_ROOT {
                    let j = choose|j: int| 0 <= j < before.len() && #[trigger] before[j].2 == i;
                    assert(t[j] == before[j]);
                }
            }
            assert(assigned(t, parent, name@, ino)) by {
                assert(t[before.len() as int].0 == parent);
            }
            assert forall|i: int, j: int|
                0 <= i < t.len() && 0 <= j < t.len() && (#[trigger] t[i]).0 == (#[trigger] t[j]).0
                    && t[i].1@ == t[j].1@ implies i == j by {
                if i < before.len() && j < before.len() {
                    assert(t[i] == before[i] && t[j] == before[j]);
                } else if i < before.len() {
                    assert(t[i] == before[i]);
                } else if j < before.len() {
                    assert(t[j] == before[j]);
                }
            }
            assert forall|i: int, j: int|
                0 <= i < t.len() && 0 <= j < t.len() && #[trigger] t[i].2 == #[trigger] t[j].2 implies i == j by {
                if i < before.len() && j < before.len() {
                    assert(t[i] == before[i] && t[j] == before[j]);
                } else if i < before.len() {
                    assert(t[i] == before[i]);
                } else if j < before.len() {
                    assert(t[j] == before[j]);
                }
            }
            assert forall|i: int| 0 <= i < t.len() implies INO_FIRST_CHILD <= (#[trigger] t[i]).2 < self.next_ino by {
                if i < before.len() {
                    assert(t[i] == before[i]);
                }
            }
            assert forall|ino2: u64| #[trigger] self.nodes@.contains_key(ino2) implies handed_out(t, ino2) by {
                assert(handed_out(before, ino2));
            }
        }
        Ok(ino)
    }

    /// An inode that neither is the root nor was handed out by a lookup or
    /// a listing has no node: asking for it fails with "not found".
    pub proof fn lemma_unknown_inode(&self, ino: u64)
        requires
            self.inv(),
            !handed_out(self.inode_table(), ino),
        ensures
            !self.node_map().contains_key(ino),
    {
    }

    /// The attributes of the node `ino`.
    pub fn getattr(&self, ino: u64) -> (r: Result<Attr, Error>)
        requires
            self.inv(),
        ensures
            !self.node_map().contains_key(ino) ==> r == Err::<Attr, Error>(Error::NotFound),
            r matches Ok(a) ==> self.node_map().contains_key(ino) && a.ino == ino && a.kind == self.node_map()[ino].kind()
                && (a.uid, a.gid) == self.owner(),
    {
        match self.nodes.get(&ino) {
            Some(node) => attrs_for_node(node, ino, self.uid, self.gid),
            None => Err(Error::NotFound),
        }
    }

    /// Resolves the child `name` of the directory `parent`, gives it its
    /// inode and enters it in the node table.
    pub fn lookup(&mut self, parent: u64, name: &str) -> (r: Result<Attr, Error>)
        requires
            old(self).inv(),
        ensures
            final(self).inv(),
            !old(self).node_map().contains_key(parent) ==> r == Err::<Attr, Error>(Error::NotFound),
            old(self).node_map().contains_key(parent) && !(old(self).node_map()[parent] is Directory)
                ==> r == Err::<Attr, Error>(Error::NotSupported),
            old(self).node_map().contains_key(parent) && (old(self).node_map()[parent] matches Node::Directory(d)
                && d.known_absent(name@)) ==> r == Err::<Attr, Error>(Error::NotFound),
            r matches Ok(a) ==> {
                &&& assigned(final(self).inode_table(), parent, name@, a.ino)
                &&& final(self).node_map().contains_key(a.ino)
                &&& final(self).node_map()[a.ino].kind() == a.kind
                &&& final(self).node_map().dom() == old(self).node_map().dom().insert(a.ino)
                &&& a.ino != INO_ROOT
                &&& agrees(old(self).inode_table(), parent, name@, a.ino)
                &&& (a.uid, a.gid) == final(self).owner()
            },
            r is Err ==> final(self).node_map().dom() == old(self).node_map().dom(),
            table_grows(old(self).inode_table(), final(self).inode_table()),
            forall|i: u64| #[trigger] old(self).node_map().contains_key(i) ==> final(self).node_map().contains_key(i),
            forall|i: u64| #[trigger] old(self).node_map().contains_key(i) ==> final(self).node_map()[i].kind() == old(self).node_map()[i].kind(),
            final(self).readers() == old(self).readers(),
            final(self).listings() == old(self).listings(),
            final(self).next_read() == old(self).next_read(),
            final(self).next_readdir() == old(self).next_readdir(),
            final(self).owner() == old(self).owner(),
    {
        let mut node = match self.nodes.remove(&parent) {
            Some(n) => n,
            None => {
                return Err(Error::NotFound);
            },
        };
        let found = match &mut node {
            Node::Directory(d) => d.file_by_name(name),
            _ => Err(Error::NotSupported),
        };
        let ghost kind = node.kind();
        self.nodes.insert(parent, node);
        proof {
            assert forall|i: u64| #[trigger] old(self).node_map().contains_key(i) implies self.nodes@.contains_key(i)
                && self.nodes@[i].kind() == old(self).node_map()[i].kind() by {
                if i == parent {
                    assert(self.nodes@[i].kind() == kind);
                }
            }
            assert(forall|ino: u64| #[trigger] self.nodes@.contains_key(ino) ==> handed_out(self.inodes@, ino));
            assert(self.nodes@.dom() =~= old(self).nodes@.dom());
        }
        let child = found?;
        let key = name.to_owned();
        assert(self.inode_table() == old(self).inode_table());
        let ino = self.inode_for_child(parent, &key)?;
        // A node already in the table keeps its place, and with it what
        // its directory cache has learnt.
        let attr = match self.nodes.get(&ino) {
            Some(existing) => attrs_for_node(existing, ino, self.uid, self.gid)?,
            None => {
                let a = attrs_for_node(&child, ino, self.uid, self.gid)?;
                self.nodes.insert(ino, child);
                a
            },
        };
        proof {
            assert(self.nodes@.dom() =~= old(self).nodes@.dom().insert(ino));
            assert forall|i: u64| #[trigger] self.nodes@.contains_key(i) implies handed_out(self.inodes@, i) by {
                if i == ino {
                    let j = choose|j: int| 0 <= j < self.inodes@.len() && #[trigger] self.inodes@[j].0 == parent && self.inodes@[j].1@ == name@ && self.inodes@[j].2 == ino;
                    assert(self.inodes@[j].2 == ino);
                }
            }
        }
        Ok(attr)
    }

    /// Where the symbolic link `ino` points.
    pub fn readlink(&self, ino: u64) -> (r: Result<String, Error>)
        requires
            self.inv(),
        ensures
            !self.node_map().contains_key(ino) ==> r == Err::<String, Error>(Error::NotFound),
            self.node_map().contains_key(ino) && !(self.node_map()[ino] is Symlink) ==> r == Err::<String, Error>(Error::NotSupported),
    {
        match self.nodes.get(&ino) {
            Some(Node::Symlink(s)) => s.read_link(),
            Some(_) => Err(Error::NotSupported),
            None => Err(Error::NotFound),
        }
    }

    /// Opens the file `ino` for reading and returns a fresh handle for it.
    /// Any flag that asks to write fails as a read-only filesystem would.
    pub fn open(&mut self, ino: u64, flags: u32) -> (r: Result<u64, Error>)
        requires
            old(self).inv(),
        ensures
            final(self).inv(),
            flags & WRITE_FLAGS != 0 ==> r == Err::<u64, Error>(Error::ReadOnly),
            flags & WRITE_FLAGS == 0 && !old(self).node_map().contains_key(ino) ==> r == Err::<u64, Error>(Error::NotFound),
            flags & WRITE_FLAGS == 0 && old(self).node_map().contains_key(ino) && !(old(self).node_map()[ino] is File)
                ==> r == Err::<u64, Error>(Error::NotSupported),
            r is Err ==> final(self).readers() == old(self).readers() && final(self).next_read() == old(self).next_read(),
            r matches Ok(fh) ==> {
                &&& fh == old(self).next_read()
                &&& !old(self).readers().contains_key(fh)
                &&& final(self).readers() == old(self).readers().insert(fh, final(self).readers()[fh])
                &&& final(self).readers().dom() == old(self).readers().dom().insert(fh)
                &&& forall|h: u64| #[trigger] old(self).readers().contains_key(h) ==> final(self).readers()[h] == old(self).readers()[h]
                &&& final(self).next_read() == fh + 1
            },
            final(self).node_map() == old(self).node_map(),
            final(self).inode_table() == old(self).inode_table(),
            final(self).listings() == old(self).listings(),
            final(self).next_readdir() == old(self).next_readdir(),
            final(self).owner() == old(self).owner(),
    {
        if flags & WRITE_FLAGS != 0 {
            return Err(Error::ReadOnly);
        }
        let reader = match self.nodes.get(&ino) {
            Some(Node::File(f)) => f.open_ro()?,
            Some(_) => {
                return Err(Error::NotSupported);
            },
            None => {
                return Err(Error::NotFound);
            },
        };
        self.store_reader(reader)
    }

    /// Keeps `reader` under a fresh handle; fails only when the handle
    /// numbers have run out.
    pub fn store_reader(&mut self, reader: F::Reader) -> (r: Result<u64, Error>)
        requires
            old(self).inv(),
            wf(&reader),
        ensures
            final(self).inv(),
            old(self).next_read() < u64::MAX <==> r is Ok,
            r matches Ok(fh) ==> {
                &&& fh == old(self).next_read()
                &&& !old(self).readers().contains_key(fh)
                &&& final(self).readers() == old(self).readers().insert(fh, reader)
                &&& final(self).next_read() == fh + 1
            },
            r is Err ==> final(self).readers() == old(self).readers() && final(self).next_read() == old(self).next_read(),
            final(self).node_map() == old(self).node_map(),
            final(self).inode_table() == old(self).inode_table(),
            final(self).listings() == old(self).listings(),
            final(self).next_readdir() == old(self).next_readdir(),
            final(self).owner() == old(self).owner(),
    {
        if self.next_read_handle == u64::MAX {
            return Err(Error::Io(String::new()));
        }
        let fh = self.next_read_handle;
        self.next_read_handle = fh + 1;
        self.read_handles.insert(fh, reader);
        proof {
            assert(self.read_handles@.dom() =~= old(self).read_handles@.dom().insert(fh));
        }
        Ok(fh)
    }

    /// Up to `size` bytes of the file open under `fh`, from `offset` on.
    pub fn read(&mut self, fh: u64, offset: u64, size: u32) -> (r: Result<Vec<u8>, Error>)
        requires
            old(self).inv(),
        ensures
            final(self).inv(),
            !old(self).readers().contains_key(fh) ==> r == Err::<Vec<u8>, Error>(Error::BadHandle),
            r matches Ok(bytes) ==> old(self).readers().contains_key(fh) && bytes@ == window(old(self).readers()[fh].data(), offset as int, size as int),
            old(self).readers().contains_key(fh) && old(self).readers()[fh].reliable() && offset <= old(self).readers()[fh].data().len() ==> r is Ok,
            final(self).readers().dom() == old(self).readers().dom(),
            !old(self).readers().contains_key(fh) ==> final(self).readers() == old(self).readers(),
            forall|h: u64| #[trigger] final(self).readers().contains_key(h) ==> final(self).readers()[h].data() == old(self).readers()[h].data(),
            final(self).node_map() == old(self).node_map(),
            final(self).inode_table() == old(self).inode_table(),
            final(self).listings() == old(self).listings(),
            final(self).next_read() == old(self).next_read(),
            final(self).next_readdir() == old(self).next_readdir(),
            final(self).owner() == old(self).owner(),
    {
        let mut reader = match self.read_handles.remove(&fh) {
            Some(r) => r,
            None => {
                return Err(Error::BadHandle);
            },
        };
        let ghost data = reader.data();
        let result = read_at(&mut reader, offset, size);
        self.read_handles.insert(fh, reader);
        proof {
            assert(self.read_handles@.dom() =~= old(self).read_handles@.dom());
        }
        result
    }

    /// Closes the handle `fh`; closing an unknown handle does nothing.
    pub fn release(&mut self, fh: u64) -> (r: Result<(), Error>)
        requires
            old(self).inv(),
        ensures
            final(self).inv(),
            r is Ok,
            final(self).readers() == old(self).readers().remove(fh),
            final(self).node_map() == old(self).node_map(),
            final(self).inode_table() == old(self).inode_table(),
            final(self).listings() == old(self).listings(),
            final(self).next_read() == old(self).next_read(),
            final(self).next_readdir() == old(self).next_readdir(),
            final(self).owner() == old(self).owner(),
    {
        self.read_handles.remove(&fh);
        Ok(())
    }

    /// Lists the directory `ino`, gives each child its inode, and keeps
    /// the listing under a fresh handle.
    pub fn opendir(&mut self, ino: u64) -> (r: Result<u64, Error>)
        requires
            old(self).inv(),
        ensures
            final(self).inv(),
            !old(self).node_map().contains_key(ino) ==> r == Err::<u64, Error>(Error::NotFound),
            old(self).node_map().contains_key(ino) && !(old(self).node_map()[ino] is Directory)
                ==> r == Err::<u64, Error>(Error::NotSupported),
            r matches Ok(fh) ==> {
                &&& fh == old(self).next_readdir()
                &&& !old(self).listings().contains_key(fh)
                &&& final(self).listings().dom() == old(self).listings().dom().insert(fh)
                &&& final(self).next_readdir() == fh + 1
                &&& forall|k: int| 0 <= k < final(self).listings()[fh]@.len() ==> {
                    let e = #[trigger] final(self).listings()[fh]@[k];
                    &&& assigned(final(self).inode_table(), ino, e.name@, e.ino)
                    &&& agrees(old(self).inode_table(), ino, e.name@, e.ino)
                    &&& final(self).node_map().contains_key(e.ino)
                    &&& e.offset == k + 1
                }
                &&& final(self).node_map()[ino] matches Node::Directory(d) && final(self).listings()[fh]@.map_values(
                    |e: DirEntry| (e.name@, e.kind),
                ) == d.kept()
            },
            r is Err ==> final(self).listings() == old(self).listings() && final(self).next_readdir() == old(self).next_readdir(),
            forall|h: u64| #[trigger] old(self).listings().contains_key(h) ==> final(self).listings()[h] == old(self).listings()[h],
            table_grows(old(self).inode_table(), final(self).inode_table()),
            forall|i: u64| #[trigger] old(self).node_map().contains_key(i) ==> final(self).node_map().contains_key(i),
            final(self).readers() == old(self).readers(),
            final(self).next_read() == old(self).next_read(),
            final(self).owner() == old(self).owner(),
    {
        let mut node = match self.nodes.remove(&ino) {
            Some(n) => n,
            None => {
                return Err(Error::NotFound);
            },
        };
        let listed = match &mut node {
            Node::Directory(d) => d.files(),
            _ => Err(Error::NotSupported),
        };
        let ghost kind = node.kind();
        let ghost dir_node = node;
        proof {
            if listed is Ok {
                assert(dir_node is Directory);
            }
        }
        self.nodes.insert(ino, node);
        proof {
            assert forall|i: u64| #[trigger] old(self).node_map().contains_key(i) implies self.nodes@.contains_key(i) by {}
            assert(self.nodes@[INO_ROOT] is Directory) by {
                if ino == INO_ROOT {
                    assert(self.nodes@[INO_ROOT].kind() == kind);
                }
            }
        }
        let mut children = listed?;
        let ghost all = children@;
        let ghost t0 = self.inodes@;
        let mut entries: Vec<DirEntry> = Vec::new();
        let mut k: usize = 0;
        while children.len() > 0
            invariant
                self.inv(),
                old(self).node_map().contains_key(ino),
                old(self).node_map()[ino] is Directory,
                old(self).inode_table() == t0,
                table_grows(t0, self.inodes@),
                forall|i: u64| #[trigger] old(self).node_map().contains_key(i) ==> self.nodes@.contains_key(i),
                self.readdir_handles@ == old(self).readdir_handles@,
                self.next_readdir_handle == old(self).next_readdir_handle,
                self.read_handles@ == old(self).read_handles@,
                self.next_read_handle == old(self).next_read_handle,
                self.uid == old(self).uid,
                self.gid == old(self).gid,
                entries@.len() == k,
                k <= all.len(),
                children@ == all.subrange(k as int, all.len() as int),
                self.nodes@.contains_key(ino),
                self.nodes@[ino] == dir_node,
                forall|j: int| 0 <= j < k ==> (#[trigger] entries@[j]).name@ == all[j].0@ && entries@[j].kind == all[j].1.kind(),
                forall|j: int| 0 <= j < k ==> {
                    let e = #[trigger] entries@[j];
                    &&& assigned(self.inodes@, ino, e.name@, e.ino)
                    &&& agrees(t0, ino, e.name@, e.ino)
                    &&& self.nodes@.contains_key(e.ino)
                    &&& e.offset == j + 1
                },
            decreases children@.len(),
        {
            let (name, child) = children.remove(0);
            proof {
                assert(all[k as int].0 == name && all[k as int].1 == child);
                assert(children@ =~= all.subrange(k + 1, all.len() as int));
            }
            if k as u64 >= i64::MAX as u64 {
                return Err(Error::Io(String::new()));
            }
            let ghost t1 = self.inodes@;
            let child_ino = self.inode_for_child(ino, &name)?;
            let kind = child.node_kind();
            if !self.nodes.contains_key(&child_ino) {
                self.nodes.insert(child_ino, child);
            }
            proof {
                assert forall|i: u64| #[trigger] self.nodes@.contains_key(i) implies handed_out(self.inodes@, i) by {
                    if i == child_ino {
                        let j = choose|j: int| 0 <= j < self.inodes@.len() && #[trigger] self.inodes@[j].0 == ino && self.inodes@[j].1@ == name@ && self.inodes@[j].2 == child_ino;
                        assert(self.inodes@[j].2 == child_ino);
                    }
                }
                assert forall|p: u64, n: Seq<char>, i: u64| #[trigger] assigned(t0, p, n, i) implies assigned(self.inodes@, p, n, i) by {
                    assert(assigned(t1, p, n, i));
                }
                assert forall|j: int| 0 <= j < k implies assigned(self.inodes@, ino, (#[trigger] entries@[j]).name@, entries@[j].ino) by {
                    let e = entries@[j];
                    assert(assigned(t1, ino, e.name@, e.ino));
                }
                assert forall|i: u64| #[trigger] assigned(t0, ino, name@, i) implies child_ino == i by {
                    assert(assigned(t1, ino, name@, i));
                }
            }
            let ghost before = entries@;
            let entry = DirEntry { ino: child_ino, offset: (k as u64 + 1) as i64, kind, name };
            let ghost e = entry;
            entries.push(entry);
            proof {
                assert(entries@ == before.push(e));
                assert forall|j: int| 0 <= j < k + 1 implies (#[trigger] entries@[j]).name@ == all[j].0@ && entries@[j].kind == all[j].1.kind() by {
                    if j < k {
                        assert(entries@[j] == before[j]);
                    }
                }
                assert forall|j: int| 0 <= j < k + 1 implies {
                    let e = #[trigger] entries@[j];
                    &&& assigned(self.inodes@, ino, e.name@, e.ino)
                    &&& agrees(t0, ino, e.name@, e.ino)
                    &&& self.nodes@.contains_key(e.ino)
                    &&& e.offset == j + 1
                } by {
                    if j < k {
                        assert(entries@[j] == before[j]);
                    }
                }
            }
            k = entries.len();
        }
        proof {
            assert(entries@.map_values(|e: DirEntry| (e.name@, e.kind)) =~= all.map_values(
                |e: (String, Node<F, DirCache<F, D, S>, S>)| (e.0@, e.1.kind()),
            ));
        }
        if self.next_readdir_handle == u64::MAX {
            return Err(Error::Io(String::new()));
        }
        let fh = self.next_readdir_handle;
        self.next_readdir_handle = fh + 1;
        self.readdir_handles.insert(fh, entries);
        proof {
            assert(self.readdir_handles@.dom() =~= old(self).readdir_handles@.dom().insert(fh));
        }
        Ok(fh)
    }

    /// The entries of the listing kept under `fh`, from position `offset` on.
    pub fn readdir(&self, fh: u64, offset: i64) -> (r: Result<Vec<DirEntry>, Error>)
        requires
            self.inv(),
        ensures
            !self.listings().contains_key(fh) ==> r == Err::<Vec<DirEntry>, Error>(Error::BadHandle),
            self.listings().contains_key(fh) ==> r is Ok,
            r matches Ok(v) ==> {
                let all = self.listings()[fh]@;
                &&& offset < 0 || offset >= all.len() ==> v@.len() == 0
                &&& 0 <= offset < all.len() ==> v@ == all.subrange(offset as int, all.len() as int)
                &&& forall|j: int| 0 <= j < v@.len() ==> (#[trigger] v@[j]).offset == offset + j + 1
            },
    {
        let entries = match self.readdir_handles.get(&fh) {
            Some(e) => e,
            None => {
                return Err(Error::BadHandle);
            },
        };
        let mut out: Vec<DirEntry> = Vec::new();
        if offset < 0 || offset as u64 >= entries.len() as u64 {
            return Ok(out);
        }
        let start = offset as usize;
        let mut k: usize = start;
        while k < entries.len()
            invariant
                start <= k <= entries@.len(),
                out@ == entries@.subrange(start as int, k as int),
            decreases entries@.len() - k,
        {
            let e = &entries[k];
            out.push(DirEntry { ino: e.ino, offset: e.offset, kind: e.kind, name: e.name.clone() });
            proof {
                assert(out@ =~= entries@.subrange(start as int, k + 1));
            }
            k = k + 1;
        }
        Ok(out)
    }

    /// Drops the listing kept under `fh`.
    pub fn releasedir(&mut self, fh: u64) -> (r: Result<(), Error>)
        requires
            old(self).inv(),
        ensures
            final(self).inv(),
            r is Ok,
            final(self).listings() == old(self).listings().remove(fh),
            final(self).readers() == old(self).readers(),
            final(self).node_map() == old(self).node_map(),
            final(self).inode_table() == old(self).inode_table(),
            final(self).next_read() == old(self).next_read(),
            final(self).next_readdir() == old(self).next_readdir(),
            final(self).owner() == old(self).owner(),
    {
        self.readdir_handles.remove(&fh);
        Ok(())
    }

    /// Access is always granted: the permission bits are advisory.
    pub fn access(&self, ino: u64, mask: u32) -> (r: Result<(), Error>)
        ensures
            r is Ok,
    {
        Ok(())
    }
}

/// The bytes of `data` from `offset` on, at most `size` of them.
pub open spec fn window(data: Seq<u8>, offset: int, size: int) -> Seq<u8> {
    if offset >= data.len() {
        Seq::empty()
    } else if offset + size >= data.len() {
        data.subrange(offset, data.len() as int)
    } else {
        data.subrange(offset, offset + size)
    }
}

/// Reads up to `size` bytes at `offset`, going on while the reader makes
/// progress and the buffer is not full.
pub fn read_at<R: ReadSeek>(reader: &mut R, offset: u64, size: u32) -> (r: Result<Vec<u8>, Error>)
    requires
        wf(old(reader)),
    ensures
        wf(final(reader)),
        final(reader).data() == old(reader).data(),
        final(reader).reliable() == old(reader).reliable(),
        old(reader).reliable() && offset <= old(reader).data().len() ==> r is Ok,
        r matches Ok(bytes) ==> bytes@ == window(old(reader).data(), offset as int, size as int),
{
    let ghost data = reader.data();
    reader.seek(SeekFrom::Start(offset))?;
    let room = size as usize;
    let mut buf: Vec<u8> = vec![0u8; room];
    let mut total: usize = 0;
    loop
        invariant
            wf(reader),
            reader.data() == data,
            data == old(reader).data(),
            reader.reliable() == old(reader).reliable(),
            buf@.len() == room,
            room == size,
            total <= room,
            reader.pos() == offset + total,
            total > 0 ==> offset + total <= data.len(),
            forall|j: int| 0 <= j < total ==> buf@[j] == data[offset + j],
        ensures
            wf(reader),
            reader.data() == data,
            reader.reliable() == old(reader).reliable(),
            buf@.len() == room,
            total <= room,
            total > 0 ==> offset + total <= data.len(),
            forall|j: int| 0 <= j < total ==> buf@[j] == data[offset + j],
            total == room || offset + total >= data.len(),
        decreases room - total,
    {
        if total == room {
            break;
        }
        let ghost before = buf@;
        let ghost pos = reader.pos();
        let n = {
            let (head, rest) = buf.as_mut_slice().split_at_mut(total);
            let n = reader.read(rest)?;
            proof {
                assert forall|j: int| 0 <= j < total + n implies #[trigger] buf@[j] == data[offset + j] by {
                    if j >= total {
                        assert(buf@[j] == rest@[j - total]);
                    } else {
                        assert(buf@[j] == head@[j]);
                        assert(head@[j] == before[j]);
                    }
                }
            }
            n
        };
        if n == 0 {
            break;
        }
        total = total + n;
    }
    buf.truncate(total);
    proof {
        if offset >= data.len() {
            assert(total == 0);
        }
        assert(buf@ =~= window(data, offset as int, size as int));
    }
    Ok(buf)
}

/// The attributes of `node`, reported under `ino` as owned by `uid`/`gid`.
pub fn attrs_for_node<F: File, D: Meta, S: Meta>(node: &Node<F, D, S>, ino: u64, uid: u32, gid: u32) -> (r: Result<Attr, Error>)
    ensures
        r matches Ok(a) ==> exists|meta: Metadata, size: u64|
            a == #[trigger] attr_of(ino, node.kind(), meta, size, uid, gid) && (!(node is File) ==> size == 0),
{
    let meta = node.metadata()?;
    let size = match node {
        Node::File(f) => f.size()?,
        _ => 0,
    };
    Ok(make_attr(ino, node.node_kind(), meta, size, uid, gid))
}

/// The attributes of a node of kind `kind` whose metadata is `meta` and
/// whose size is `size`, reported under `ino` as owned by `uid`/`gid`.
pub open spec fn attr_of(ino: u64, kind: NodeKind, meta: Metadata, size: u64, uid: u32, gid: u32) -> Attr {
    Attr {
        ino,
        size,
        blocks: size / BLOCK_SIZE,
        atime: meta.mtime,
        mtime: meta.mtime,
        ctime: meta.ctime,
        crtime: meta.ctime,
        kind,
        perm: meta.perm,
        nlink: 1,
        uid,
        gid,
        rdev: 0,
        flags: 0,
    }
}

/// The attributes of a node, from its metadata and size.
pub fn make_attr(ino: u64, kind: NodeKind, meta: Metadata, size: u64, uid: u32, gid: u32) -> (r: Attr)
    ensures
        r == attr_of(ino, kind, meta, size, uid, gid),
{
    Attr {
        ino,
        size,
        blocks: size / BLOCK_SIZE,
        atime: meta.mtime,
        mtime: meta.mtime,
        ctime: meta.ctime,
        crtime: meta.ctime,
        kind,
        perm: meta.perm,
        nlink: 1,
        uid,
        gid,
        rdev: 0,
        flags: 0,
    }
}

} // verus!
