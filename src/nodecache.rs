use vstd::prelude::*;
use crate::error::Error;
use crate::node::{Directory, File, Meta, Metadata, Node, NodeKind, NodeType, Symlink};

verus! {

/// Whether some entry of `entries` is called `name`.
pub open spec fn lists<T>(entries: Seq<(String, T)>, name: Seq<char>) -> bool {
    exists|i: int| 0 <= i < entries.len() && #[trigger] entries[i].0@ == name
}

/// Whether some entry of `entries` is called `name` and is of kind `k`.
pub open spec fn lists_kind<F, D, S>(entries: Seq<(String, Node<F, D, S>)>, name: Seq<char>, k: NodeKind) -> bool {
    exists|i: int| 0 <= i < entries.len() && #[trigger] entries[i].0@ == name && entries[i].1.kind() == k
}

/// Whether `names` holds `name`.
pub open spec fn holds(names: Seq<String>, name: Seq<char>) -> bool {
    exists|i: int| 0 <= i < names.len() && #[trigger] names[i]@ == name
}

proof fn lemma_lists_push<T>(entries: Seq<(String, T)>, x: (String, T), name: Seq<char>)
    ensures
        lists(entries, name) ==> lists(entries.push(x), name),
        x.0@ == name ==> lists(entries.push(x), name),
{
    if lists(entries, name) {
        let i = choose|i: int| 0 <= i < entries.len() && #[trigger] entries[i].0@ == name;
        assert(entries.push(x)[i].0@ == name);
    }
    assert(entries.push(x)[entries.len() as int] == x);
}

proof fn lemma_holds_push(names: Seq<String>, x: String, name: Seq<char>)
    ensures
        holds(names, name) ==> holds(names.push(x), name),
        x@ == name ==> holds(names.push(x), name),
{
    if holds(names, name) {
        let i = choose|i: int| 0 <= i < names.len() && #[trigger] names[i]@ == name;
        assert(names.push(x)[i]@ == name);
    }
    assert(names.push(x)[names.len() as int] == x);
}

/// The position of the entry called `name`, where there is one.
fn position<T>(entries: &Vec<(String, T)>, name: &String) -> (r: Option<usize>)
    ensures
        r matches Some(i) ==> i < entries@.len() && entries@[i as int].0@ == name@,
        r is None <==> !lists(entries@, name@),
{
    let mut i: usize = 0;
    while i < entries.len()
        invariant
            i <= entries@.len(),
            forall|j: int| 0 <= j < i ==> entries@[j].0@ != name@,
        decreases entries@.len() - i,
    {
        if entries[i].0 == *name {
            return Some(i);
        }
        i = i + 1;
    }
    None
}

/// Whether `names` holds `name`.
fn contains(names: &Vec<String>, name: &String) -> (r: bool)
    ensures
        r == holds(names@, name@),
{
    let mut i: usize = 0;
    while i < names.len()
        invariant
            i <= names@.len(),
            forall|j: int| 0 <= j < i ==> names@[j]@ != name@,
        decreases names@.len() - i,
    {
        if names[i] == *name {
            return true;
        }
        i = i + 1;
    }
    false
}

/// A directory that remembers what another one answered.
///
/// The listing is asked for once and kept. A lookup by name is answered from
/// what is known: a name found before, a name in the kept listing, or a name
/// known to be absent. Only other names go to the inner directory; the answer
/// is kept when it is a node or "not found", and not when it is any other
/// error, which may be transient. Nothing kept is ever dropped: the tree is
/// read-only and staleness is accepted.
pub struct DirCache<F, D, S> {
    inner: D,
    listing: Option<Vec<(String, Node<F, D, S>)>>,
    found: Vec<(String, Node<F, D, S>)>,
    absent: Vec<String>,
    queries: Ghost<nat>,
}

/// The node as the cache hands it out: a directory comes wrapped in a cache
/// of its own.
pub fn map_node<F, D, S>(node: Node<F, D, S>) -> (r: Node<F, DirCache<F, D, S>, S>)
    ensures
        r.kind() == node.kind(),
        r matches Node::Directory(c) ==> c.fresh(),
{
    match node {
        Node::File(f) => Node::File(f),
        Node::Directory(d) => Node::Directory(DirCache::new(d)),
        Node::Symlink(s) => Node::Symlink(s),
    }
}

impl<F, D, S> DirCache<F, D, S> {
    pub fn new(inner: D) -> (r: DirCache<F, D, S>)
        ensures
            r.fresh(),
    {
        DirCache { inner, listing: None, found: Vec::new(), absent: Vec::new(), queries: Ghost(0) }
    }

    /// Nothing has been asked of the inner directory yet.
    pub closed spec fn fresh(&self) -> bool {
        &&& self.listing is None
        &&& self.found@.len() == 0
        &&& self.absent@.len() == 0
        &&& self.queries@ == 0
    }

    /// How many times the inner directory has been asked.
    pub closed spec fn queries(&self) -> nat {
        self.queries@
    }

    /// The listing has been asked for and kept.
    pub closed spec fn listed(&self) -> bool {
        self.listing is Some
    }

    /// The names and kinds of the kept listing, in order.
    pub closed spec fn kept(&self) -> Seq<(Seq<char>, NodeKind)> {
        match self.listing {
            Some(l) => l@.map_values(|e: (String, Node<F, D, S>)| (e.0@, e.1.kind())),
            None => Seq::empty(),
        }
    }

    /// A node of kind `k` called `name` is known.
    pub closed spec fn has_kind(&self, name: Seq<char>, k: NodeKind) -> bool {
        lists_kind(self.found@, name, k) || (self.listing matches Some(l) && lists_kind(l@, name, k))
    }

    /// How the spec functions of the cache relate.
    pub proof fn lemma_known(&self, name: Seq<char>, k: NodeKind)
        ensures
            self.known(name) == (self.known_absent(name) || self.known_present(name)),
            self.has_kind(name, k) ==> self.known_present(name),
            self.fresh() ==> !self.known(name) && !self.listed() && self.queries() == 0,
    {
    }

    /// `name` is known to be absent.
    pub closed spec fn known_absent(&self, name: Seq<char>) -> bool {
        holds(self.absent@, name)
    }

    /// A node called `name` is known.
    pub closed spec fn known_present(&self, name: Seq<char>) -> bool {
        lists(self.found@, name) || (self.listing matches Some(l) && lists(l@, name))
    }

    /// Whether the inner directory has been asked about `name`, or listed.
    pub closed spec fn known(&self, name: Seq<char>) -> bool {
        self.known_absent(name) || self.known_present(name)
    }
}

/// Copies of `entries`, directories wrapped in caches of their own.
fn map_entries<F: Clone, D: Clone, S: Clone>(entries: &Vec<(String, Node<F, D, S>)>) -> (r: Vec<
    (String, Node<F, DirCache<F, D, S>, S>),
>)
    ensures
        r@.len() == entries@.len(),
        forall|i: int| 0 <= i < r@.len() ==> (#[trigger] r@[i]).0@ == entries@[i].0@ && r@[i].1.kind() == entries@[i].1.kind(),
{
    let mut out: Vec<(String, Node<F, DirCache<F, D, S>, S>)> = Vec::new();
    let mut i: usize = 0;
    while i < entries.len()
        invariant
            i <= entries@.len(),
            out@.len() == i,
            forall|j: int| 0 <= j < i ==> (#[trigger] out@[j]).0@ == entries@[j].0@ && out@[j].1.kind() == entries@[j].1.kind(),
        decreases entries@.len() - i,
    {
        let name = entries[i].0.clone();
        let node = map_node(entries[i].1.clone());
        out.push((name, node));
        i = i + 1;
    }
    out
}

impl<F, D: Meta, S> Meta for DirCache<F, D, S> {
    fn metadata(&self) -> Result<Metadata, Error> {
        self.inner.metadata()
    }
}

impl<F: File + Clone, D: Directory<F, D, S> + Clone, S: Symlink + Clone> DirCache<F, D, S> {
    /// The listing of the directory; the inner directory is asked only the
    /// first time.
    pub fn files(&mut self) -> (r: Result<Vec<(String, Node<F, DirCache<F, D, S>, S>)>, Error>)
        ensures
            old(self).listed() ==> r is Ok && final(self).queries() == old(self).queries(),
            !old(self).listed() ==> final(self).queries() == old(self).queries() + 1,
            old(self).listed() ==> final(self).kept() == old(self).kept(),
            r is Ok ==> final(self).listed(),
            r matches Ok(v) ==> v@.map_values(|e: (String, Node<F, DirCache<F, D, S>, S>)| (e.0@, e.1.kind())) == final(self).kept(),
            forall|name: Seq<char>| #[trigger] old(self).known(name) ==> final(self).known(name),
    {
        if let Some(listing) = &self.listing {
            let out = map_entries(listing);
            proof {
                assert(out@.map_values(|e: (String, Node<F, DirCache<F, D, S>, S>)| (e.0@, e.1.kind())) =~= self.kept());
            }
            return Ok(out);
        }
        self.queries = Ghost(self.queries@ + 1);
        let listing = self.inner.files()?;
        let out = map_entries(&listing);
        self.listing = Some(listing);
        proof {
            assert(out@.map_values(|e: (String, Node<F, DirCache<F, D, S>, S>)| (e.0@, e.1.kind())) =~= self.kept());
        }
        Ok(out)
    }

    /// The node called `name`, asking the inner directory only about names
    /// that are not known yet. A name known to be absent is "not found"; a
    /// name known to be present comes back as a node of the kind it was
    /// found with.
    pub fn file_by_name(&mut self, name: &str) -> (r: Result<Node<F, DirCache<F, D, S>, S>, Error>)
        ensures
            old(self).known(name@) ==> final(self).queries() == old(self).queries(),
            !old(self).known(name@) ==> final(self).queries() == old(self).queries() + 1,
            old(self).known_absent(name@) ==> r == Err::<Node<F, DirCache<F, D, S>, S>, Error>(Error::NotFound),
            old(self).known_present(name@) && !old(self).known_absent(name@) ==> (r matches Ok(n) && old(self).has_kind(name@, n.kind())),
            r matches Ok(n) ==> final(self).has_kind(name@, n.kind()),
            r is Ok ==> final(self).known_present(name@),
            r matches Err(e) && e is NotFound ==> final(self).known_absent(name@),
            (r matches Err(e) && !(e is NotFound)) ==> forall|n: Seq<char>| #[trigger] final(self).known(n) == old(self).known(n),
            forall|n: Seq<char>| #[trigger] old(self).known(n) ==> final(self).known(n),
            forall|n: Seq<char>, k: NodeKind| #[trigger] old(self).has_kind(n, k) ==> final(self).has_kind(n, k),
    {
        let key = name.to_owned();
        if contains(&self.absent, &key) {
            return Err(Error::NotFound);
        }
        if let Some(i) = position(&self.found, &key) {
            let out = map_node(self.found[i].1.clone());
            proof {
                assert(self.found@[i as int].0@ == name@);
            }
            return Ok(out);
        }
        if let Some(listing) = &self.listing {
            if let Some(i) = position(listing, &key) {
                let out = map_node(listing[i].1.clone());
                proof {
                    assert(listing@[i as int].0@ == name@);
                }
                return Ok(out);
            }
        }
        self.queries = Ghost(self.queries@ + 1);
        proof {
            assert forall|n: Seq<char>| #[trigger] old(self).known(n) implies self.known(n) by {}
            assert forall|n: Seq<char>, k: NodeKind| #[trigger] old(self).has_kind(n, k) implies self.has_kind(n, k) by {}
            assert forall|n: Seq<char>| #[trigger] self.known(n) implies old(self).known(n) by {}
        }
        let answer = self.inner.file_by_name(name);
        self.remember(key, answer)
    }

    /// Keeps what the inner directory answered about `key` and hands it on:
    /// a node is remembered and comes back (a directory wrapped in a cache of
    /// its own); "not found" is remembered as an absent name; any other error
    /// is returned as it is and nothing is remembered.
    pub fn remember(&mut self, key: String, answer: Result<Node<F, D, S>, Error>) -> (r: Result<Node<F, DirCache<F, D, S>, S>, Error>)
        ensures
            final(self).queries() == old(self).queries(),
            final(self).listed() == old(self).listed(),
            answer matches Ok(n) ==> (r matches Ok(m) && m.kind() == n.kind() && final(self).has_kind(key@, n.kind())),
            answer matches Err(e) ==> r == Err::<Node<F, DirCache<F, D, S>, S>, Error>(e),
            answer matches Ok(_) ==> final(self).known_present(key@),
            answer matches Err(e) && e is NotFound ==> final(self).known_absent(key@),
            (answer matches Err(e) && !(e is NotFound)) ==> forall|n: Seq<char>| #[trigger] final(self).known(n) == old(self).known(n),
            forall|n: Seq<char>| #[trigger] old(self).known(n) ==> final(self).known(n),
            forall|n: Seq<char>, k: NodeKind| #[trigger] old(self).has_kind(n, k) ==> final(self).has_kind(n, k),
            forall|n: Seq<char>| #[trigger] final(self).known_absent(n) ==> old(self).known_absent(n) || n == key@,
    {
        match answer {
            Ok(node) => {
                let out = map_node(node.clone());
                let ghost before = self.found@;
                let ghost entry = (key, node);
                self.found.push((key, node));
                proof {
                    assert forall|n: Seq<char>| #[trigger] old(self).known(n) implies self.known(n) by {
                        lemma_lists_push(before, entry, n);
                    }
                    lemma_lists_push(before, entry, key@);
                    assert(self.found@[before.len() as int] == entry);
                    assert forall|n: Seq<char>, k: NodeKind| #[trigger] old(self).has_kind(n, k) implies self.has_kind(n, k) by {
                        if lists_kind(before, n, k) {
                            let i = choose|i: int| 0 <= i < before.len() && #[trigger] before[i].0@ == n && before[i].1.kind() == k;
                            assert(self.found@[i] == before[i]);
                        }
                    }
                }
                Ok(out)
            },
            Err(e) => {
                if e.is_not_found() {
                    let ghost before = self.absent@;
                    let ghost k = key;
                    self.absent.push(key);
                    proof {
                        assert forall|n: Seq<char>| #[trigger] old(self).known(n) implies self.known(n) by {
                            lemma_holds_push(before, k, n);
                        }
                        lemma_holds_push(before, k, key@);
                        assert forall|n: Seq<char>| #[trigger] self.known_absent(n) implies old(self).known_absent(n) || n == key@ by {
                            let i = choose|i: int| 0 <= i < self.absent@.len() && #[trigger] self.absent@[i]@ == n;
                            if i < before.len() {
                                assert(self.absent@[i] == before[i]);
                            }
                        }
                    }
                }
                Err(e)
            },
        }
    }
}

/// A tree whose directories all remember what they answered.
pub struct CacheRoot<N: NodeType> {
    root: DirCache<N::File, N::Directory, N::Symlink>,
}

impl<N: NodeType> CacheRoot<N> {
    pub fn new(inner: &N) -> (r: CacheRoot<N>)
        ensures
            r.root_dir().fresh(),
    {
        CacheRoot { root: DirCache::new(inner.root()) }
    }

    /// The root directory, to be owned by the filesystem.
    pub fn root(self) -> (r: DirCache<N::File, N::Directory, N::Symlink>)
        ensures
            r == self.root_dir(),
    {
        self.root
    }

    pub closed spec fn root_dir(&self) -> DirCache<N::File, N::Directory, N::Symlink> {
        self.root
    }
}

} // verus!
