use vstd::prelude::*;
use std::rc::Rc;
use vstd::string::{StringExecFns, StringSliceAdditionalSpecFns};
use vstd::utf8::is_char_boundary;
use crate::concat::{datas, flatten, Concat};
use crate::cursor::Cursor;
use crate::error::Error;
use crate::fit::{fitted, FitOpener};
use crate::lazyopen::{LazyOpen, Opener};
use crate::mp3::{cbr_header, cbr_header_spec, zero_frame_spec, zero_frames, MEAN_FRAME_SIZE};
use crate::node::{Directory, File, Meta, Metadata, Node, NodeType, Symlink, Timestamp};
use crate::pattern::{repeated, Pattern};
use crate::readseek::{wf, ReadSeek, SeekFrom};
use crate::skip::{skipped, SkipOpener};

verus! {

/// Frames of silence between the synthesized header and the audio.
pub const PADDING_START: u64 = 500;

/// Frames of silence after the audio, for players that look for a trailing
/// tag there.
pub const PADDING_END: u64 = 20;

/// Bytes of audio per millisecond at the assumed bitrate of 128 kbit/s.
pub const AUDIO_BYTES_PER_MS: u64 = 16;

/// Permission bits of directories and links.
pub const PERM_DIR: u16 = 0o555;

/// Permission bits of files.
pub const PERM_FILE: u16 = 0o444;

/// Options of the catalog client.
#[derive(Clone, Copy, Debug, PartialEq, Eq)]
pub struct Config {
    pub id3_download_images: bool,
}

/// The user a track belongs to, as a track describes it.
#[derive(Clone, Debug, PartialEq, Eq)]
pub struct TrackUser {
    pub id: i64,
    pub permalink: String,
    pub username: String,
    pub last_modified: String,
    pub uri: String,
    pub permalink_url: String,
    pub avatar_url: String,
}

/// What the tree needs to know of a user.
#[derive(Clone, Debug, PartialEq, Eq)]
pub struct UserInfo {
    pub permalink: String,
    pub last_modified: Timestamp,
}

/// What the tree needs to know of a track.
#[derive(Clone, Debug, PartialEq, Eq)]
pub struct TrackInfo {
    pub permalink: String,
    pub user_permalink: String,
    pub duration_ms: i64,
    pub last_modified: Timestamp,
}

/// The remote catalog the tree is built from: users, their tracks, the tag
/// that describes a track, and a way to open a track's audio.
pub trait Catalog: Clone {
    type User: Clone;
    type Track: Clone;
    type Audio: Opener;

    /// The current time.
    fn now(&self) -> Timestamp;

    fn user_by_name(&self, name: &str) -> Result<Self::User, Error>;

    fn user_info(&self, user: &Self::User) -> UserInfo;

    fn tracks(&self, user: &Self::User) -> Result<Vec<Self::Track>, Error>;

    fn favorites(&self, user: &Self::User) -> Result<Vec<Self::Track>, Error>;

    fn following(&self, user: &Self::User) -> Result<Vec<Self::User>, Error>;

    fn track_info(&self, track: &Self::Track) -> TrackInfo;

    /// The encoded tag that opens the track's file.
    fn id3_tag(&self, track: &Self::Track) -> Result<Vec<u8>, Error>;

    /// The track's audio, not opened yet.
    fn audio(&self, track: &Self::Track) -> Self::Audio;
}

/// The nominal size of `duration_ms` of audio; none for a negative
/// duration, and the largest size where it would not fit.
pub open spec fn audio_size_spec(duration_ms: int) -> int {
    if duration_ms <= 0 {
        0
    } else if duration_ms * AUDIO_BYTES_PER_MS > u64::MAX {
        u64::MAX as int
    } else {
        duration_ms * AUDIO_BYTES_PER_MS
    }
}

/// The nominal size of `duration_ms` of audio.
pub fn audio_size(duration_ms: i64) -> (r: u64)
    ensures
        r == audio_size_spec(duration_ms as int),
{
    if duration_ms <= 0 {
        0
    } else if duration_ms as u64 > u64::MAX / AUDIO_BYTES_PER_MS {
        u64::MAX
    } else {
        duration_ms as u64 * AUDIO_BYTES_PER_MS
    }
}

/// The length of the audio body in the file: with padding, the first frame
/// of the audio is left out, as the synthesized header takes its place.
pub open spec fn body_len(audio: int, padding: bool) -> int {
    if !padding {
        audio
    } else if audio >= MEAN_FRAME_SIZE {
        audio - MEAN_FRAME_SIZE
    } else {
        0
    }
}

/// The bytes of the padding between the header and the audio.
pub open spec fn padding_start_spec() -> Seq<u8> {
    repeated(zero_frame_spec(), (PADDING_START * MEAN_FRAME_SIZE) as nat)
}

/// The bytes of the padding after the audio.
pub open spec fn padding_end_spec() -> Seq<u8> {
    repeated(zero_frame_spec(), (PADDING_END * MEAN_FRAME_SIZE) as nat)
}

/// The declared length of the audio stream behind the header.
pub open spec fn mp3_total(audio: int) -> int {
    audio + (PADDING_START + PADDING_END) * MEAN_FRAME_SIZE
}

/// The parts of a track's file: the tag and the audio body; with padding,
/// also a synthesized header and silence before and after the body.
pub open spec fn track_parts(tag: Seq<u8>, audio: Seq<u8>, audio_len: int, padding: bool) -> Seq<Seq<u8>> {
    if padding {
        seq![
            tag,
            cbr_header_spec(mp3_total(audio_len) as u64),
            padding_start_spec(),
            fitted(skipped(audio, MEAN_FRAME_SIZE as int), body_len(audio_len, true) as nat),
            padding_end_spec(),
        ]
    } else {
        seq![tag, fitted(skipped(audio, 0), audio_len as nat)]
    }
}

/// The size of a track's file, from the length of its tag and the nominal
/// size of its audio.
pub open spec fn track_size_spec(tag_len: int, audio_len: int, padding: bool) -> int {
    if padding {
        tag_len + MEAN_FRAME_SIZE + (PADDING_START + PADDING_END) * MEAN_FRAME_SIZE + body_len(audio_len, true)
    } else {
        tag_len + audio_len
    }
}

/// The size of a track's file; `None` where it does not fit in 64 bits.
pub fn track_size(tag_len: u64, audio_len: u64, padding: bool) -> (r: Option<u64>)
    ensures
        r matches Some(n) ==> n == track_size_spec(tag_len as int, audio_len as int, padding),
        r is None <==> track_size_spec(tag_len as int, audio_len as int, padding) > u64::MAX,
{
    if padding {
        let body = if audio_len >= MEAN_FRAME_SIZE { audio_len - MEAN_FRAME_SIZE } else { 0 };
        let fixed: u64 = MEAN_FRAME_SIZE + (PADDING_START + PADDING_END) * MEAN_FRAME_SIZE;
        if tag_len > u64::MAX - fixed || body > u64::MAX - fixed - tag_len {
            None
        } else {
            Some(tag_len + fixed + body)
        }
    } else {
        if tag_len > u64::MAX - audio_len {
            None
        } else {
            Some(tag_len + audio_len)
        }
    }
}

/// One part of a track's file.
pub enum Part<O: Opener> {
    Bytes(Cursor),
    Padding(Pattern),
    Audio(LazyOpen<FitOpener<SkipOpener<O>>>),
}

impl<O: Opener> ReadSeek for Part<O> {
    closed spec fn data(&self) -> Seq<u8> {
        match self {
            Part::Bytes(c) => c.data(),
            Part::Padding(p) => p.data(),
            Part::Audio(a) => a.data(),
        }
    }

    closed spec fn pos(&self) -> int {
        match self {
            Part::Bytes(c) => c.pos(),
            Part::Padding(p) => p.pos(),
            Part::Audio(a) => a.pos(),
        }
    }

    closed spec fn inv(&self) -> bool {
        match self {
            Part::Bytes(c) => wf(c),
            Part::Padding(p) => wf(p),
            Part::Audio(a) => wf(a),
        }
    }

    closed spec fn reliable(&self) -> bool {
        match self {
            Part::Bytes(c) => c.reliable(),
            Part::Padding(p) => p.reliable(),
            Part::Audio(a) => a.reliable(),
        }
    }

    closed spec fn lenient(&self) -> bool {
        match self {
            Part::Bytes(c) => c.lenient(),
            Part::Padding(p) => p.lenient(),
            Part::Audio(a) => a.lenient(),
        }
    }

    closed spec fn opened(&self) -> bool {
        match self {
            Part::Bytes(c) => c.opened(),
            Part::Padding(p) => p.opened(),
            Part::Audio(a) => a.opened(),
        }
    }

    closed spec fn sized(&self) -> bool {
        match self {
            Part::Bytes(c) => c.sized(),
            Part::Padding(p) => p.sized(),
            Part::Audio(a) => a.sized(),
        }
    }


    fn read(&mut self, buf: &mut [u8]) -> (r: Result<usize, Error>) {
        match self {
            Part::Bytes(c) => c.read(buf),
            Part::Padding(p) => p.read(buf),
            Part::Audio(a) => a.read(buf),
        }
    }

    fn seek(&mut self, pos: SeekFrom) -> (r: Result<u64, Error>) {
        match self {
            Part::Bytes(c) => c.seek(pos),
            Part::Padding(p) => p.seek(pos),
            Part::Audio(a) => a.seek(pos),
        }
    }
}

/// Whether `name` is one that file browsers probe for.
pub fn is_hidden(name: &str) -> (r: bool)
    ensures
        r == hidden_name(name.spec_bytes()),
{
    let b = name.as_bytes();
    let n = b.len();
    if n > 0 && b[0] == 0x2e {
        return true;
    }
    let autorun: [u8; 11] = [0x61, 0x75, 0x74, 0x6f, 0x72, 0x75, 0x6e, 0x2e, 0x69, 0x6e, 0x66];
    let bdmv: [u8; 4] = [0x42, 0x44, 0x4d, 0x56];
    let r = bytes_equal(b, &autorun) || bytes_equal(b, &bdmv);
    proof {
        assert(autorun@ =~= seq![0x61u8, 0x75u8, 0x74u8, 0x6fu8, 0x72u8, 0x75u8, 0x6eu8, 0x2eu8, 0x69u8, 0x6eu8, 0x66u8]);
        assert(bdmv@ =~= seq![0x42u8, 0x44u8, 0x4du8, 0x56u8]);
    }
    r
}

/// Whether `a` and `b` hold the same bytes.
fn bytes_equal(a: &[u8], b: &[u8]) -> (r: bool)
    ensures
        r == (a@ == b@),
{
    if a.len() != b.len() {
        return false;
    }
    let mut i: usize = 0;
    while i < a.len()
        invariant
            a@.len() == b@.len(),
            i <= a@.len(),
            forall|j: int| 0 <= j < i ==> a@[j] == b@[j],
        decreases a@.len() - i,
    {
        if a[i] != b[i] {
            return false;
        }
        i = i + 1;
    }
    assert(a@ =~= b@);
    true
}

/// The file of a track: its tag, and its audio opened only once a read
/// reaches it. With `padding`, a synthesized header and frames of silence
/// come between them, so that programs that only probe the file's metadata
/// fill their buffers without reaching the audio, and silence follows the
/// audio. The audio is cut or padded to its nominal size, so the file keeps
/// the size that was announced for it.
pub fn track_stream<A: Opener>(tag: Vec<u8>, audio: A, audio_len: u64, padding: bool) -> (r: Result<Concat<Part<A>>, Error>)
    ensures
        r is Ok <==> track_size_spec(tag@.len() as int, audio_len as int, padding) <= u64::MAX
            && (padding ==> mp3_total(audio_len as int) <= u32::MAX),
        r matches Ok(c) ==> {
            &&& wf(&c)
            &&& c.pos() == 0
            &&& c.indexed() == 0
            &&& c.parts() == track_parts(tag@, audio.data(), audio_len as int, padding)
            &&& c.data() == flatten(track_parts(tag@, audio.data(), audio_len as int, padding))
            &&& c.data().len() == track_size_spec(tag@.len() as int, audio_len as int, padding)
            &&& !c.opened()
            &&& c.sized()
        },
{
    let tag_len = tag.len();
    let ghost tag_bytes = tag@;
    let ghost audio_data = audio.data();
    match track_size(tag_len as u64, audio_len, padding) {
        Some(_) => {},
        None => {
            return Err(Error::Backend(String::new()));
        },
    }
    let mut files: Vec<Part<A>> = Vec::new();
    if padding {
        if audio_len > u32::MAX as u64 - (PADDING_START + PADDING_END) * MEAN_FRAME_SIZE {
            return Err(Error::Backend(String::new()));
        }
        let total = audio_len + (PADDING_START + PADDING_END) * MEAN_FRAME_SIZE;
        let header = cbr_header(total);
        let body = if audio_len >= MEAN_FRAME_SIZE { audio_len - MEAN_FRAME_SIZE } else { 0 };
        let opener = FitOpener::new(SkipOpener::new(audio, MEAN_FRAME_SIZE), body);
        let lazy = LazyOpen::with_size_hint(body, opener);
        files.push(Part::Bytes(Cursor::new(tag)));
        let hlen = header.len();
        files.push(Part::Bytes(Cursor::new(header)));
        files.push(Part::Padding(zero_frames(PADDING_START)));
        files.push(Part::Audio(lazy));
        files.push(Part::Padding(zero_frames(PADDING_END)));
        proof {
            assert(datas(files@) =~= track_parts(tag_bytes, audio_data, audio_len as int, padding));
            reveal_with_fuel(flatten, 6);
            assert(files@[0].sized() && files@[1].sized() && files@[2].sized() && files@[3].sized() && files@[4].sized());
            assert(!files@[0].opened() && !files@[1].opened() && !files@[2].opened() && !files@[3].opened() && !files@[4].opened());
        }
    } else {
        let opener = FitOpener::new(SkipOpener::new(audio, 0), audio_len);
        let lazy = LazyOpen::with_size_hint(audio_len, opener);
        files.push(Part::Bytes(Cursor::new(tag)));
        files.push(Part::Audio(lazy));
        proof {
            assert(datas(files@) =~= track_parts(tag_bytes, audio_data, audio_len as int, padding));
            reveal_with_fuel(flatten, 3);
            assert(files@[0].sized() && files@[1].sized());
            assert(!files@[0].opened() && !files@[1].opened());
        }
    }
    let r = Concat::new(files);
    proof {
        if r is Ok {
            r->Ok_0.lemma_data();
        }
    }
    r
}

/// Whether `name` is one that file browsers probe for and that never names
/// a user: "autorun.inf", "BDMV", or a name starting with a dot.
pub open spec fn hidden_name(name: Seq<u8>) -> bool {
    ||| name == seq![0x61u8, 0x75u8, 0x74u8, 0x6fu8, 0x72u8, 0x75u8, 0x6eu8, 0x2eu8, 0x69u8, 0x6eu8, 0x66u8]
    ||| name == seq![0x42u8, 0x44u8, 0x4du8, 0x56u8]
    ||| name.len() > 0 && name[0] == 0x2eu8
}

} // verus!

verus! {

/// Whether `name` is the name of a track's file.
pub open spec fn track_named(name: Seq<char>) -> bool {
    exists|p: Seq<char>| name == p + ".mp3"@
}

/// The name of a track's file in its user's directory.
pub fn track_file_name(permalink: &String) -> (r: String)
    ensures
        r@ == permalink@ + ".mp3"@,
{
    let mut s = permalink.clone();
    s.append(".mp3");
    s
}

/// The name of a favorite track's file: its user's and its own permalink.
pub fn favorite_file_name(user_permalink: &String, permalink: &String) -> (r: String)
    ensures
        r@ == user_permalink@ + "_-_"@ + permalink@ + ".mp3"@,
{
    let mut s = user_permalink.clone();
    s.append("_-_");
    s.append(permalink.as_str());
    s.append(".mp3");
    s
}

/// Where a link to a user points: that user's directory at the top.
pub fn user_link_target(permalink: &String) -> (r: String)
    ensures
        r@ == "../../"@ + permalink@,
{
    let mut s = String::from_str("../../");
    s.append(permalink.as_str());
    s
}

/// The state that every node of the tree shares.
pub struct RootState<C: Catalog> {
    pub sc_client: C,
    /// The users listed at the top, whose directories also hold their
    /// favorites and the users they follow.
    pub show: Vec<String>,
    pub mpeg_padding: bool,
    pub id3_download_images: bool,
    pub id3_parse_strings: bool,
}

/// The tree of a catalog: users at the top, their tracks, favorites and
/// followed users below.
pub struct Root<C: Catalog> {
    inner: Rc<RootState<C>>,
}

impl<C: Catalog> Clone for Root<C> {
    fn clone(&self) -> Self {
        Root { inner: Rc::clone(&self.inner) }
    }
}

impl<C: Catalog> Root<C> {
    pub fn new(inner: Rc<RootState<C>>) -> (r: Root<C>)
        ensures
            r.state() == inner,
    {
        Root { inner }
    }

    pub closed spec fn state(&self) -> Rc<RootState<C>> {
        self.inner
    }
}

/// The directories of the tree.
pub enum Dir<C: Catalog> {
    UserList(UserList<C>),
    UserProfile(UserProfile<C>),
    UserFavorites(UserFavorites<C>),
    UserFollowing(UserFollowing<C>),
}

impl<C: Catalog> Clone for Dir<C> {
    fn clone(&self) -> Self {
        match self {
            Dir::UserList(d) => Dir::UserList(d.clone()),
            Dir::UserProfile(d) => Dir::UserProfile(d.clone()),
            Dir::UserFavorites(d) => Dir::UserFavorites(d.clone()),
            Dir::UserFollowing(d) => Dir::UserFollowing(d.clone()),
        }
    }
}

/// The node types of the tree.
pub type CatalogNode<C> = Node<TrackAudio<C>, Dir<C>, UserReference>;

/// The top directory: one directory per user.
pub struct UserList<C: Catalog> {
    inner: Rc<RootState<C>>,
}

impl<C: Catalog> Clone for UserList<C> {
    fn clone(&self) -> Self {
        UserList { inner: Rc::clone(&self.inner) }
    }
}

/// A user's directory: the user's tracks and, for the users listed at the
/// top, the favorites and the followed users.
pub struct UserProfile<C: Catalog> {
    inner: Rc<RootState<C>>,
    user: C::User,
    /// Only users listed at the top get the directories that lead further,
    /// so that the tree does not grow without bound.
    recurse: bool,
}

impl<C: Catalog> UserProfile<C> {
    /// Whether the directory holds the favorites and the followed users.
    pub closed spec fn recurses(&self) -> bool {
        self.recurse
    }
}

impl<C: Catalog> Clone for UserProfile<C> {
    fn clone(&self) -> Self {
        UserProfile { inner: Rc::clone(&self.inner), user: self.user.clone(), recurse: self.recurse }
    }
}

/// The tracks a user marked as favorites.
pub struct UserFavorites<C: Catalog> {
    inner: Rc<RootState<C>>,
    user: C::User,
}

impl<C: Catalog> Clone for UserFavorites<C> {
    fn clone(&self) -> Self {
        UserFavorites { inner: Rc::clone(&self.inner), user: self.user.clone() }
    }
}

/// Links to the users a user follows.
pub struct UserFollowing<C: Catalog> {
    inner: Rc<RootState<C>>,
    user: C::User,
}

impl<C: Catalog> Clone for UserFollowing<C> {
    fn clone(&self) -> Self {
        UserFollowing { inner: Rc::clone(&self.inner), user: self.user.clone() }
    }
}

/// The file of one track.
pub struct TrackAudio<C: Catalog> {
    inner: Rc<RootState<C>>,
    track: C::Track,
}

impl<C: Catalog> Clone for TrackAudio<C> {
    fn clone(&self) -> Self {
        TrackAudio { inner: Rc::clone(&self.inner), track: self.track.clone() }
    }
}

/// A link to a user's directory at the top.
#[derive(Clone, Debug, PartialEq, Eq)]
pub struct UserReference {
    pub permalink: String,
    pub last_modified: Timestamp,
}

impl<C: Catalog> NodeType for Root<C> {
    type File = TrackAudio<C>;
    type Directory = Dir<C>;
    type Symlink = UserReference;

    fn root(&self) -> Dir<C> {
        Dir::UserList(UserList { inner: Rc::clone(&self.inner) })
    }
}

/// The metadata of a directory last changed at `t`.
pub fn dir_metadata(t: Timestamp) -> (r: Metadata)
    ensures
        r == (Metadata { mtime: t, ctime: t, perm: PERM_DIR }),
{
    Metadata { mtime: t, ctime: t, perm: PERM_DIR }
}

/// The metadata of a file or link last changed at `t`.
pub fn file_metadata(t: Timestamp) -> (r: Metadata)
    ensures
        r == (Metadata { mtime: t, ctime: t, perm: PERM_FILE }),
{
    Metadata { mtime: t, ctime: t, perm: PERM_FILE }
}

impl<C: Catalog> Meta for UserList<C> {
    fn metadata(&self) -> Result<Metadata, Error> {
        Ok(dir_metadata(self.inner.sc_client.now()))
    }
}

impl<C: Catalog> Meta for UserProfile<C> {
    fn metadata(&self) -> Result<Metadata, Error> {
        Ok(dir_metadata(self.inner.sc_client.user_info(&self.user).last_modified))
    }
}

impl<C: Catalog> Meta for UserFavorites<C> {
    fn metadata(&self) -> Result<Metadata, Error> {
        Ok(dir_metadata(self.inner.sc_client.user_info(&self.user).last_modified))
    }
}

impl<C: Catalog> Meta for UserFollowing<C> {
    fn metadata(&self) -> Result<Metadata, Error> {
        Ok(dir_metadata(self.inner.sc_client.user_info(&self.user).last_modified))
    }
}

impl<C: Catalog> Meta for TrackAudio<C> {
    fn metadata(&self) -> Result<Metadata, Error> {
        Ok(file_metadata(self.inner.sc_client.track_info(&self.track).last_modified))
    }
}

impl Meta for UserReference {
    fn metadata(&self) -> Result<Metadata, Error> {
        Ok(file_metadata(self.last_modified))
    }
}

impl<C: Catalog> Meta for Dir<C> {
    fn metadata(&self) -> Result<Metadata, Error> {
        match self {
            Dir::UserList(d) => d.metadata(),
            Dir::UserProfile(d) => d.metadata(),
            Dir::UserFavorites(d) => d.metadata(),
            Dir::UserFollowing(d) => d.metadata(),
        }
    }
}

impl Symlink for UserReference {
    fn read_link(&self) -> Result<String, Error> {
        Ok(user_link_target(&self.permalink))
    }
}

/// Whether `names` holds `name`.
fn shows(names: &Vec<String>, name: &str) -> (r: bool)
    ensures
        r == exists|i: int| 0 <= i < names@.len() && #[trigger] names@[i]@ == name@,
{
    let key = name.to_owned();
    let mut i: usize = 0;
    while i < names.len()
        invariant
            i <= names@.len(),
            key@ == name@,
            forall|j: int| 0 <= j < i ==> names@[j]@ != name@,
        decreases names@.len() - i,
    {
        if names[i] == key {
            return true;
        }
        i = i + 1;
    }
    false
}

impl<C: Catalog> UserList<C> {
    /// The users listed at the top.
    pub closed spec fn shown(&self) -> Seq<String> {
        self.inner.show@
    }
}

impl<C: Catalog> Directory<TrackAudio<C>, Dir<C>, UserReference> for UserList<C> {
    /// One directory per user listed at the top, in order.
    fn files(&self) -> (r: Result<Vec<(String, CatalogNode<C>)>, Error>)
        ensures
            r matches Ok(v) ==> {
                &&& v@.len() == self.shown().len()
                &&& forall|i: int| 0 <= i < v@.len() ==> (#[trigger] v@[i]).0@ == self.shown()[i]@ && v@[i].1 is Directory
            },
    {
        let mut out: Vec<(String, CatalogNode<C>)> = Vec::new();
        let mut i: usize = 0;
        while i < self.inner.show.len()
            invariant
                i <= self.inner.show@.len(),
                out@.len() == i,
                forall|j: int| 0 <= j < i ==> (#[trigger] out@[j]).0@ == self.inner.show@[j]@ && out@[j].1 is Directory,
            decreases self.inner.show@.len() - i,
        {
            let name = &self.inner.show[i];
            let user = self.inner.sc_client.user_by_name(name.as_str())?;
            let dir = UserProfile { inner: Rc::clone(&self.inner), user, recurse: true };
            let entry = (name.clone(), Node::Directory(Dir::UserProfile(dir)));
            let ghost before = out@;
            let ghost e = entry;
            out.push(entry);
            proof {
                assert(out@ == before.push(e));
                assert forall|j: int| 0 <= j < i + 1 implies (#[trigger] out@[j]).0@ == self.inner.show@[j]@ && out@[j].1 is Directory by {
                    if j < i {
                        assert(out@[j] == before[j]);
                    }
                }
            }
            i = i + 1;
        }
        Ok(out)
    }

    fn file_by_name(&self, name: &str) -> (r: Result<CatalogNode<C>, Error>)
        ensures
            hidden_name(name.spec_bytes()) ==> r == Err::<CatalogNode<C>, Error>(Error::NotFound),
            r matches Ok(n) ==> (n matches Node::Directory(Dir::UserProfile(p)) && p.recurses() == exists|i: int|
                0 <= i < self.shown().len() && #[trigger] self.shown()[i]@ == name@),
    {
        if is_hidden(name) {
            return Err(Error::NotFound);
        }
        let user = self.inner.sc_client.user_by_name(name)?;
        let recurse = shows(&self.inner.show, name);
        proof {
            let shown = self.shown();
            assert(shown == self.inner.show@);
            if recurse {
                let i = choose|i: int| 0 <= i < self.inner.show@.len() && #[trigger] self.inner.show@[i]@ == name@;
                assert(shown[i]@ == name@);
            }
            if exists|i: int| 0 <= i < shown.len() && #[trigger] shown[i]@ == name@ {
                let i = choose|i: int| 0 <= i < shown.len() && #[trigger] shown[i]@ == name@;
                assert(self.inner.show@[i]@ == name@);
            }
        }
        Ok(Node::Directory(Dir::UserProfile(UserProfile { inner: Rc::clone(&self.inner), user, recurse })))
    }
}

/// The infos of `tracks`, in order, as the catalog gives them.
fn infos_of<C: Catalog>(client: &C, tracks: &Vec<C::Track>) -> (r: Vec<TrackInfo>)
    ensures
        r@.len() == tracks@.len(),
{
    let mut out: Vec<TrackInfo> = Vec::new();
    let mut i: usize = 0;
    while i < tracks.len()
        invariant
            i <= tracks@.len(),
            out@.len() == i,
        decreases tracks@.len() - i,
    {
        out.push(client.track_info(&tracks[i]));
        i = i + 1;
    }
    out
}

/// One file per track, named after the track: entry `i` is
/// `infos[i].permalink + ".mp3"`.
pub fn track_entries<C: Catalog>(inner: &Rc<RootState<C>>, tracks: Vec<C::Track>, infos: &Vec<TrackInfo>) -> (r: Vec<
    (String, CatalogNode<C>),
>)
    requires
        tracks@.len() == infos@.len(),
    ensures
        r@.len() == tracks@.len(),
        forall|i: int| 0 <= i < r@.len() ==> (#[trigger] r@[i]).1 is File && r@[i].0@ == infos@[i].permalink@ + ".mp3"@,
{
    let mut out: Vec<(String, CatalogNode<C>)> = Vec::new();
    let mut tracks = tracks;
    let ghost n = tracks@.len();
    let count = infos.len();
    let mut i: usize = 0;
    while tracks.len() > 0
        invariant
            tracks@.len() + i == n,
            n == count,
            n == infos@.len(),
            out@.len() == i,
            forall|j: int| 0 <= j < i ==> (#[trigger] out@[j]).1 is File && out@[j].0@ == infos@[j].permalink@ + ".mp3"@,
        decreases tracks@.len(),
    {
        let track = tracks.remove(0);
        let name = track_file_name(&infos[i].permalink);
        let entry = (name, Node::File(TrackAudio { inner: Rc::clone(inner), track }));
        let ghost before = out@;
        let ghost e = entry;
        out.push(entry);
        proof {
            assert(out@ == before.push(e));
            assert forall|j: int| 0 <= j < i + 1 implies (#[trigger] out@[j]).1 is File && out@[j].0@ == infos@[j].permalink@ + ".mp3"@ by {
                if j < i {
                    assert(out@[j] == before[j]);
                }
            }
        }
        i = i + 1;
    }
    out
}

/// One file per favorite track: entry `i` is named after the track's user
/// and the track, `infos[i].user_permalink + "_-_" + infos[i].permalink + ".mp3"`.
pub fn favorite_entries<C: Catalog>(inner: &Rc<RootState<C>>, tracks: Vec<C::Track>, infos: &Vec<TrackInfo>) -> (r: Vec<
    (String, CatalogNode<C>),
>)
    requires
        tracks@.len() == infos@.len(),
    ensures
        r@.len() == tracks@.len(),
        forall|i: int| 0 <= i < r@.len() ==> (#[trigger] r@[i]).1 is File
            && r@[i].0@ == infos@[i].user_permalink@ + "_-_"@ + infos@[i].permalink@ + ".mp3"@,
{
    let mut out: Vec<(String, CatalogNode<C>)> = Vec::new();
    let mut tracks = tracks;
    let ghost n = tracks@.len();
    let count = infos.len();
    let mut i: usize = 0;
    while tracks.len() > 0
        invariant
            tracks@.len() + i == n,
            n == count,
            n == infos@.len(),
            out@.len() == i,
            forall|j: int| 0 <= j < i ==> (#[trigger] out@[j]).1 is File
                && out@[j].0@ == infos@[j].user_permalink@ + "_-_"@ + infos@[j].permalink@ + ".mp3"@,
        decreases tracks@.len(),
    {
        let track = tracks.remove(0);
        let name = favorite_file_name(&infos[i].user_permalink, &infos[i].permalink);
        let entry = (name, Node::File(TrackAudio { inner: Rc::clone(inner), track }));
        let ghost before = out@;
        let ghost e = entry;
        out.push(entry);
        proof {
            assert(out@ == before.push(e));
            assert forall|j: int| 0 <= j < i + 1 implies (#[trigger] out@[j]).1 is File
                && out@[j].0@ == infos@[j].user_permalink@ + "_-_"@ + infos@[j].permalink@ + ".mp3"@ by {
                if j < i {
                    assert(out@[j] == before[j]);
                }
            }
        }
        i = i + 1;
    }
    out
}

/// One link per user: entry `i` is named after `infos[i]` and points at
/// that user's directory at the top.
pub fn user_links<C: Catalog>(infos: Vec<UserInfo>) -> (r: Vec<(String, CatalogNode<C>)>)
    ensures
        r@.len() == infos@.len(),
        forall|i: int| 0 <= i < r@.len() ==> ((#[trigger] r@[i]).1 matches Node::Symlink(l) && l.permalink@ == infos@[i].permalink@
            && l.last_modified == infos@[i].last_modified && r@[i].0@ == infos@[i].permalink@),
{
    let mut out: Vec<(String, CatalogNode<C>)> = Vec::new();
    let mut i: usize = 0;
    while i < infos.len()
        invariant
            i <= infos@.len(),
            out@.len() == i,
            forall|j: int| 0 <= j < i ==> ((#[trigger] out@[j]).1 matches Node::Symlink(l) && l.permalink@ == infos@[j].permalink@
                && l.last_modified == infos@[j].last_modified && out@[j].0@ == infos@[j].permalink@),
        decreases infos@.len() - i,
    {
        let info = &infos[i];
        let link = UserReference { permalink: info.permalink.clone(), last_modified: info.last_modified };
        let entry = (info.permalink.clone(), Node::Symlink(link));
        let ghost before = out@;
        let ghost e = entry;
        out.push(entry);
        proof {
            assert(out@ == before.push(e));
            assert forall|j: int| 0 <= j < i + 1 implies ((#[trigger] out@[j]).1 matches Node::Symlink(l) && l.permalink@ == infos@[j].permalink@
                && l.last_modified == infos@[j].last_modified && out@[j].0@ == infos@[j].permalink@) by {
                if j < i {
                    assert(out@[j] == before[j]);
                }
            }
        }
        i = i + 1;
    }
    out
}

impl<C: Catalog> Directory<TrackAudio<C>, Dir<C>, UserReference> for UserProfile<C> {
    /// With `recurse`, the favorites and the followed users come first; then
    /// one file per track, as `track_entries` names them.
    fn files(&self) -> (r: Result<Vec<(String, CatalogNode<C>)>, Error>)
        ensures
            r matches Ok(v) ==> {
                let k: int = if self.recurses() { 2 } else { 0 };
                &&& v@.len() >= k
                &&& self.recurses() ==> v@[0].0@ == "favorites"@ && v@[0].1 is Directory
                &&& self.recurses() ==> v@[1].0@ == "following"@ && v@[1].1 is Directory
                &&& forall|i: int| k <= i < v@.len() ==> (#[trigger] v@[i]).1 is File && track_named(v@[i].0@)
            },
    {
        let mut out: Vec<(String, CatalogNode<C>)> = Vec::new();
        if self.recurse {
            let fav = UserFavorites { inner: Rc::clone(&self.inner), user: self.user.clone() };
            out.push((String::from_str("favorites"), Node::Directory(Dir::UserFavorites(fav))));
            let fol = UserFollowing { inner: Rc::clone(&self.inner), user: self.user.clone() };
            out.push((String::from_str("following"), Node::Directory(Dir::UserFollowing(fol))));
        }
        let tracks = self.inner.sc_client.tracks(&self.user)?;
        let infos = infos_of(&self.inner.sc_client, &tracks);
        let mut files = track_entries(&self.inner, tracks, &infos);
        let ghost head = out@;
        let ghost tail = files@;
        out.append(&mut files);
        proof {
            let k: int = if self.recurse { 2 } else { 0 };
            assert(out@ == head + tail);
            assert forall|i: int| k <= i < out@.len() implies (#[trigger] out@[i]).1 is File && track_named(out@[i].0@) by {
                assert(out@[i] == tail[i - k]);
                assert(out@[i].0@ == infos@[i - k].permalink@ + ".mp3"@);
            }
        }
        Ok(out)
    }
}

impl<C: Catalog> Directory<TrackAudio<C>, Dir<C>, UserReference> for UserFavorites<C> {
    /// One file per favorite track, as `favorite_entries` names them.
    fn files(&self) -> (r: Result<Vec<(String, CatalogNode<C>)>, Error>)
        ensures
            r matches Ok(v) ==> forall|i: int| 0 <= i < v@.len() ==> (#[trigger] v@[i]).1 is File && track_named(v@[i].0@),
    {
        let tracks = self.inner.sc_client.favorites(&self.user)?;
        let infos = infos_of(&self.inner.sc_client, &tracks);
        let out = favorite_entries(&self.inner, tracks, &infos);
        proof {
            assert forall|i: int| 0 <= i < out@.len() implies (#[trigger] out@[i]).1 is File && track_named(out@[i].0@) by {
                assert(out@[i].0@ == (infos@[i].user_permalink@ + "_-_"@ + infos@[i].permalink@) + ".mp3"@);
            }
        }
        Ok(out)
    }
}

impl<C: Catalog> Directory<TrackAudio<C>, Dir<C>, UserReference> for UserFollowing<C> {
    /// One link per followed user, as `user_links` makes them.
    fn files(&self) -> (r: Result<Vec<(String, CatalogNode<C>)>, Error>)
        ensures
            r matches Ok(v) ==> forall|i: int| 0 <= i < v@.len() ==> ((#[trigger] v@[i]).1 matches Node::Symlink(l) && l.permalink@ == v@[i].0@),
    {
        let users = self.inner.sc_client.following(&self.user)?;
        let mut infos: Vec<UserInfo> = Vec::new();
        let mut i: usize = 0;
        while i < users.len()
            invariant
                i <= users@.len(),
            decreases users@.len() - i,
        {
            infos.push(self.inner.sc_client.user_info(&users[i]));
            i = i + 1;
        }
        Ok(user_links(infos))
    }
}

impl<C: Catalog> Directory<TrackAudio<C>, Dir<C>, UserReference> for Dir<C> {
    fn files(&self) -> Result<Vec<(String, CatalogNode<C>)>, Error> {
        match self {
            Dir::UserList(d) => d.files(),
            Dir::UserProfile(d) => d.files(),
            Dir::UserFavorites(d) => d.files(),
            Dir::UserFollowing(d) => d.files(),
        }
    }

    fn file_by_name(&self, name: &str) -> Result<CatalogNode<C>, Error> {
        match self {
            Dir::UserList(d) => d.file_by_name(name),
            Dir::UserProfile(d) => d.file_by_name(name),
            Dir::UserFavorites(d) => d.file_by_name(name),
            Dir::UserFollowing(d) => d.file_by_name(name),
        }
    }
}

impl<C: Catalog> TrackAudio<C> {
    /// The nominal size of the track's audio.
    fn audio_len(&self) -> u64 {
        audio_size(self.inner.sc_client.track_info(&self.track).duration_ms)
    }
}

impl<C: Catalog> File for TrackAudio<C> {
    type Reader = Concat<Part<C::Audio>>;

    /// The file's stream, at its start, with nothing opened yet and its
    /// length known.
    fn open_ro(&self) -> (r: Result<Concat<Part<C::Audio>>, Error>)
        ensures
            r matches Ok(c) ==> c.pos() == 0 && !c.opened() && c.sized(),
    {
        let tag = self.inner.sc_client.id3_tag(&self.track)?;
        let audio = self.inner.sc_client.audio(&self.track);
        track_stream(tag, audio, self.audio_len(), self.inner.mpeg_padding)
    }

    fn size(&self) -> Result<u64, Error> {
        let tag = self.inner.sc_client.id3_tag(&self.track)?;
        match track_size(tag.len() as u64, self.audio_len(), self.inner.mpeg_padding) {
            Some(n) => Ok(n),
            None => Err(Error::Backend(String::new())),
        }
    }
}

} // verus!

verus! {

/// The bytes of " - ", which separates a title from an artist.
pub open spec fn dash_sep() -> Seq<u8> {
    seq![0x20u8, 0x2du8, 0x20u8]
}

/// Whether " - " stands at byte `i` of `b`.
pub open spec fn dash_at(b: Seq<u8>, i: int) -> bool {
    0 <= i && i + 3 <= b.len() && b.subrange(i, i + 3) == dash_sep()
}

/// Whether the title can be split at byte `i`: " - " stands there, between
/// two characters.
pub open spec fn split_point(b: Seq<u8>, i: int) -> bool {
    dash_at(b, i) && is_char_boundary(b, i) && is_char_boundary(b, i + 3)
}

/// A title of the form "<title> - <artist>", split at its first " - ";
/// `None` where it holds none.
pub fn split_title(title: &str) -> (r: Option<(&str, &str)>)
    ensures
        r is None ==> forall|i: int| !split_point(title.spec_bytes(), i),
        r matches Some((a, b)) ==> {
            let i = a.spec_bytes().len() as int;
            &&& split_point(title.spec_bytes(), i)
            &&& forall|j: int| 0 <= j < i ==> !split_point(title.spec_bytes(), j)
            &&& a.spec_bytes() == title.spec_bytes().subrange(0, i)
            &&& b.spec_bytes() == title.spec_bytes().subrange(i + 3, title.spec_bytes().len() as int)
        },
{
    let bytes = title.as_bytes();
    let n = bytes.len();
    let mut i: usize = 0;
    while i < n && n - i >= 3
        invariant
            bytes@ == title.spec_bytes(),
            n == bytes@.len(),
            i <= n,
            forall|j: int| 0 <= j < i ==> !split_point(bytes@, j),
        decreases n - i,
    {
        let dash = bytes[i] == 0x20 && bytes[i + 1] == 0x2d && bytes[i + 2] == 0x20;
        proof {
            if dash {
                assert(bytes@.subrange(i as int, i + 3) =~= dash_sep());
            } else if dash_at(bytes@, i as int) {
                assert(bytes@.subrange(i as int, i + 3)[0] == bytes@[i as int]);
                assert(bytes@.subrange(i as int, i + 3)[1] == bytes@[i + 1]);
                assert(bytes@.subrange(i as int, i + 3)[2] == bytes@[i + 2]);
            }
        }
        if dash && title.is_char_boundary(i) && title.is_char_boundary(i + 3) {
            let (a, _) = title.split_at(i);
            let (_, b) = title.split_at(i + 3);
            return Some((a, b));
        }
        i = i + 1;
    }
    proof {
        assert forall|j: int| !split_point(bytes@, j) by {
            if j >= i {
                assert(!dash_at(bytes@, j));
            }
        }
    }
    None
}

} // verus!
