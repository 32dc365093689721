use soundcloud_fs::mapping::{favorite_entries, track_entries, user_links};
use soundcloud_fs::cursor::Cursor;
use soundcloud_fs::error::Error;
use soundcloud_fs::filesystem::{FS, INO_ROOT};
use soundcloud_fs::lazyopen::Opener;
use soundcloud_fs::mapping::{
    audio_size, favorite_file_name, is_hidden, split_title, track_file_name, track_size, track_stream, user_link_target, Catalog,
    RootState, Root, TrackInfo, UserInfo, PADDING_END, PADDING_START,
};
use soundcloud_fs::mp3::MEAN_FRAME_SIZE;
use soundcloud_fs::node::{NodeKind, Timestamp};
use soundcloud_fs::nodecache::CacheRoot;
use soundcloud_fs::readseek::{ReadSeek, SeekFrom};
use std::cell::Cell;
use std::rc::Rc;

const TAG: [u8; 10] = [0x49, 0x44, 0x33, 4, 0, 0, 0, 0, 0, 0];

#[derive(Clone)]
struct FUser {
    permalink: String,
}

#[derive(Clone)]
struct FTrack {
    permalink: String,
    duration_ms: i64,
}

struct FAudio {
    bytes: Vec<u8>,
    opens: Rc<Cell<usize>>,
}

impl Opener for FAudio {
    type Reader = Cursor;

    fn open(self) -> Result<Cursor, Error> {
        self.opens.set(self.opens.get() + 1);
        Ok(Cursor::new(self.bytes))
    }
}

#[derive(Clone)]
struct FakeCatalog {
    opens: Rc<Cell<usize>>,
    queries: Rc<Cell<usize>>,
}

impl Catalog for FakeCatalog {
    type User = FUser;
    type Track = FTrack;
    type Audio = FAudio;

    fn now(&self) -> Timestamp {
        Timestamp { secs: 7, nanos: 0 }
    }

    fn user_by_name(&self, name: &str) -> Result<FUser, Error> {
        self.queries.set(self.queries.get() + 1);
        if name == "alice" || name == "bob" {
            Ok(FUser { permalink: name.to_string() })
        } else {
            Err(Error::NotFound)
        }
    }

    fn user_info(&self, user: &FUser) -> UserInfo {
        UserInfo { permalink: user.permalink.clone(), last_modified: Timestamp { secs: 100, nanos: 0 } }
    }

    fn tracks(&self, _user: &FUser) -> Result<Vec<FTrack>, Error> {
        self.queries.set(self.queries.get() + 1);
        Ok(vec![
            FTrack { permalink: "first".to_string(), duration_ms: 1000 },
            FTrack { permalink: "second".to_string(), duration_ms: 2000 },
        ])
    }

    fn favorites(&self, _user: &FUser) -> Result<Vec<FTrack>, Error> {
        Ok(vec![FTrack { permalink: "liked".to_string(), duration_ms: 10 }])
    }

    fn following(&self, _user: &FUser) -> Result<Vec<FUser>, Error> {
        Ok(vec![FUser { permalink: "bob".to_string() }])
    }

    fn track_info(&self, track: &FTrack) -> TrackInfo {
        TrackInfo {
            permalink: track.permalink.clone(),
            user_permalink: "carol".to_string(),
            duration_ms: track.duration_ms,
            last_modified: Timestamp { secs: 200, nanos: 0 },
        }
    }

    fn id3_tag(&self, _track: &FTrack) -> Result<Vec<u8>, Error> {
        Ok(TAG.to_vec())
    }

    fn audio(&self, track: &FTrack) -> FAudio {
        FAudio { bytes: vec![7; audio_size(track.duration_ms) as usize], opens: self.opens.clone() }
    }
}

fn mount_catalog(padding: bool) -> (FS<soundcloud_fs::mapping::TrackAudio<FakeCatalog>, soundcloud_fs::mapping::Dir<FakeCatalog>, soundcloud_fs::mapping::UserReference>, FakeCatalog) {
    let client = FakeCatalog { opens: Rc::new(Cell::new(0)), queries: Rc::new(Cell::new(0)) };
    let state = RootState {
        sc_client: client.clone(),
        show: vec!["alice".to_string()],
        mpeg_padding: padding,
        id3_download_images: false,
        id3_parse_strings: true,
    };
    let root = Root::new(Rc::new(state));
    (FS::new(CacheRoot::new(&root).root(), 1, 1), client)
}

fn names(fs: &mut FS<soundcloud_fs::mapping::TrackAudio<FakeCatalog>, soundcloud_fs::mapping::Dir<FakeCatalog>, soundcloud_fs::mapping::UserReference>, ino: u64) -> Vec<(String, NodeKind, u64)> {
    let fh = fs.opendir(ino).unwrap();
    let entries = fs.readdir(fh, 0).unwrap();
    fs.releasedir(fh).unwrap();
    entries.into_iter().map(|e| (e.name, e.kind, e.ino)).collect()
}

#[test]
fn mount_single_user_with_two_tracks() {
    let (mut fs, client) = mount_catalog(true);
    let top = names(&mut fs, INO_ROOT);
    assert_eq!(top.len(), 1);
    assert_eq!(top[0].0, "alice");
    assert_eq!(top[0].1, NodeKind::Directory);

    let user = names(&mut fs, top[0].2);
    let user_names: Vec<&str> = user.iter().map(|e| e.0.as_str()).collect();
    assert_eq!(user_names, vec!["favorites", "following", "first.mp3", "second.mp3"]);
    assert_eq!(user[2].1, NodeKind::File);

    let attr = fs.lookup(top[0].2, "first.mp3").unwrap();
    let audio = 16_000u64;
    let header_and_padding = MEAN_FRAME_SIZE + PADDING_START * MEAN_FRAME_SIZE;
    assert_eq!(attr.size, TAG.len() as u64 + header_and_padding + (audio - MEAN_FRAME_SIZE) + PADDING_END * MEAN_FRAME_SIZE);
    assert_eq!(attr.perm, 0o444);

    let fh = fs.open(attr.ino, 0).unwrap();
    let head = fs.read(fh, 0, 4096).unwrap();
    assert_eq!(head.len(), 4096);
    assert_eq!(&head[..10], &TAG);
    assert_eq!(&head[10..14], &[0xff, 0xfb, 0x90, 0x64]);
    assert_eq!(&head[10 + 0x24..10 + 0x28], b"Info");
    assert_eq!(&head[10 + 417..10 + 421], &[0xff, 0xfb, 0x90, 0x64]);
    assert_eq!(client.opens.get(), 0);

    // Reading up to the end of the padding still needs no audio.
    let before_audio = TAG.len() as u64 + header_and_padding;
    let tail = fs.read(fh, before_audio - 100, 100).unwrap();
    assert_eq!(tail.len(), 100);
    assert_eq!(client.opens.get(), 0);

    // Past the padding the audio is fetched, once.
    let body = fs.read(fh, before_audio, 64).unwrap();
    assert_eq!(body, vec![7; 64]);
    assert_eq!(client.opens.get(), 1);
    let more = fs.read(fh, before_audio + 1000, 64).unwrap();
    assert_eq!(more, vec![7; 64]);
    let end = fs.read(fh, attr.size - 10, 64).unwrap();
    assert_eq!(end.len(), 10);
    assert_eq!(client.opens.get(), 1);
}

#[test]
fn favorites_following_and_links() {
    let (mut fs, _) = mount_catalog(true);
    let alice = fs.lookup(INO_ROOT, "alice").unwrap();
    let fav = fs.lookup(alice.ino, "favorites").unwrap();
    let favs = names(&mut fs, fav.ino);
    assert_eq!(favs[0].0, "carol_-_liked.mp3");
    let fol = fs.lookup(alice.ino, "following").unwrap();
    let fols = names(&mut fs, fol.ino);
    assert_eq!(fols[0].0, "bob");
    assert_eq!(fols[0].1, NodeKind::Symlink);
    assert_eq!(fs.readlink(fols[0].2).unwrap(), "../../bob");
    // A user reached by name but not listed gets no further directories.
    let bob = fs.lookup(INO_ROOT, "bob").unwrap();
    let bobs = names(&mut fs, bob.ino);
    assert_eq!(bobs.len(), 2);
    assert_eq!(fs.getattr(bob.ino).unwrap().mtime, Timestamp { secs: 100, nanos: 0 });
    assert_eq!(fs.getattr(INO_ROOT).unwrap().mtime, Timestamp { secs: 7, nanos: 0 });
}

#[test]
fn hidden_names_never_reach_the_catalog() {
    let (mut fs, client) = mount_catalog(true);
    for name in ["autorun.inf", "BDMV", ".hidden", "."] {
        assert_eq!(fs.lookup(INO_ROOT, name).err(), Some(Error::NotFound));
    }
    assert_eq!(client.queries.get(), 0);
    assert_eq!(fs.lookup(INO_ROOT, "nobody").err(), Some(Error::NotFound));
    assert_eq!(fs.lookup(INO_ROOT, "nobody").err(), Some(Error::NotFound));
    assert_eq!(client.queries.get(), 1);
    assert!(is_hidden(".x"));
    assert!(!is_hidden("autorun"));
    assert!(!is_hidden(""));
}

#[test]
fn without_padding() {
    let (mut fs, client) = mount_catalog(false);
    let alice = fs.lookup(INO_ROOT, "alice").unwrap();
    let t = fs.lookup(alice.ino, "second.mp3").unwrap();
    assert_eq!(t.size, 10 + 32_000);
    let fh = fs.open(t.ino, 0).unwrap();
    assert_eq!(fs.read(fh, 0, 10).unwrap(), TAG.to_vec());
    assert_eq!(client.opens.get(), 0);
    assert_eq!(fs.read(fh, 10, 4).unwrap(), vec![7; 4]);
    assert_eq!(client.opens.get(), 1);
}

#[test]
fn sizes_and_names() {
    assert_eq!(audio_size(1000), 16_000);
    assert_eq!(audio_size(-5), 0);
    assert_eq!(audio_size(i64::MAX), u64::MAX);
    assert_eq!(track_size(10, 16_000, false), Some(16_010));
    assert_eq!(track_size(10, 16_000, true), Some(10 + 417 + 520 * 417 + 16_000 - 417));
    assert_eq!(track_size(10, 100, true), Some(10 + 417 + 520 * 417));
    assert_eq!(track_size(u64::MAX, 1, false), None);
    assert_eq!(track_file_name(&"song".to_string()), "song.mp3");
    assert_eq!(favorite_file_name(&"u".to_string(), &"t".to_string()), "u_-_t.mp3");
    assert_eq!(user_link_target(&"bob".to_string()), "../../bob");
}

#[test]
fn track_stream_too_long_for_header() {
    let opens = Rc::new(Cell::new(0));
    let audio = FAudio { bytes: vec![], opens: opens.clone() };
    assert!(track_stream(vec![1], audio, u32::MAX as u64, true).is_err());
    let audio = FAudio { bytes: vec![1, 2, 3], opens };
    let mut s = track_stream(vec![1], audio, 3, false).unwrap();
    assert_eq!(s.seek(SeekFrom::End(0)).unwrap(), 4);
    let mut buf = [0; 8];
    s.seek(SeekFrom::Start(0)).unwrap();
    assert_eq!(s.read(&mut buf).unwrap(), 4);
    assert_eq!(&buf[..4], &[1, 1, 2, 3]);
}

#[test]
fn titles_split_at_first_dash() {
    assert_eq!(split_title("Artist - Song - Remix"), Some(("Artist", "Song - Remix")));
    assert_eq!(split_title("No separator"), None);
    assert_eq!(split_title("a-b - "), Some(("a-b", "")));
    assert_eq!(split_title(" - x"), Some(("", "x")));
    assert_eq!(split_title("Ünïcode - ß"), Some(("Ünïcode", "ß")));
}

#[test]
fn entries_are_named_after_tracks() {
    let (client, state) = {
        let client = FakeCatalog { opens: Rc::new(Cell::new(0)), queries: Rc::new(Cell::new(0)) };
        let state = Rc::new(RootState {
            sc_client: client.clone(),
            show: vec![],
            mpeg_padding: false,
            id3_download_images: false,
            id3_parse_strings: false,
        });
        (client, state)
    };
    let tracks = vec![
        FTrack { permalink: "a".to_string(), duration_ms: 1 },
        FTrack { permalink: "b".to_string(), duration_ms: 2 },
    ];
    let infos: Vec<TrackInfo> = tracks.iter().map(|t| client.track_info(t)).collect();
    let files = track_entries(&state, tracks.clone(), &infos);
    assert_eq!(files.iter().map(|e| e.0.as_str()).collect::<Vec<_>>(), vec!["a.mp3", "b.mp3"]);
    assert!(files.iter().all(|e| e.1.node_kind() == NodeKind::File));
    let favs = favorite_entries(&state, tracks, &infos);
    assert_eq!(favs[1].0, "carol_-_b.mp3");
    let links = user_links::<FakeCatalog>(vec![UserInfo { permalink: "dave".to_string(), last_modified: Timestamp { secs: 3, nanos: 0 } }]);
    assert_eq!(links.len(), 1);
    assert_eq!(links[0].0, "dave");
    assert_eq!(links[0].1.node_kind(), NodeKind::Symlink);
}
