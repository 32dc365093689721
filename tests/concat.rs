use soundcloud_fs::concat::Concat;
use soundcloud_fs::cursor::MemoryOpener;
use soundcloud_fs::lazyopen::LazyOpen;
use soundcloud_fs::mapping::Part;
use soundcloud_fs::pattern::Pattern;
use soundcloud_fs::cursor::Cursor;
use soundcloud_fs::oprecorder::OpRecorder;
use soundcloud_fs::readseek::{ReadSeek, SeekFrom};

#[test]
fn read_single_file() {
    let expect = vec![1, 2, 3, 4, 5, 6, 7, 8];
    let mut concat = Concat::new(vec![Cursor::new(expect.clone())]).unwrap();

    let mut buf = vec![0; expect.len()];
    let nread = concat.read(&mut buf).unwrap();
    assert_eq!(nread, expect.len());
    assert_eq!(buf, expect);

    let nread = concat.read(&mut buf).unwrap();
    assert_eq!(nread, 0);
}

#[test]
fn read_single_file_multi() {
    let expect = vec![1, 2, 3, 4, 5, 6, 7, 8];
    let mut concat = Concat::new(vec![Cursor::new(expect.clone())]).unwrap();

    let mut buf = vec![0; 4];
    let nread = concat.read(&mut buf).unwrap();
    assert_eq!(nread, 4);
    assert_eq!(buf, vec![1, 2, 3, 4]);

    let nread = concat.read(&mut buf).unwrap();
    assert_eq!(nread, 4);
    assert_eq!(buf, vec![5, 6, 7, 8]);

    let nread = concat.read(&mut buf).unwrap();
    assert_eq!(nread, 0);
}

#[test]
fn read_multiple_files() {
    let a = vec![1, 2, 3, 4];
    let b = vec![5, 6, 7, 8];
    let mut concat = Concat::new(vec![Cursor::new(a.clone()), Cursor::new(b.clone())]).unwrap();

    let expect = vec![1, 2, 3, 4, 5, 6, 7, 8];
    let mut buf = vec![0; expect.len()];
    let nread = concat.read(&mut buf).unwrap();
    assert_eq!(expect.len(), nread);
    assert_eq!(expect, buf);
}

#[test]
fn read_multiple_files_multiread() {
    let a = vec![1, 2, 3, 4];
    let b = vec![5, 6, 7, 8];
    let mut concat = Concat::new(vec![Cursor::new(a.clone()), Cursor::new(b.clone())]).unwrap();

    let mut buf = vec![0; 6];
    let nread = concat.read(&mut buf).unwrap();
    assert_eq!(nread, 6);
    assert_eq!(buf, vec![1, 2, 3, 4, 5, 6]);

    let mut buf = vec![0; 4];
    let nread = concat.read(&mut buf).unwrap();
    assert_eq!(nread, 2);
    assert_eq!(buf, vec![7, 8, 0, 0]);

    let nread = concat.read(&mut buf).unwrap();
    assert_eq!(nread, 0);
}

#[test]
fn seek_single_file() {
    let expect = vec![1, 2, 3, 4, 5, 6, 7, 8];
    let mut concat = Concat::new(vec![Cursor::new(expect.clone())]).unwrap();

    concat.seek(SeekFrom::Start(4)).unwrap();

    let mut buf = vec![0; 4];
    let nread = concat.read(&mut buf).unwrap();
    assert_eq!(nread, 4);
    assert_eq!(buf, vec![5, 6, 7, 8]);
}

#[test]
fn seek_multiple_files_eof() {
    let a = vec![1, 2, 3, 4];
    let b = vec![5, 6, 7, 8];
    let mut concat = Concat::new(vec![Cursor::new(a.clone()), Cursor::new(b.clone())]).unwrap();

    let abs_pos = concat.seek(SeekFrom::End(0)).unwrap();
    assert_eq!(abs_pos, 8);

    let mut buf = vec![0; 4];
    let nread = concat.read(&mut buf).unwrap();
    assert_eq!(nread, 0);
}

#[test]
fn seek_multiple_files_a() {
    let a = vec![1, 2, 3, 4];
    let b = vec![5, 6, 7, 8];
    let mut concat = Concat::new(vec![Cursor::new(a.clone()), Cursor::new(b.clone())]).unwrap();

    concat.seek(SeekFrom::Start(2)).unwrap();

    let mut buf = vec![0; 6];
    let nread = concat.read(&mut buf).unwrap();
    assert_eq!(nread, 6);
    assert_eq!(buf, vec![3, 4, 5, 6, 7, 8]);
}

#[test]
fn seek_multiple_files_b() {
    let a = vec![1, 2, 3, 4];
    let b = vec![5, 6, 7, 8];
    let mut concat = Concat::new(vec![Cursor::new(a.clone()), Cursor::new(b.clone())]).unwrap();

    concat.seek(SeekFrom::Start(6)).unwrap();

    let mut buf = vec![0; 2];
    let nread = concat.read(&mut buf).unwrap();
    assert_eq!(nread, 2);
    assert_eq!(buf, vec![7, 8]);
}

#[test]
fn seek_after_read() {
    let a = vec![1, 2, 3, 4];
    let b = vec![5, 6, 7, 8];
    let mut concat = Concat::new(vec![Cursor::new(a.clone()), Cursor::new(b.clone())]).unwrap();

    let mut buf = vec![0; 2];
    let nread = concat.read(&mut buf).unwrap();
    assert_eq!(nread, 2);
    assert_eq!(buf, vec![1, 2]);

    concat.seek(SeekFrom::Start(6)).unwrap();

    let mut buf = vec![0; 2];
    let nread = concat.read(&mut buf).unwrap();
    assert_eq!(nread, 2);
    assert_eq!(buf, vec![7, 8]);

    concat.seek(SeekFrom::Start(2)).unwrap();

    let mut buf = vec![0; 2];
    let nread = concat.read(&mut buf).unwrap();
    assert_eq!(nread, 2);
    assert_eq!(buf, vec![3, 4]);
}

#[test]
fn seek_lazy_ranges() {
    let mut concat = Concat::new(vec![
        OpRecorder::new(Cursor::new(vec![0; 4])),
        OpRecorder::new(Cursor::new(vec![0; 4])),
    ])
    .unwrap();

    let mut buf = vec![0; 4];
    concat.read(&mut buf).unwrap();
    concat.seek(SeekFrom::Start(3)).unwrap();

    println!("{:?}", concat.files()[1].ops());
    assert_eq!(concat.files()[1].ops().len(), 0);
}

#[test]
fn seek_beyond_length() {
    let mut concat = Concat::new(vec![Cursor::new(vec![0; 4]), Cursor::new(vec![0; 4])]).unwrap();

    // An offset past the total length is an error, and the cursor stays.
    assert!(concat.seek(SeekFrom::End(8)).is_err());
    assert!(concat.seek(SeekFrom::Start(9)).is_err());
    assert!(concat.seek(SeekFrom::Current(9)).is_err());
    let mut buf = vec![9; 4];
    assert_eq!(concat.read(&mut buf).unwrap(), 4);

    assert_eq!(concat.seek(SeekFrom::Start(8)).unwrap(), 8);
    let nread = concat.read(&mut buf).unwrap();
    assert_eq!(nread, 0);
}

#[test]
fn new_without_sources_fails() {
    let r = Concat::<Cursor>::new(vec![]);
    assert!(matches!(r, Err(soundcloud_fs::error::Error::NoSources)));
}

#[test]
fn partitions_read_back_whole() {
    let whole: Vec<u8> = (0..23).collect();
    let cuts: Vec<Vec<usize>> = vec![vec![23], vec![0, 23], vec![5, 0, 7, 11], vec![1, 1, 1, 20], vec![23, 0, 0]];
    for sizes in cuts {
        for bufsize in 1..=25 {
            let mut parts = Vec::new();
            let mut at = 0;
            for s in &sizes {
                parts.push(Cursor::new(whole[at..at + s].to_vec()));
                at += s;
            }
            let mut concat = Concat::new(parts).unwrap();
            let mut out = Vec::new();
            let mut buf = vec![0; bufsize];
            loop {
                let n = concat.read(&mut buf).unwrap();
                if n == 0 {
                    break;
                }
                out.extend_from_slice(&buf[..n]);
            }
            assert_eq!(out, whole);
            assert_eq!(concat.read(&mut buf).unwrap(), 0);
        }
    }
}

#[test]
fn empty_chunks_between() {
    let mut concat = Concat::new(vec![
        Cursor::new(vec![1, 2]),
        Cursor::new(vec![]),
        Cursor::new(vec![]),
        Cursor::new(vec![3]),
    ])
    .unwrap();
    assert_eq!(concat.seek(SeekFrom::End(0)).unwrap(), 3);
    concat.seek(SeekFrom::Start(2)).unwrap();
    let mut buf = vec![0; 3];
    assert_eq!(concat.read(&mut buf).unwrap(), 1);
    assert_eq!(buf, vec![3, 0, 0]);
}

#[test]
fn seek_before_start_fails() {
    let mut concat = Concat::new(vec![Cursor::new(vec![1, 2])]).unwrap();
    assert!(concat.seek(SeekFrom::Current(-1)).is_err());
    assert!(concat.seek(SeekFrom::End(-3)).is_err());
    assert_eq!(concat.seek(SeekFrom::End(-2)).unwrap(), 0);
}

#[test]
fn end_probe_leaves_lazy_source_closed() {
    let mut concat = Concat::new(vec![
        Part::Bytes(Cursor::new(vec![1, 2, 3])),
        Part::Audio(LazyOpen::with_size_hint(
            4,
            soundcloud_fs::fit::FitOpener::new(
                soundcloud_fs::skip::SkipOpener::new(MemoryOpener::new(vec![4, 5, 6, 7]), 0),
                4,
            ),
        )),
        Part::Padding(Pattern::new(vec![9], 2)),
    ])
    .unwrap();
    assert_eq!(concat.seek(SeekFrom::End(0)).unwrap(), 9);
    match &concat.files()[1] {
        Part::Audio(a) => assert!(!a.is_opened()),
        _ => unreachable!(),
    }
    concat.seek(SeekFrom::Start(0)).unwrap();
    let mut buf = vec![0; 3];
    assert_eq!(concat.read(&mut buf).unwrap(), 3);
    assert_eq!(buf, vec![1, 2, 3]);
    match &concat.files()[1] {
        Part::Audio(a) => assert!(!a.is_opened()),
        _ => unreachable!(),
    }
    let mut buf = vec![0; 10];
    assert_eq!(concat.read(&mut buf).unwrap(), 6);
    assert_eq!(buf, vec![4, 5, 6, 7, 9, 9, 0, 0, 0, 0]);
}
