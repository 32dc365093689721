use soundcloud_fs::readseek::fill;
use soundcloud_fs::cursor::{offset_by, resolve_seek, Cursor, MemoryOpener};
use soundcloud_fs::fit::{FitOpener, Fitted};
use soundcloud_fs::lazyopen::Opener;
use soundcloud_fs::oprecorder::{OpRecorder, Operation};
use soundcloud_fs::pattern::Pattern;
use soundcloud_fs::readseek::{ReadSeek, SeekFrom};
use soundcloud_fs::skip::{Skip, SkipOpener};
use soundcloud_fs::zeros::zeros;

#[test]
fn zeros_read_and_seek() {
    let mut z = zeros(5);
    let mut buf = vec![7; 8];
    assert_eq!(z.read(&mut buf).unwrap(), 5);
    assert_eq!(buf, vec![0, 0, 0, 0, 0, 7, 7, 7]);
    assert_eq!(z.read(&mut buf).unwrap(), 0);
    assert_eq!(z.seek(SeekFrom::End(-2)).unwrap(), 3);
    let mut buf = vec![7; 8];
    assert_eq!(z.read(&mut buf).unwrap(), 2);
    assert!(z.seek(SeekFrom::Current(-10)).is_err());
}

#[test]
fn pattern_seek_and_read() {
    let mut pat = Pattern::new(vec![1, 2, 3], 10);
    assert_eq!(pat.seek(SeekFrom::Start(4)).unwrap(), 4);
    let mut buf = [0; 4];
    assert_eq!(pat.read(&mut buf[..]).unwrap(), 4);
    assert_eq!(buf, [2, 3, 1, 2]);
    assert_eq!(pat.seek(SeekFrom::End(-1)).unwrap(), 9);
    assert_eq!(pat.read(&mut buf[..]).unwrap(), 1);
    assert_eq!(buf[0], 1);
    assert!(pat.seek(SeekFrom::End(-11)).is_err());
}

#[test]
fn skip_seek() {
    let file: Vec<u8> = (0..16).collect();
    let mut skip = Skip::new(Cursor::new(file), 8);
    assert_eq!(skip.seek(SeekFrom::End(0)).unwrap(), 8);
    assert_eq!(skip.seek(SeekFrom::Start(6)).unwrap(), 6);
    let mut buf = [0; 4];
    assert_eq!(skip.read(&mut buf).unwrap(), 2);
    assert_eq!(buf, [14, 15, 0, 0]);
    assert_eq!(skip.seek(SeekFrom::Current(-4)).unwrap(), 4);
    assert_eq!(skip.read(&mut buf).unwrap(), 4);
    assert_eq!(buf, [12, 13, 14, 15]);
}

#[test]
fn skip_past_short_source() {
    let mut skip = Skip::new(Cursor::new(vec![1, 2, 3]), 8);
    assert_eq!(skip.seek(SeekFrom::End(0)).unwrap(), 0);
    let mut buf = [0; 4];
    assert_eq!(skip.read(&mut buf).unwrap(), 0);
}

#[test]
fn fitted_cuts_longer_source() {
    let mut f = Fitted::new(Cursor::new(vec![1, 2, 3, 4, 5]), 3);
    assert_eq!(f.seek(SeekFrom::End(0)).unwrap(), 3);
    f.seek(SeekFrom::Start(0)).unwrap();
    let mut buf = [0; 5];
    assert_eq!(f.read(&mut buf).unwrap(), 3);
    assert_eq!(buf, [1, 2, 3, 0, 0]);
    assert_eq!(f.read(&mut buf).unwrap(), 0);
}

#[test]
fn fitted_pads_shorter_source() {
    let mut f = Fitted::new(Cursor::new(vec![1, 2]), 5);
    let mut out = Vec::new();
    let mut buf = [9; 2];
    loop {
        let n = f.read(&mut buf).unwrap();
        if n == 0 {
            break;
        }
        out.extend_from_slice(&buf[..n]);
    }
    assert_eq!(out, vec![1, 2, 0, 0, 0]);
}

#[test]
fn openers_compose() {
    let opener = FitOpener::new(SkipOpener::new(MemoryOpener::new(vec![1, 2, 3, 4, 5, 6]), 2), 3);
    let mut f = opener.open().unwrap();
    let mut buf = [0; 8];
    assert_eq!(f.read(&mut buf).unwrap(), 3);
    assert_eq!(&buf[..3], &[3, 4, 5]);
}

#[test]
fn recorder_logs_operations() {
    let mut rec = OpRecorder::new(Cursor::new(vec![1, 2, 3]));
    let mut buf = [0; 2];
    rec.read(&mut buf).unwrap();
    rec.seek(SeekFrom::Start(1)).unwrap();
    assert!(rec.seek(SeekFrom::Current(-5)).is_err());
    assert_eq!(
        rec.ops(),
        &[
            Operation::Read { buflen: 2, nread: 2 },
            Operation::Seek { pos: SeekFrom::Start(1), new_pos: 1 },
        ]
    );
}

#[test]
fn cursor_and_offsets() {
    let mut c = Cursor::new(vec![5, 6, 7]);
    assert_eq!(c.seek(SeekFrom::End(-1)).unwrap(), 2);
    let mut buf = [0; 3];
    assert_eq!(c.read(&mut buf).unwrap(), 1);
    assert_eq!(buf, [7, 0, 0]);
    assert_eq!(offset_by(10, -3), Some(7));
    assert_eq!(offset_by(2, -3), None);
    assert_eq!(offset_by(u64::MAX, 1), None);
    assert_eq!(offset_by(0, i64::MIN), None);
    assert_eq!(resolve_seek(SeekFrom::End(5), 0, 10), Some(15));
    assert_eq!(resolve_seek(SeekFrom::Current(-1), 0, 10), None);
}

#[test]
fn fill_reads_until_full() {
    let mut f = Fitted::new(Cursor::new(vec![1, 2]), 5);
    let mut buf = [9; 7];
    assert_eq!(fill(&mut f, &mut buf).unwrap(), 5);
    assert_eq!(buf, [1, 2, 0, 0, 0, 9, 9]);
}
