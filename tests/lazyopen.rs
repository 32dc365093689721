use soundcloud_fs::cursor::MemoryOpener;
use soundcloud_fs::lazyopen::LazyOpen;
use soundcloud_fs::readseek::{ReadSeek, SeekFrom};

#[test]
fn open_read() {
    let data = vec![1, 2, 3, 4];
    let mut file = LazyOpen::new(MemoryOpener::new(data.clone()));

    let mut buf = vec![0; 4];
    let nread = file.read(&mut buf).unwrap();
    assert_eq!(nread, 4);
    assert_eq!(buf, data);
}

#[test]
fn open_seek() {
    let data = vec![1, 2, 3, 4];
    let mut file = LazyOpen::new(MemoryOpener::new(data));

    let new_pos = file.seek(SeekFrom::Start(2)).unwrap();
    assert_eq!(new_pos, 2);

    let mut buf = vec![0; 2];
    let nread = file.read(&mut buf).unwrap();
    assert_eq!(nread, 2);
    assert_eq!(buf, vec![3, 4]);
}

#[test]
fn size_hint_answers_end_without_opening() {
    let mut file = LazyOpen::with_size_hint(4, MemoryOpener::new(vec![1, 2, 3, 4]));
    assert!(!file.is_opened());
    assert_eq!(file.seek(SeekFrom::End(0)).unwrap(), 4);
    assert!(!file.is_opened());
    assert_eq!(file.seek(SeekFrom::End(0)).unwrap(), 4);
    assert!(!file.is_opened());

    // The next read starts at the end the hint announced.
    let mut buf = vec![0; 4];
    assert_eq!(file.read(&mut buf).unwrap(), 0);
    assert!(file.is_opened());
}

#[test]
fn seek_after_end_probe_reads_from_target() {
    let mut file = LazyOpen::with_size_hint(4, MemoryOpener::new(vec![1, 2, 3, 4]));
    file.seek(SeekFrom::End(0)).unwrap();
    assert_eq!(file.seek(SeekFrom::Start(1)).unwrap(), 1);
    assert!(file.is_opened());
    let mut buf = vec![0; 4];
    assert_eq!(file.read(&mut buf).unwrap(), 3);
    assert_eq!(buf, vec![2, 3, 4, 0]);
}

#[test]
fn relative_seek_after_end_probe() {
    let mut file = LazyOpen::with_size_hint(4, MemoryOpener::new(vec![1, 2, 3, 4]));
    file.seek(SeekFrom::End(0)).unwrap();
    assert_eq!(file.seek(SeekFrom::Current(-2)).unwrap(), 2);
    let mut buf = vec![0; 2];
    assert_eq!(file.read(&mut buf).unwrap(), 2);
    assert_eq!(buf, vec![3, 4]);
}

#[test]
fn without_hint_end_seek_opens() {
    let mut file = LazyOpen::new(MemoryOpener::new(vec![1, 2, 3]));
    assert!(!file.is_opened());
    assert_eq!(file.seek(SeekFrom::End(0)).unwrap(), 3);
    assert!(file.is_opened());
}

#[test]
fn lazy_seek_before_start_fails() {
    let mut file = LazyOpen::new(MemoryOpener::new(vec![1, 2, 3]));
    assert!(file.seek(SeekFrom::Current(-1)).is_err());
}

struct FailingOpener {
    calls: std::rc::Rc<std::cell::Cell<usize>>,
}

impl soundcloud_fs::lazyopen::Opener for FailingOpener {
    type Reader = soundcloud_fs::cursor::Cursor;

    fn open(self) -> Result<soundcloud_fs::cursor::Cursor, soundcloud_fs::error::Error> {
        self.calls.set(self.calls.get() + 1);
        Err(soundcloud_fs::error::Error::Io("unreachable host".to_string()))
    }
}

#[test]
fn failed_open_is_replayed() {
    let calls = std::rc::Rc::new(std::cell::Cell::new(0));
    let mut file = LazyOpen::with_size_hint(4, FailingOpener { calls: calls.clone() });
    assert_eq!(file.seek(SeekFrom::End(0)).unwrap(), 4);
    assert_eq!(calls.get(), 0);
    let mut buf = vec![0; 4];
    let first = file.read(&mut buf).err();
    assert_eq!(first, Some(soundcloud_fs::error::Error::Io("unreachable host".to_string())));
    assert_eq!(file.read(&mut buf).err(), first);
    assert_eq!(file.seek(SeekFrom::Start(0)).err(), first);
    assert_eq!(calls.get(), 1);
}

#[test]
fn read_fills_buffer() {
    let mut file = LazyOpen::new(MemoryOpener::new(vec![1, 2, 3]));
    let mut buf = vec![0; 5];
    assert_eq!(file.read(&mut buf).unwrap(), 3);
    assert_eq!(buf, vec![1, 2, 3, 0, 0]);
}
