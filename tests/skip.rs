use soundcloud_fs::cursor::Cursor;
use soundcloud_fs::readseek::ReadSeek;
use soundcloud_fs::skip::Skip;

#[test]
fn skip() {
    let file: Vec<u8> = (0..16).collect();
    let mut skip = Skip::new(Cursor::new(file), 8);

    let mut buf = [0; 16];
    let nread = skip.read(&mut buf).unwrap();
    assert_eq!(nread, 8);
    assert_eq!(&buf, &[8, 9, 10, 11, 12, 13, 14, 15, 0, 0, 0, 0, 0, 0, 0, 0]);
}
