use soundcloud_fs::pattern::Pattern;
use soundcloud_fs::readseek::ReadSeek;

#[test]
fn read_zero_sized() {
    let mut pat = Pattern::new(vec![], 16);
    let mut buf = [0; 16];
    let nread = pat.read(&mut buf[..]).unwrap();
    assert_eq!(0, nread);
}

#[test]
fn read_partial() {
    let mut pat = Pattern::new(vec![1, 2, 3, 4, 5, 6, 7, 8], 16);
    let mut buf = [0; 4];
    let nread = pat.read(&mut buf[..]).unwrap();
    assert_eq!(nread, 4);
    assert_eq!(buf, [1, 2, 3, 4]);
}

#[test]
fn read_once_exact() {
    let mut pat = Pattern::new(vec![1, 2, 3, 4, 5, 6, 7, 8], 8);
    let mut buf = [0; 8];
    let nread = pat.read(&mut buf[..]).unwrap();
    assert_eq!(nread, 8);
    assert_eq!(buf, [1, 2, 3, 4, 5, 6, 7, 8]);
}

#[test]
fn read_once_large_buf() {
    let mut pat = Pattern::new(vec![1, 2, 3, 4, 5, 6, 7, 8], 8);
    let mut buf = [0; 16];
    let nread = pat.read(&mut buf[..]).unwrap();
    assert_eq!(nread, 8);
    assert_eq!(buf, [1, 2, 3, 4, 5, 6, 7, 8, 0, 0, 0, 0, 0, 0, 0, 0]);
}

#[test]
fn read_multi_exact() {
    let mut pat = Pattern::new(vec![1, 2, 3, 4], 8);
    let mut buf = [0; 8];
    let nread = pat.read(&mut buf[..]).unwrap();
    assert_eq!(nread, 8);
    assert_eq!(buf, [1, 2, 3, 4, 1, 2, 3, 4]);
}

#[test]
fn read_multi_partial() {
    let mut pat = Pattern::new(vec![1, 2, 3, 4], 32);
    let mut buf = [0; 10];
    let nread = pat.read(&mut buf[..]).unwrap();
    assert_eq!(nread, 10);
    assert_eq!(buf, [1, 2, 3, 4, 1, 2, 3, 4, 1, 2]);
}
