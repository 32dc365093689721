use soundcloud_fs::error::Error;
use soundcloud_fs::http::{RangeSeeker, ReadStep, ResponseStep, STATUS_OK, STATUS_PARTIAL_CONTENT, STATUS_RANGE_NOT_SATISFIABLE};
use soundcloud_fs::readseek::SeekFrom;

/// A resource served the way a range-capable server serves it.
struct Server {
    data: Vec<u8>,
}

struct Response {
    status: u16,
    length: Option<u64>,
    body: Vec<u8>,
    at: usize,
}

impl Server {
    fn get(&self, offset: u64) -> Response {
        let len = self.data.len() as u64;
        if offset >= len {
            return Response { status: STATUS_RANGE_NOT_SATISFIABLE, length: None, body: vec![], at: 0 };
        }
        let body = self.data[offset as usize..].to_vec();
        Response { status: STATUS_PARTIAL_CONTENT, length: Some(body.len() as u64), body, at: 0 }
    }
}

/// Drives the seeker the way a client with a real connection does.
struct Remote {
    server: Server,
    seeker: RangeSeeker,
    active: Option<Response>,
    cached: Option<Response>,
}

impl Remote {
    fn new(data: Vec<u8>) -> Remote {
        Remote { server: Server { data }, seeker: RangeSeeker::new(), active: None, cached: None }
    }

    fn answer(&mut self, offset: u64) -> Result<(), Error> {
        let mut res = self.server.get(offset);
        loop {
            match self.seeker.on_response(res.status, res.length)? {
                ResponseStep::Keep => {
                    self.active = Some(res);
                    return Ok(());
                }
                ResponseStep::Discard => {
                    self.active = None;
                    return Ok(());
                }
                ResponseStep::Request(o) => res = self.server.get(o),
            }
        }
    }

    fn read(&mut self, buf: &mut [u8]) -> Result<usize, Error> {
        loop {
            match self.seeker.begin_read() {
                ReadStep::Eof => {
                    self.cached = None;
                    return Ok(0);
                }
                ReadStep::Drain => {
                    self.cached = None;
                    let res = self.active.as_mut().unwrap();
                    let n = buf.len().min(res.body.len() - res.at);
                    buf[..n].copy_from_slice(&res.body[res.at..res.at + n]);
                    res.at += n;
                    self.seeker.end_read(n as u64)?;
                    return Ok(n);
                }
                ReadStep::Request(o) => {
                    self.cached = None;
                    self.answer(o)?;
                }
            }
        }
    }

    fn seek(&mut self, pos: SeekFrom) -> Result<u64, Error> {
        loop {
            match self.seeker.seek(pos)? {
                None => {
                    let at = self.seeker.position();
                    self.answer(at)?;
                }
                Some(step) => {
                    if !step.moved {
                        return Ok(step.position);
                    }
                    let previous = self.active.take();
                    if step.revive {
                        self.active = self.cached.take();
                    }
                    if step.stash {
                        self.cached = previous;
                    }
                    return Ok(step.position);
                }
            }
        }
    }

    fn read_to_end(&mut self, out: &mut Vec<u8>) -> Result<usize, Error> {
        let mut buf = [0u8; 1000];
        let mut total = 0;
        loop {
            let n = self.read(&mut buf)?;
            if n == 0 {
                return Ok(total);
            }
            out.extend_from_slice(&buf[..n]);
            total += n;
        }
    }

    fn read_exact(&mut self, buf: &mut [u8]) -> Result<(), Error> {
        let mut at = 0;
        while at < buf.len() {
            let n = self.read(&mut buf[at..])?;
            assert!(n > 0);
            at += n;
        }
        Ok(())
    }
}

fn test_request_resp(start: usize, end: usize) -> Vec<u8> {
    (97..=122).cycle().skip(start).take(end - start).collect()
}

fn test_remote(size: usize) -> Remote {
    Remote::new(test_request_resp(0, size))
}

#[test]
fn test_read_all() {
    const SIZE: usize = 8192;
    let mut f = test_remote(SIZE);

    let mut buf = Vec::new();
    f.read_to_end(&mut buf).unwrap();
    assert_eq!(test_request_resp(0, SIZE), buf);

    assert_eq!(1, f.seeker.num_requests());
}

#[test]
fn test_read_partial() {
    const SIZE: usize = 8192;
    let mut f = test_remote(SIZE);

    let new_pos = f.seek(SeekFrom::Start(4000)).unwrap();
    assert_eq!(4000, new_pos);

    let mut buf = Vec::new();
    f.read_to_end(&mut buf).unwrap();
    assert_eq!(test_request_resp(4000, SIZE), buf);

    assert_eq!(1, f.seeker.num_requests());
}

#[test]
fn test_seek_to_end() {
    const SIZE: usize = 8192;
    let mut f = test_remote(SIZE);

    let new_pos = f.seek(SeekFrom::End(0)).unwrap();
    assert_eq!(SIZE as u64, new_pos);

    let mut buf = Vec::new();
    f.read_to_end(&mut buf).unwrap();
    assert!(buf.is_empty());

    assert_eq!(1, f.seeker.num_requests());
}

#[test]
fn test_probe_size() {
    const SIZE: usize = 8192;
    let mut f = test_remote(SIZE);

    let new_pos = f.seek(SeekFrom::End(0)).unwrap();
    assert_eq!(SIZE as u64, new_pos);

    let new_pos = f.seek(SeekFrom::Start(0)).unwrap();
    assert_eq!(0, new_pos);

    let mut buf = Vec::new();
    f.read_to_end(&mut buf).unwrap();
    assert_eq!(test_request_resp(0, SIZE), buf);

    assert_eq!(1, f.seeker.num_requests());
}

#[test]
fn test_read_after_seek() {
    const SIZE: usize = 8192;
    let mut f = test_remote(SIZE);

    let new_pos = f.seek(SeekFrom::End(-100)).unwrap();
    assert_eq!(SIZE as u64 - 100, new_pos);
    let mut buf = [0; 50];
    f.read_exact(&mut buf).unwrap();

    let new_pos = f.seek(SeekFrom::End(-10)).unwrap();
    assert_eq!(SIZE as u64 - 10, new_pos);

    let mut buf = Vec::new();
    f.read_to_end(&mut buf).unwrap();
    assert_eq!(test_request_resp(SIZE - 10, SIZE), buf);
}

#[test]
fn near_end_reads_at_two_offsets_need_two_requests() {
    const SIZE: usize = 8192;
    let mut f = test_remote(SIZE);
    f.seek(SeekFrom::End(-100)).unwrap();
    let probes = f.seeker.num_requests();
    let mut buf = [0; 50];
    f.read_exact(&mut buf).unwrap();
    assert_eq!(&buf[..], &test_request_resp(SIZE - 100, SIZE - 50)[..]);
    f.seek(SeekFrom::End(-10)).unwrap();
    let mut rest = Vec::new();
    f.read_to_end(&mut rest).unwrap();
    assert_eq!(f.seeker.num_requests() - probes, 2);
}

#[test]
fn returning_to_a_left_offset_reuses_its_response() {
    const SIZE: usize = 8192;
    let mut f = test_remote(SIZE);
    f.seek(SeekFrom::Start(100)).unwrap();
    let mut buf = [0; 10];
    f.read_exact(&mut buf).unwrap();
    assert_eq!(f.seeker.num_requests(), 1);
    f.seek(SeekFrom::Start(5000)).unwrap();
    f.seek(SeekFrom::Start(110)).unwrap();
    let mut buf = [0; 10];
    f.read_exact(&mut buf).unwrap();
    assert_eq!(&buf[..], &test_request_resp(110, 120)[..]);
    assert_eq!(f.seeker.num_requests(), 1);
}

#[test]
fn seek_to_current_offset_needs_nothing() {
    let mut f = test_remote(100);
    let mut buf = [0; 10];
    f.read_exact(&mut buf).unwrap();
    assert_eq!(f.seek(SeekFrom::Current(0)).unwrap(), 10);
    f.read_exact(&mut buf).unwrap();
    assert_eq!(&buf[..], &test_request_resp(10, 20)[..]);
    assert_eq!(f.seeker.num_requests(), 1);
}

#[test]
fn other_status_fails() {
    let mut s = RangeSeeker::new();
    assert_eq!(s.begin_read(), ReadStep::Request(0));
    assert!(matches!(s.on_response(500, Some(10)), Err(Error::Protocol(_))));
    assert!(matches!(s.on_response(STATUS_PARTIAL_CONTENT, None), Err(Error::Protocol(_))));
    assert_eq!(s.on_response(STATUS_OK, Some(10)).unwrap(), ResponseStep::Keep);
    assert_eq!(s.length(), Some(10));
    assert!(s.seek(SeekFrom::Current(-1)).is_err());
}

#[test]
fn not_satisfiable_marks_the_end() {
    let mut s = RangeSeeker::new();
    assert_eq!(s.seek(SeekFrom::Start(50)).unwrap().unwrap().position, 50);
    assert_eq!(s.begin_read(), ReadStep::Request(50));
    assert_eq!(s.on_response(STATUS_RANGE_NOT_SATISFIABLE, None).unwrap(), ResponseStep::Request(0));
    assert_eq!(s.on_response(STATUS_PARTIAL_CONTENT, Some(20)).unwrap(), ResponseStep::Discard);
    assert_eq!(s.length(), Some(20));
    assert_eq!(s.begin_read(), ReadStep::Eof);
    assert_eq!(s.num_requests(), 2);
}
