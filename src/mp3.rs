use vstd::prelude::*;
use crate::pattern::{repeated, Pattern};
use crate::readseek::{wf, ReadSeek};
use vstd::string::StringSliceAdditionalSpecFns;

verus! {

/// The size of one frame of the constant-bitrate stream, in bytes.
pub const MEAN_FRAME_SIZE: u64 = 417;

/// The header flag: the frame count field is present.
pub const FRAMES_FLAG: u32 = 1;

/// The header flag: the byte count field is present.
pub const BYTES_FLAG: u32 = 2;

/// The name and version written into the encoder field of the header.
pub const ENCODER: &'static str = "soundcloud_fs v0.1.0";

/// The sync word and the header fields that open every synthesized frame.
pub open spec fn frame_sync() -> Seq<u8> {
    seq![0xffu8, 0xfbu8, 0x90u8, 0x64u8]
}

/// `x` as four big-endian bytes.
pub open spec fn be32(x: u32) -> Seq<u8> {
    seq![((x >> 24u32) & 0xffu32) as u8, ((x >> 16u32) & 0xffu32) as u8, ((x >> 8u32) & 0xffu32) as u8, (x & 0xffu32) as u8]
}

/// Byte `i` of a frame that carries no audio.
pub open spec fn zero_frame_byte(i: int) -> u8 {
    if 0 <= i < 4 {
        frame_sync()[i]
    } else {
        0
    }
}

/// A frame that carries no audio.
pub open spec fn zero_frame_spec() -> Seq<u8> {
    Seq::new(MEAN_FRAME_SIZE as nat, |i: int| zero_frame_byte(i))
}

/// Byte `i` of the header that declares a constant-bitrate stream of
/// `bytes` bytes: the sync word, the "Info" tag, the flags, the number of
/// frames, the number of bytes and the encoder's name; zero elsewhere.
pub open spec fn cbr_header_byte(bytes: u64, enc: Seq<u8>, i: int) -> u8 {
    if 0 <= i < 0x04 {
        frame_sync()[i]
    } else if 0x24 <= i < 0x28 {
        // "Info"
        seq![0x49u8, 0x6eu8, 0x66u8, 0x6fu8][i - 0x24]
    } else if 0x28 <= i < 0x2c {
        be32(FRAMES_FLAG | BYTES_FLAG)[i - 0x28]
    } else if 0x2c <= i < 0x30 {
        be32((bytes / MEAN_FRAME_SIZE) as u32)[i - 0x2c]
    } else if 0x30 <= i < 0x34 {
        be32(bytes as u32)[i - 0x30]
    } else if 0x9c <= i < 0x9c + enc.len() && enc.len() <= 0x14 {
        enc[i - 0x9c]
    } else {
        0
    }
}

/// The header that declares a constant-bitrate stream of `bytes` bytes.
pub open spec fn cbr_header_spec(bytes: u64) -> Seq<u8> {
    Seq::new(MEAN_FRAME_SIZE as nat, |i: int| cbr_header_byte(bytes, ENCODER.spec_bytes(), i))
}

/// A frame that carries no audio.
pub fn zero_frame() -> (r: Vec<u8>)
    ensures
        r@ == zero_frame_spec(),
{
    let mut buf: Vec<u8> = vec![0u8; 417];
    buf.set(0, 0xff);
    buf.set(1, 0xfb);
    buf.set(2, 0x90);
    buf.set(3, 0x64);
    assert(buf@ =~= zero_frame_spec());
    buf
}

/// `count` frames that carry no audio, one after another.
pub fn zero_frames(count: u64) -> (r: Pattern)
    requires
        count <= u64::MAX / MEAN_FRAME_SIZE,
    ensures
        wf(&r),
        r.data() == repeated(zero_frame_spec(), (count * MEAN_FRAME_SIZE) as nat),
        r.pos() == 0,
        r.reliable(),
        r.lenient(),
        r.sized(),
        !r.opened(),
{
    Pattern::new(zero_frame(), count * MEAN_FRAME_SIZE)
}

/// Writes `x` as four big-endian bytes at `at`.
fn put_be32(buf: &mut Vec<u8>, at: usize, x: u32)
    requires
        at + 4 <= old(buf)@.len(),
    ensures
        final(buf)@.len() == old(buf)@.len(),
        forall|i: int| at <= i < at + 4 ==> final(buf)@[i] == be32(x)[i - at],
        forall|i: int| 0 <= i < old(buf)@.len() && !(at <= i < at + 4) ==> final(buf)@[i] == old(buf)@[i],
{
    let len = buf.len();
    buf.set(at, ((x >> 24u32) & 0xffu32) as u8);
    buf.set(at + 1, ((x >> 16u32) & 0xffu32) as u8);
    buf.set(at + 2, ((x >> 8u32) & 0xffu32) as u8);
    buf.set(at + 3, (x & 0xffu32) as u8);
}

/// The header frame of a constant-bitrate stream of `bytes` bytes, which
/// lets players know the duration without scanning the stream.
pub fn cbr_header(bytes: u64) -> (r: Vec<u8>)
    requires
        bytes <= u32::MAX,
    ensures
        r@ == cbr_header_spec(bytes),
{
    let mut buf: Vec<u8> = vec![0u8; 417];
    // The sync word.
    buf.set(0, 0xff);
    buf.set(1, 0xfb);
    buf.set(2, 0x90);
    buf.set(3, 0x64);
    // "Info": the header of a constant-bitrate stream.
    buf.set(0x24, 0x49);
    buf.set(0x25, 0x6e);
    buf.set(0x26, 0x66);
    buf.set(0x27, 0x6f);
    put_be32(&mut buf, 0x28, FRAMES_FLAG | BYTES_FLAG);
    put_be32(&mut buf, 0x2c, (bytes / MEAN_FRAME_SIZE) as u32);
    put_be32(&mut buf, 0x30, bytes as u32);
    // 0x34..0x9c: the table of contents and the quality field, unused in a
    // constant-bitrate stream.
    let ghost before = buf@;
    copy_from_var_str(&mut buf, 0x9c, 0xb0, ENCODER);
    assert(buf@ =~= cbr_header_spec(bytes)) by {
        assert forall|i: int| 0 <= i < 417 implies buf@[i] == cbr_header_byte(bytes, ENCODER.spec_bytes(), i) by {
            if 0x9c <= i < 0xb0 {
                assert(buf@[i] == cbr_header_byte(bytes, ENCODER.spec_bytes(), i));
            } else {
                assert(buf@[i] == before[i]);
            }
        }
    }
    buf
}

/// Copies the bytes of `s` to `buf[start..end]` where they fit there,
/// leaving everything else as it was.
pub fn copy_from_var_str(buf: &mut Vec<u8>, start: usize, end: usize, s: &str)
    requires
        start <= end <= old(buf)@.len(),
    ensures
        final(buf)@.len() == old(buf)@.len(),
        forall|i: int|
            start <= i < end ==> final(buf)@[i] == if i - start < s.spec_bytes().len() && s.spec_bytes().len() <= end - start {
                s.spec_bytes()[i - start]
            } else {
                old(buf)@[i]
            },
        forall|i: int| 0 <= i < old(buf)@.len() && !(start <= i < end) ==> final(buf)@[i] == old(buf)@[i],
{
    let b = s.as_bytes();
    if b.len() > end - start {
        return;
    }
    let ghost before = buf@;
    let mut i: usize = 0;
    while i < b.len()
        invariant
            start <= end <= buf@.len(),
            b@ == s.spec_bytes(),
            b@.len() <= end - start,
            buf@.len() == before.len(),
            i <= b@.len(),
            forall|j: int| start <= j < start + i ==> buf@[j] == b@[j - start],
            forall|j: int| 0 <= j < buf@.len() && !(start <= j < start + i) ==> buf@[j] == before[j],
        decreases b@.len() - i,
    {
        buf.set(start + i, b[i]);
        i = i + 1;
    }
}

} // verus!
