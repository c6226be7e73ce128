//! Wire protocol between the daemon and its clients.
//!
//! Every message is a frame: one type byte, the payload length as a
//! little-endian `u32`, then the payload. The two directions have their own
//! type spaces, [`client`] and [`server`]; the same number means different
//! things in each.

use vstd::prelude::*;
use vstd::slice::{slice_subrange, slice_to_vec};

pub mod client;
pub mod server;

verus! {

/// Size of a frame header: one type byte and four length bytes.
pub const HEADER_SIZE: usize = 5;

/// The two little-endian bytes of `x`.
pub open spec fn u16_le(x: u16) -> Seq<u8> {
    seq![(x % 256) as u8, (x / 256) as u8]
}

/// The value whose little-endian bytes are the first two of `b`.
pub open spec fn u16_from_le(b: Seq<u8>) -> int {
    b[0] + 256 * b[1]
}

/// The four little-endian bytes of `x`.
pub open spec fn u32_le(x: u32) -> Seq<u8> {
    seq![
        (x % 256) as u8,
        (x / 256 % 256) as u8,
        (x / 65536 % 256) as u8,
        (x / 16777216) as u8,
    ]
}

/// The value whose little-endian bytes are the first four of `b`.
pub open spec fn u32_from_le(b: Seq<u8>) -> int {
    b[0] + 256 * b[1] + 65536 * b[2] + 16777216 * b[3]
}

/// The unsigned value with the same 32 bits as `x` in two's complement.
pub open spec fn i32_bits(x: i32) -> u32 {
    if x >= 0 {
        x as u32
    } else {
        (x + 0x1_0000_0000) as u32
    }
}

/// The four little-endian bytes of `x` in two's complement.
pub open spec fn i32_le(x: i32) -> Seq<u8> {
    u32_le(i32_bits(x))
}

/// The signed value whose little-endian two's complement bytes are the first
/// four of `b`.
pub open spec fn i32_from_le(b: Seq<u8>) -> int {
    let u = u32_from_le(b);
    if u < 0x8000_0000 {
        u
    } else {
        u - 0x1_0000_0000
    }
}

/// The bytes of the frame that carries `payload` under type `msg_type`.
pub open spec fn frame(msg_type: u8, payload: Seq<u8>) -> Seq<u8> {
    seq![msg_type] + u32_le(payload.len() as u32) + payload
}

/// The type byte of a header.
pub open spec fn header_type(header: Seq<u8>) -> u8 {
    header[0]
}

/// The payload length that a header announces.
pub open spec fn header_len(header: Seq<u8>) -> int {
    u32_from_le(header.subrange(1, 5))
}

/// The four bytes of a resize payload: columns, then rows.
pub open spec fn resize_payload(cols: u16, rows: u16) -> Seq<u8> {
    u16_le(cols) + u16_le(rows)
}

/// Serialises `x` in two's complement, least significant byte first.
pub fn i32_to_le_bytes(x: i32) -> (out: [u8; 4])
    ensures
        out@ == i32_le(x),
{
    let wide: i64 = x as i64;
    let bits: u32 = if wide >= 0 {
        wide as u32
    } else {
        (wide + 0x1_0000_0000) as u32
    };
    let out: [u8; 4] = [
        (bits % 256) as u8,
        (bits / 256 % 256) as u8,
        (bits / 65536 % 256) as u8,
        (bits / 16777216) as u8,
    ];
    assert(out@ =~= i32_le(x));
    out
}

/// Reads a two's complement value from four bytes, least significant first.
pub fn i32_from_le_bytes(bytes: &[u8; 4]) -> (x: i32)
    ensures
        x == i32_from_le(bytes@),
{
    let u: u32 = bytes[0] as u32 + 256 * (bytes[1] as u32) + 65536 * (bytes[2] as u32) + 16777216
        * (bytes[3] as u32);
    if u < 0x8000_0000 {
        u as i32
    } else {
        (u as i64 - 0x1_0000_0000) as i32
    }
}

/// Builds the frame that carries `payload` under type `msg_type`.
pub fn encode(msg_type: u8, payload: &[u8]) -> (out: Vec<u8>)
    requires
        payload@.len() <= u32::MAX,
    ensures
        out@ == frame(msg_type, payload@),
{
    let len: u32 = payload.len() as u32;
    let mut buf: Vec<u8> = Vec::new();
    buf.push(msg_type);
    buf.push((len % 256) as u8);
    buf.push((len / 256 % 256) as u8);
    buf.push((len / 65536 % 256) as u8);
    buf.push((len / 16777216) as u8);
    buf.extend_from_slice(payload);
    assert(buf@ =~= frame(msg_type, payload@));
    buf
}

/// Reads a frame header: the message type and the payload length.
pub fn decode_header(header: &[u8; HEADER_SIZE]) -> (r: (u8, u32))
    ensures
        r.0 == header_type(header@),
        r.1 == header_len(header@),
{
    let msg_type: u8 = header[0];
    let len: u32 = header[1] as u32 + 256 * (header[2] as u32) + 65536 * (header[3] as u32)
        + 16777216 * (header[4] as u32);
    (msg_type, len)
}

/// Builds a resize payload.
pub fn encode_resize(cols: u16, rows: u16) -> (out: [u8; 4])
    ensures
        out@ == resize_payload(cols, rows),
{
    let out: [u8; 4] = [
        (cols % 256) as u8,
        (cols / 256) as u8,
        (rows % 256) as u8,
        (rows / 256) as u8,
    ];
    assert(out@ =~= resize_payload(cols, rows));
    out
}

/// Reads a resize payload: columns, then rows.
pub fn decode_resize(payload: &[u8; 4]) -> (r: (u16, u16))
    ensures
        r.0 == u16_from_le(payload@.subrange(0, 2)),
        r.1 == u16_from_le(payload@.subrange(2, 4)),
{
    let cols: u16 = payload[0] as u16 + 256 * (payload[1] as u16);
    let rows: u16 = payload[2] as u16 + 256 * (payload[3] as u16);
    (cols, rows)
}

/// A header read back from a frame gives the frame's type and the length of
/// its payload, and the payload follows the header unchanged.
pub proof fn lemma_frame_roundtrip(msg_type: u8, payload: Seq<u8>)
    requires
        payload.len() <= u32::MAX,
    ensures
        frame(msg_type, payload).len() == HEADER_SIZE + payload.len(),
        header_type(frame(msg_type, payload).subrange(0, HEADER_SIZE as int)) == msg_type,
        header_len(frame(msg_type, payload).subrange(0, HEADER_SIZE as int)) == payload.len(),
        frame(msg_type, payload).skip(HEADER_SIZE as int) == payload,
{
    let f = frame(msg_type, payload);
    let n = payload.len() as u32;
    assert(f.subrange(0, 5).subrange(1, 5) =~= u32_le(n));
    lemma_u32_le_roundtrip(n);
    assert(f.skip(5) =~= payload);
}

/// Reading back the little-endian bytes of a `u32` gives the value.
pub proof fn lemma_u32_le_roundtrip(x: u32)
    ensures
        u32_le(x).len() == 4,
        u32_from_le(u32_le(x)) == x,
{
}

/// Reading back the little-endian bytes of an `i32` gives the value.
pub proof fn lemma_i32_le_roundtrip(x: i32)
    ensures
        i32_le(x).len() == 4,
        i32_from_le(i32_le(x)) == x,
{
    lemma_u32_le_roundtrip(i32_bits(x));
}

/// A resize payload read back gives the columns and rows it was built from.
pub proof fn lemma_resize_roundtrip(cols: u16, rows: u16)
    ensures
        resize_payload(cols, rows).len() == 4,
        u16_from_le(resize_payload(cols, rows).subrange(0, 2)) == cols,
        u16_from_le(resize_payload(cols, rows).subrange(2, 4)) == rows,
{
}

/// One message: its type and its payload.
pub struct Frame {
    pub msg_type: u8,
    pub payload: Vec<u8>,
}

/// What a [`Frame`] stands for.
pub struct FrameView {
    pub msg_type: u8,
    pub payload: Seq<u8>,
}

impl View for Frame {
    type V = FrameView;

    open spec fn view(&self) -> FrameView {
        FrameView { msg_type: self.msg_type, payload: self.payload@ }
    }
}

/// What a sequence of frames stands for.
pub open spec fn frame_views(frames: Seq<Frame>) -> Seq<FrameView> {
    frames.map_values(|f: Frame| f@)
}

/// Whether `buf` begins with a whole frame: a header and all of the payload
/// that it announces.
pub open spec fn starts_with_frame(buf: Seq<u8>) -> bool {
    &&& buf.len() >= HEADER_SIZE
    &&& buf.len() >= HEADER_SIZE + header_len(buf.subrange(0, HEADER_SIZE as int))
}

/// The length of the frame that `buf` begins with.
pub open spec fn first_frame_len(buf: Seq<u8>) -> int {
    HEADER_SIZE + header_len(buf.subrange(0, HEADER_SIZE as int))
}

/// The frame that `buf` begins with.
pub open spec fn first_frame(buf: Seq<u8>) -> FrameView {
    FrameView {
        msg_type: header_type(buf.subrange(0, HEADER_SIZE as int)),
        payload: buf.subrange(HEADER_SIZE as int, first_frame_len(buf)),
    }
}

/// The whole frames at the front of `buf`, in order.
pub open spec fn whole_frames(buf: Seq<u8>) -> Seq<FrameView>
    decreases buf.len(),
{
    if starts_with_frame(buf) {
        seq![first_frame(buf)] + whole_frames(buf.skip(first_frame_len(buf)))
    } else {
        Seq::empty()
    }
}

/// What follows the whole frames at the front of `buf`: nothing, or the
/// beginning of a frame that has not arrived in full.
pub open spec fn leftover(buf: Seq<u8>) -> Seq<u8>
    decreases buf.len(),
{
    if starts_with_frame(buf) {
        leftover(buf.skip(first_frame_len(buf)))
    } else {
        buf
    }
}

/// The bytes of `frames` on the wire, one frame after the other.
pub open spec fn frames_bytes(frames: Seq<FrameView>) -> Seq<u8>
    decreases frames.len(),
{
    if frames.len() == 0 {
        Seq::empty()
    } else {
        frame(frames[0].msg_type, frames[0].payload) + frames_bytes(frames.skip(1))
    }
}

/// Takes every whole frame off the front of `buf` and leaves what follows
/// them for the bytes still to come.
pub fn take_frames(buf: &mut Vec<u8>) -> (frames: Vec<Frame>)
    ensures
        frame_views(frames@) == whole_frames(old(buf)@),
        final(buf)@ == leftover(old(buf)@),
{
    let mut frames: Vec<Frame> = Vec::new();
    let len: usize = buf.len();
    let mut offset: usize = 0;
    proof {
        assert(buf@.skip(0) =~= buf@);
        assert(frame_views(frames@) + whole_frames(buf@) =~= whole_frames(buf@));
    }
    loop
        invariant
            offset <= len,
            len == buf@.len(),
            buf@ == old(buf)@,
            whole_frames(buf@) == frame_views(frames@) + whole_frames(buf@.skip(offset as int)),
            leftover(buf@) == leftover(buf@.skip(offset as int)),
        ensures
            !starts_with_frame(buf@.skip(offset as int)),
        decreases len - offset,
    {
        if len - offset < HEADER_SIZE {
            break;
        }
        let header: [u8; HEADER_SIZE] = [
            buf[offset],
            buf[offset + 1],
            buf[offset + 2],
            buf[offset + 3],
            buf[offset + 4],
        ];
        let ghost rest = buf@.skip(offset as int);
        assert(header@ =~= rest.subrange(0, HEADER_SIZE as int));
        let (msg_type, announced) = decode_header(&header);
        let payload_len: usize = announced as usize;
        if payload_len > len - offset - HEADER_SIZE {
            break;
        }
        let start: usize = offset + HEADER_SIZE;
        let payload: Vec<u8> = slice_to_vec(
            slice_subrange(buf.as_slice(), start, start + payload_len),
        );
        let ghost collected = frame_views(frames@);
        let next = Frame { msg_type, payload };
        proof {
            assert(next@.payload =~= first_frame(rest).payload);
            assert(rest.skip(first_frame_len(rest)) =~= buf@.skip(start + payload_len));
            assert(frame_views(frames@.push(next)) =~= collected.push(next@));
            assert(collected + (seq![first_frame(rest)] + whole_frames(
                rest.skip(first_frame_len(rest)),
            )) =~= collected.push(next@) + whole_frames(rest.skip(first_frame_len(rest))));
        }
        frames.push(next);
        offset = start + payload_len;
    }
    let rest: Vec<u8> = buf.split_off(offset);
    *buf = rest;
    proof {
        assert(frame_views(frames@) + Seq::<FrameView>::empty() =~= frame_views(frames@));
        assert(old(buf)@.subrange(offset as int, len as int) =~= old(buf)@.skip(offset as int));
    }
    frames
}

/// A frame at the front of a buffer is the first frame taken off it, and what
/// is taken after it is what the rest of the buffer holds.
pub proof fn lemma_frames_after_frame(msg_type: u8, payload: Seq<u8>, rest: Seq<u8>)
    requires
        payload.len() <= u32::MAX,
    ensures
        starts_with_frame(frame(msg_type, payload) + rest),
        whole_frames(frame(msg_type, payload) + rest) == seq![
            FrameView { msg_type, payload },
        ] + whole_frames(rest),
        leftover(frame(msg_type, payload) + rest) == leftover(rest),
{
    let f = frame(msg_type, payload);
    let buf = f + rest;
    lemma_frame_roundtrip(msg_type, payload);
    assert(buf.subrange(0, HEADER_SIZE as int) =~= f.subrange(0, HEADER_SIZE as int));
    assert(buf.subrange(HEADER_SIZE as int, first_frame_len(buf)) =~= payload);
    assert(buf.skip(first_frame_len(buf)) =~= rest);
}

/// Bytes may arrive in any pieces: taking the frames off what has arrived,
/// then off the leftover joined with what arrives next, gives the frames of
/// the whole, and the same leftover.
pub proof fn lemma_frames_incremental(first: Seq<u8>, second: Seq<u8>)
    ensures
        whole_frames(first + second) == whole_frames(first) + whole_frames(
            leftover(first) + second,
        ),
        leftover(first + second) == leftover(leftover(first) + second),
    decreases first.len(),
{
    let whole = first + second;
    if starts_with_frame(first) {
        let n = first_frame_len(first);
        assert(whole.subrange(0, HEADER_SIZE as int) =~= first.subrange(0, HEADER_SIZE as int));
        assert(whole.subrange(HEADER_SIZE as int, n) =~= first.subrange(HEADER_SIZE as int, n));
        assert(whole.skip(n) =~= first.skip(n) + second);
        lemma_frames_incremental(first.skip(n), second);
        assert(seq![first_frame(first)] + (whole_frames(first.skip(n)) + whole_frames(
            leftover(first) + second,
        )) =~= (seq![first_frame(first)] + whole_frames(first.skip(n))) + whole_frames(
            leftover(first) + second,
        ));
    } else {
        assert(Seq::<FrameView>::empty() + whole_frames(whole) =~= whole_frames(whole));
    }
}

/// Writing out the value read from four little-endian bytes gives the bytes.
pub proof fn lemma_u32_from_le_roundtrip(b: Seq<u8>)
    requires
        b.len() == 4,
    ensures
        0 <= u32_from_le(b) <= u32::MAX,
        u32_le(u32_from_le(b) as u32) == b,
{
    let v = u32_from_le(b);
    let b0 = b[0] as int;
    let b1 = b[1] as int;
    let b2 = b[2] as int;
    let b3 = b[3] as int;
    assert(v == b0 + 256 * (b1 + 256 * (b2 + 256 * b3)));
    assert(v % 256 == b0 && v / 256 == b1 + 256 * (b2 + 256 * b3));
    assert((v / 256) % 256 == b1 && v / 65536 == b2 + 256 * b3);
    assert((v / 65536) % 256 == b2 && v / 16777216 == b3);
    assert(u32_le(v as u32) =~= b);
}

/// A buffer that begins with a whole frame begins with the bytes of its
/// first frame.
pub proof fn lemma_first_frame_bytes(buf: Seq<u8>)
    requires
        starts_with_frame(buf),
    ensures
        HEADER_SIZE <= first_frame_len(buf) <= buf.len(),
        first_frame(buf).payload.len() <= u32::MAX,
        frame(first_frame(buf).msg_type, first_frame(buf).payload) == buf.take(
            first_frame_len(buf),
        ),
{
    let header = buf.subrange(0, HEADER_SIZE as int);
    let first = first_frame(buf);
    lemma_u32_from_le_roundtrip(header.subrange(1, 5));
    assert(first.payload.len() == u32_from_le(header.subrange(1, 5)));
    assert(frame(first.msg_type, first.payload) =~= buf.take(first_frame_len(buf)));
}

/// Taking frames loses nothing: the frames taken, written out again, and the
/// leftover make up the buffer. The leftover begins with no whole frame.
pub proof fn lemma_frames_rebuild(buf: Seq<u8>)
    ensures
        frames_bytes(whole_frames(buf)) + leftover(buf) == buf,
        !starts_with_frame(leftover(buf)),
    decreases buf.len(),
{
    if starts_with_frame(buf) {
        let n = first_frame_len(buf);
        let first = first_frame(buf);
        let later = whole_frames(buf.skip(n));
        let head = frame(first.msg_type, first.payload);
        lemma_first_frame_bytes(buf);
        lemma_frames_rebuild(buf.skip(n));
        assert(whole_frames(buf) == seq![first] + later);
        assert((seq![first] + later).skip(1) =~= later);
        assert(frames_bytes(whole_frames(buf)) == head + frames_bytes(later));
        assert(leftover(buf) == leftover(buf.skip(n)));
        assert((head + frames_bytes(later)) + leftover(buf.skip(n)) =~= head + (frames_bytes(
            later,
        ) + leftover(buf.skip(n))));
        assert(buf.take(n) + buf.skip(n) =~= buf);
    } else {
        assert(Seq::<u8>::empty() + buf =~= buf);
    }
}

} // verus!
