use pterm::proto::server;
use pterm::proto::{
    decode_header, decode_resize, encode, encode_resize, i32_from_le_bytes, i32_to_le_bytes,
    take_frames, HEADER_SIZE,
};

#[test]
fn roundtrip_encode_decode() {
    let payload = b"hello world";
    let encoded = encode(server::OUTPUT, payload);
    assert_eq!(encoded.len(), HEADER_SIZE + payload.len());

    let header: [u8; HEADER_SIZE] = encoded[..HEADER_SIZE].try_into().unwrap();
    let (msg_type, len) = decode_header(&header);
    assert_eq!(msg_type, server::OUTPUT);
    assert_eq!(len as usize, payload.len());
    assert_eq!(&encoded[HEADER_SIZE..], payload);
}

#[test]
fn roundtrip_resize() {
    let buf = encode_resize(120, 40);
    let (cols, rows) = decode_resize(&buf);
    assert_eq!(cols, 120);
    assert_eq!(rows, 40);
}

#[test]
fn encode_hello_world_literal() {
    let encoded = encode(0x01, b"hello world");
    assert_eq!(
        encoded,
        vec![
            0x01, 0x0B, 0x00, 0x00, 0x00, 0x68, 0x65, 0x6C, 0x6C, 0x6F, 0x20, 0x77, 0x6F, 0x72,
            0x6C, 0x64
        ]
    );
}

#[test]
fn encode_empty_payload_keeps_length_field() {
    assert_eq!(encode(0x03, b""), vec![0x03, 0, 0, 0, 0]);
}

#[test]
fn encode_length_is_little_endian() {
    let payload = vec![7u8; 0x0102_03];
    let encoded = encode(0x80, &payload);
    assert_eq!(&encoded[..HEADER_SIZE], &[0x80, 0x03, 0x02, 0x01, 0x00]);
    assert_eq!(encoded.len(), HEADER_SIZE + 0x0102_03);
}

#[test]
fn decode_header_accepts_unknown_type() {
    let (msg_type, len) = decode_header(&[0xfe, 0x78, 0x56, 0x34, 0x12]);
    assert_eq!(msg_type, 0xfe);
    assert_eq!(len, 0x1234_5678);
}

#[test]
fn decode_header_reads_largest_length() {
    let (_, len) = decode_header(&[0x01, 0xff, 0xff, 0xff, 0xff]);
    assert_eq!(len, u32::MAX);
}

#[test]
fn resize_payload_layout() {
    assert_eq!(encode_resize(132, 50), [132, 0, 50, 0]);
    assert_eq!(encode_resize(0x1234, 0xabcd), [0x34, 0x12, 0xcd, 0xab]);
    assert_eq!(decode_resize(&[0x34, 0x12, 0xcd, 0xab]), (0x1234, 0xabcd));
}

#[test]
fn resize_roundtrip_at_the_edges() {
    for (cols, rows) in [(0u16, 0u16), (65535, 65535), (0, 65535), (65535, 0), (255, 256)] {
        assert_eq!(decode_resize(&encode_resize(cols, rows)), (cols, rows));
    }
}

#[test]
fn exit_code_bytes_match_std() {
    for code in [0i32, 7, 127, 128 + 9, 255, -1, i32::MIN, i32::MAX, -123456] {
        assert_eq!(i32_to_le_bytes(code), code.to_le_bytes());
        assert_eq!(i32_from_le_bytes(&code.to_le_bytes()), code);
    }
}

#[test]
fn take_frames_splits_whole_frames() {
    let mut buf = encode(0x01, b"ab");
    buf.extend_from_slice(&encode(0x03, b""));
    buf.extend_from_slice(&encode(0x02, &[80, 0, 24, 0]));
    let frames = take_frames(&mut buf);
    assert!(buf.is_empty());
    assert_eq!(frames.len(), 3);
    assert_eq!((frames[0].msg_type, frames[0].payload.as_slice()), (0x01, &b"ab"[..]));
    assert_eq!((frames[1].msg_type, frames[1].payload.as_slice()), (0x03, &b""[..]));
    assert_eq!(
        (frames[2].msg_type, frames[2].payload.as_slice()),
        (0x02, &[80u8, 0, 24, 0][..])
    );
}

#[test]
fn take_frames_keeps_partial_frame() {
    let whole = encode(0x01, b"hello");
    let mut buf = encode(0x01, b"x");
    buf.extend_from_slice(&whole[..7]);
    let frames = take_frames(&mut buf);
    assert_eq!(frames.len(), 1);
    assert_eq!(frames[0].payload, b"x");
    assert_eq!(buf, &whole[..7]);

    buf.extend_from_slice(&whole[7..]);
    let frames = take_frames(&mut buf);
    assert_eq!(frames.len(), 1);
    assert_eq!(frames[0].payload, b"hello");
    assert!(buf.is_empty());
}

#[test]
fn take_frames_keeps_partial_header() {
    let mut buf = vec![0x01, 0x05, 0x00];
    let frames = take_frames(&mut buf);
    assert!(frames.is_empty());
    assert_eq!(buf, vec![0x01, 0x05, 0x00]);
}

#[test]
fn take_frames_byte_by_byte_equals_all_at_once() {
    let mut wire = encode(0x01, b"one");
    wire.extend_from_slice(&encode(0x7f, b""));
    wire.extend_from_slice(&encode(0x02, b"three"));
    wire.extend_from_slice(&[0x01, 0x09]);

    let mut all = wire.clone();
    let expected: Vec<(u8, Vec<u8>)> =
        take_frames(&mut all).into_iter().map(|f| (f.msg_type, f.payload)).collect();

    let mut buf = Vec::new();
    let mut seen = Vec::new();
    for b in &wire {
        buf.push(*b);
        for f in take_frames(&mut buf) {
            seen.push((f.msg_type, f.payload));
        }
    }
    assert_eq!(seen, expected);
    assert_eq!(buf, all);
    assert_eq!(buf, vec![0x01, 0x09]);
}
