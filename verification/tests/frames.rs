use bytes::{BufMut, BytesMut};
use rust_journey::kv::error::KvError;
use rust_journey::kv::buffer::buffer_len;
use rust_journey::kv::frame::{
    append_compressed_frame, decode_frame, decode_header, encode_frame, holds_whole_frame,
    keep_undecoded_payload, prepare_frame_read, COMPRESSION_LIMIT,
};

fn is_compressed(data: &[u8]) -> bool {
    if let &[v] = &data[..1] {
        v >> 7 == 1
    } else {
        false
    }
}

#[test]
fn command_request_encode_decode_should_work() {
    let mut buf = BytesMut::new();
    let msg: Vec<u8> = vec![0x22, 0x08, 0x0a, 0x02, b't', b'1', 0x12, 0x02, b'k', b'1'];
    encode_frame(&msg, &mut buf).unwrap();

    assert_eq!(is_compressed(&buf), false);

    let msg1 = decode_frame(&mut buf).unwrap();
    assert_eq!(msg, msg1);
}

#[test]
fn command_response_encode_decode_should_work() {
    let mut buf = BytesMut::new();
    let msg: Vec<u8> = b"\x08\xc8\x01\x1a\x07\x0a\x05hello\x1a\x06\x12\x04data".to_vec();
    encode_frame(&msg, &mut buf).unwrap();

    assert_eq!(is_compressed(&buf), false);

    let msg1 = decode_frame(&mut buf).unwrap();
    assert_eq!(msg, msg1);
}

#[test]
fn command_response_compressed_encode_decode_should_work() {
    let mut buf = BytesMut::new();
    let msg = vec![0u8; COMPRESSION_LIMIT + 1];
    encode_frame(&msg, &mut buf).unwrap();

    assert_eq!(is_compressed(&buf), true);

    let msg1 = decode_frame(&mut buf).unwrap();
    assert_eq!(msg, msg1);
    assert!(buf.is_empty());
}

#[test]
fn short_frame_is_length_then_message() {
    let mut buf = BytesMut::new();
    encode_frame(b"abc", &mut buf).unwrap();
    assert_eq!(&buf[..], &[0, 0, 0, 3, b'a', b'b', b'c']);
}

#[test]
fn frame_at_the_compression_limit_is_not_compressed() {
    let mut buf = BytesMut::new();
    let msg = vec![7u8; COMPRESSION_LIMIT];
    encode_frame(&msg, &mut buf).unwrap();
    assert_eq!(buf.len(), 4 + COMPRESSION_LIMIT);
    assert_eq!(&buf[..4], &[0, 0, 0x05, 0x9c]);
}

#[test]
fn compressed_frame_is_shorter_than_the_message() {
    let mut buf = BytesMut::new();
    let msg = vec![1u8; 10_000];
    encode_frame(&msg, &mut buf).unwrap();
    let header = u32::from_be_bytes([buf[0], buf[1], buf[2], buf[3]]) as usize;
    let (len, compressed) = decode_header(header);
    assert!(compressed);
    assert_eq!(len, buf.len() - 4);
    assert!(len < msg.len());
    assert_eq!(decode_frame(&mut buf).unwrap(), msg);
}

#[test]
fn two_frames_decode_in_order() {
    let mut buf = BytesMut::new();
    encode_frame(b"one", &mut buf).unwrap();
    encode_frame(b"second", &mut buf).unwrap();
    assert_eq!(decode_frame(&mut buf).unwrap(), b"one");
    assert_eq!(decode_frame(&mut buf).unwrap(), b"second");
    assert!(buf.is_empty());
}

#[test]
fn decode_header_splits_length_and_flag() {
    assert_eq!(decode_header(0x8000_0010), (0x10, true));
    assert_eq!(decode_header(0x7fff_ffff), (0x7fff_ffff, false));
    assert_eq!(decode_header(0), (0, false));
}

#[test]
fn a_bad_compressed_payload_is_an_io_error() {
    let mut buf = BytesMut::new();
    buf.put_u32(0x8000_0003);
    buf.put_slice(b"xyz");
    buf.put_slice(b"tail");
    assert_eq!(decode_frame(&mut buf), Err(KvError::IoError));
    assert_eq!(&buf[..], b"xyztail");
}

#[test]
fn decode_leaves_what_follows_the_frame() {
    let mut buf = BytesMut::new();
    buf.put_u32(2);
    buf.put_slice(b"hi!!");
    assert_eq!(decode_frame(&mut buf).unwrap(), b"hi");
    assert_eq!(&buf[..], b"!!");
}

#[test]
fn whole_frames_are_recognised() {
    let mut buf = BytesMut::new();
    assert!(!holds_whole_frame(&buf));
    buf.put_u32(3);
    buf.put_slice(b"ab");
    assert!(!holds_whole_frame(&buf));
    buf.put_slice(b"c");
    assert!(holds_whole_frame(&buf));
    let mut big = BytesMut::new();
    big.put_u32(0x8000_0001);
    assert!(!holds_whole_frame(&big));
    big.put_slice(b"z");
    assert!(holds_whole_frame(&big));
}

#[test]
fn compressed_header_announces_the_payload_length() {
    let mut buf = BytesMut::new();
    let msg = vec![0u8; COMPRESSION_LIMIT + 1];
    assert_eq!(encode_frame(&msg, &mut buf), Ok(()));
    assert_eq!(buf[0] >> 7, 1);
    let h = u32::from_be_bytes([buf[0], buf[1], buf[2], buf[3]]);
    assert_eq!((h & 0x7FFF_FFFF) as usize, buf.len() - 4);
    assert!(buf.len() - 4 < COMPRESSION_LIMIT + 1);
}

#[test]
fn a_compressed_frame_is_appended_after_what_the_buffer_held() {
    let mut buf = BytesMut::new();
    encode_frame(b"first", &mut buf).unwrap();
    let held = buf.len();
    let msg = vec![9u8; COMPRESSION_LIMIT + 100];
    encode_frame(&msg, &mut buf).unwrap();
    let mut alone = BytesMut::new();
    encode_frame(&msg, &mut alone).unwrap();
    assert_eq!(&buf[held..], &alone[..]);
    assert_eq!(decode_frame(&mut buf).unwrap(), b"first");
    assert_eq!(decode_frame(&mut buf).unwrap(), msg);
    assert!(buf.is_empty());
}

#[test]
fn a_compressed_frame_after_a_nonzero_byte_keeps_it() {
    let mut buf = BytesMut::new();
    buf.put_slice(&[0, 1, 2, 3, 4]);
    let msg = vec![0u8; COMPRESSION_LIMIT + 1];
    encode_frame(&msg, &mut buf).unwrap();
    assert_eq!(&buf[..5], &[0, 1, 2, 3, 4]);
    assert_eq!(buf[5] >> 7, 1);
}

#[test]
fn append_compressed_frame_puts_the_length_and_flag_in_front() {
    let mut buf = BytesMut::new();
    buf.put_slice(b"x");
    append_compressed_frame(&mut buf, BytesMut::from(&b"gz"[..])).unwrap();
    assert_eq!(&buf[..], &[b'x', 0x80, 0, 0, 2, b'g', b'z']);
}

#[test]
fn prepare_frame_read_makes_room_after_the_header() {
    let mut buf = BytesMut::new();
    buf.put_slice(b"ab");
    let start = prepare_frame_read(&mut buf, 0x8000_0003);
    assert_eq!(start, 6);
    assert_eq!(&buf[..], &[b'a', b'b', 0x80, 0, 0, 3, 0, 0, 0]);
    assert_eq!(buffer_len(&buf), 9);
}

#[test]
fn an_undecoded_plain_payload_goes_back_in_front() {
    let mut buf = BytesMut::new();
    buf.put_slice(b"rest");
    keep_undecoded_payload(&mut buf, false, b"pay", true);
    assert_eq!(&buf[..], b"rest");
    keep_undecoded_payload(&mut buf, true, b"pay", false);
    assert_eq!(&buf[..], b"rest");
    keep_undecoded_payload(&mut buf, false, b"pay", false);
    assert_eq!(&buf[..], b"payrest");
}
