use bytes::BufMut;
use rust_journey::kv::stream::ProstStream;

#[test]
fn sending_queues_a_frame_until_it_is_written() {
    let mut s = ProstStream::<Vec<u8>, (), ()>::new(Vec::new());
    assert!(!s.has_unwritten());
    s.start_send(b"abc").unwrap();
    assert!(s.has_unwritten());
    assert_eq!(s.unwritten(), &[0, 0, 0, 3, b'a', b'b', b'c']);
    s.record_written(5);
    assert_eq!(s.unwritten(), b"bc");
    s.record_written(2);
    assert!(!s.has_unwritten());
    s.finish_flush();
    assert!(!s.has_unwritten());
    assert_eq!(s.unwritten(), b"");
}

#[test]
fn a_read_frame_is_decoded_and_the_buffer_emptied() {
    let mut s = ProstStream::<Vec<u8>, (), ()>::new(Vec::new());
    let mut rest = s.take_read_buffer();
    assert!(rest.is_empty());
    rest.put_u32(2);
    rest.put_slice(b"ok");
    assert_eq!(s.decode_read_frame(rest).unwrap(), b"ok");
    let again = s.take_read_buffer();
    assert!(again.is_empty());
}

#[test]
fn the_inner_stream_is_kept() {
    let s = ProstStream::<Vec<u8>, (), ()>::new(vec![1, 2, 3]);
    assert_eq!(s.stream, vec![1, 2, 3]);
}
