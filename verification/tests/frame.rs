use rori_utils::data::{DecodeError, RoriData};
use rori_utils::endpoint::process_incoming;
use rori_utils::frame::FrameBuffer;

#[test]
fn two_reads_of_600_bytes_lose_nothing() {
    let sent = vec![b'a'; 600];
    let mut buffer = FrameBuffer::new();
    // a 512-byte read buffer fills once and then carries 88 more bytes
    buffer.push_chunk(&sent[..512], 512);
    buffer.push_chunk(&sent[512..], 88);
    let text = buffer.finish().unwrap();
    assert_eq!(text.len(), 600);
    assert!(text.bytes().all(|b| b == b'a'));
}

#[test]
fn short_read_keeps_prefix_of_chunk() {
    let chunk = *b"hello world";
    let mut buffer = FrameBuffer::new();
    buffer.push_chunk(&chunk, 5);
    assert_eq!(buffer.finish().unwrap(), "hello");
}

#[test]
fn message_ends_at_first_nul() {
    let mut buffer = FrameBuffer::new();
    let bytes = b"hello\0world";
    buffer.push_chunk(bytes, bytes.len());
    assert_eq!(buffer.finish().unwrap(), "hello");
}

#[test]
fn invalid_utf8_is_malformed() {
    let mut buffer = FrameBuffer::new();
    let bytes = [0xffu8, 0xfe, 0x41];
    buffer.push_chunk(&bytes, 3);
    assert_eq!(buffer.finish(), Err(DecodeError::MalformedInput));
}

#[test]
fn multibyte_sequence_split_across_chunks() {
    let text = "caf\u{e9} \u{2764}";
    let bytes = text.as_bytes();
    let mut buffer = FrameBuffer::new();
    // split inside the two-byte sequence of the accented character
    buffer.push_chunk(&bytes[..4], 4);
    buffer.push_chunk(&bytes[4..], bytes.len() - 4);
    assert_eq!(buffer.finish().unwrap(), text);
}

#[test]
fn connection_bytes_reach_the_queue() {
    // what the outbound client writes for one message ...
    let payload = RoriData::new(
        String::from("u"),
        String::from("hi"),
        String::from("c"),
        String::from("text"),
        String::new(),
    )
    .to_string();
    let wire = payload.as_bytes();
    // ... arrives in 512-byte reads, is reassembled, decoded and enqueued
    let mut buffer = FrameBuffer::new();
    let mut sent: usize = 0;
    while sent < wire.len() {
        let n = (wire.len() - sent).min(512);
        buffer.push_chunk(&wire[sent..sent + n], n);
        sent += n;
    }
    let blob = buffer.finish().unwrap();
    let mut queue: Vec<String> = Vec::new();
    assert!(process_incoming(blob, &mut queue).is_ok());
    assert_eq!(queue, vec![String::from("hi")]);
}
