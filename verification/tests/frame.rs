use bellow::frame::{encode_frame, read_be_u32, write_be_u32, FrameBuffer};

#[test]
fn be_bytes_roundtrip() {
    assert_eq!(write_be_u32(0x0102_0304), vec![1, 2, 3, 4]);
    assert_eq!(read_be_u32(&[0, 0, 1, 0]), 256);
    assert_eq!(read_be_u32(&[0xff, 0xff, 0xff, 0xff]), u32::MAX);
    for n in [0u32, 1, 255, 256, 65535, 1 << 24, u32::MAX - 1] {
        assert_eq!(read_be_u32(&write_be_u32(n)), n);
    }
}

#[test]
fn encode_prefixes_length() {
    assert_eq!(encode_frame(b"hi"), vec![0, 0, 0, 2, b'h', b'i']);
    assert_eq!(encode_frame(b""), vec![0, 0, 0, 0]);
}

#[test]
fn frames_come_back_in_any_chunking() {
    let mut stream = encode_frame(b"{\"id\":1}");
    stream.extend(encode_frame(b""));
    stream.extend(encode_frame(b"second"));
    for chunk in 1..stream.len() + 1 {
        let mut fb = FrameBuffer::new();
        let mut got: Vec<Vec<u8>> = Vec::new();
        for piece in stream.chunks(chunk) {
            fb.extend(piece);
            while let Some(p) = fb.next_frame() {
                got.push(p);
            }
        }
        assert_eq!(got, vec![b"{\"id\":1}".to_vec(), Vec::new(), b"second".to_vec()]);
    }
}

#[test]
fn partial_frame_waits() {
    let mut fb = FrameBuffer::new();
    fb.extend(&[0, 0, 0]);
    assert_eq!(fb.next_frame(), None);
    fb.extend(&[3, b'a', b'b']);
    assert_eq!(fb.next_frame(), None);
    fb.extend(&[b'c', 0]);
    assert_eq!(fb.next_frame(), Some(b"abc".to_vec()));
    assert_eq!(fb.next_frame(), None);
}

#[test]
fn receive_cuts_every_complete_frame_in_any_chunking() {
    let mut stream = encode_frame(b"one");
    stream.extend(encode_frame(b""));
    stream.extend(encode_frame(b"three"));
    let tail = encode_frame(b"unfinished");
    stream.extend_from_slice(&tail[..6]);
    for chunk in 1..stream.len() + 1 {
        let mut fb = FrameBuffer::new();
        let mut got: Vec<Vec<u8>> = Vec::new();
        for piece in stream.chunks(chunk) {
            got.extend(fb.receive(piece));
        }
        assert_eq!(got, vec![b"one".to_vec(), b"".to_vec(), b"three".to_vec()]);
        // the incomplete frame stays buffered and yields nothing
        assert!(fb.receive(&[]).is_empty());
        assert_eq!(fb.next_frame(), None);
    }
}

#[test]
fn receive_completes_a_buffered_frame() {
    let frame = encode_frame(b"abc");
    let mut fb = FrameBuffer::new();
    assert!(fb.receive(&frame[..5]).is_empty());
    assert_eq!(fb.receive(&frame[5..]), vec![b"abc".to_vec()]);
    assert!(fb.receive(&[]).is_empty());
}
