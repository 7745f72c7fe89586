use lansend::framing::{decode_frame, encode_frame, length_prefix, payload_len, FrameError};

#[test]
fn length_prefix_is_big_endian() {
    assert_eq!(length_prefix(0), [0, 0, 0, 0]);
    assert_eq!(length_prefix(5), [0, 0, 0, 5]);
    assert_eq!(length_prefix(0x0102_0304), [1, 2, 3, 4]);
    assert_eq!(length_prefix(u32::MAX), [255, 255, 255, 255]);
    assert_eq!(length_prefix(0x0102_0304), 0x0102_0304u32.to_be_bytes());
}

#[test]
fn payload_len_reads_big_endian() {
    assert_eq!(payload_len(&[0, 0, 0, 0]), 0);
    assert_eq!(payload_len(&[0, 0, 1, 0]), 256);
    assert_eq!(payload_len(&[1, 2, 3, 4]), 0x0102_0304);
    assert_eq!(payload_len(&[255, 255, 255, 255]), u32::MAX);
    assert_eq!(payload_len(&[9, 8, 7, 6]), u32::from_be_bytes([9, 8, 7, 6]));
}

#[test]
fn encode_frame_prefixes_the_payload() {
    let framed = encode_frame(&b"hello".to_vec()).unwrap();
    assert_eq!(framed, vec![0, 0, 0, 5, b'h', b'e', b'l', b'l', b'o']);
    assert_eq!(encode_frame(&Vec::new()).unwrap(), vec![0, 0, 0, 0]);
}

#[test]
fn encode_frame_of_three_hundred_bytes_carries_into_the_second_byte() {
    let payload = vec![7u8; 300];
    let framed = encode_frame(&payload).unwrap();
    assert_eq!(&framed[..4], &[0, 0, 1, 44]);
    assert_eq!(&framed[4..], &payload[..]);
}

#[test]
fn decode_frame_returns_payload_and_bytes_used() {
    let stream = vec![0, 0, 0, 2, b'o', b'k', 0, 0, 0, 9];
    let (payload, used) = decode_frame(&stream).unwrap();
    assert_eq!(payload, b"ok".to_vec());
    assert_eq!(used, 6);
}

#[test]
fn decode_frame_of_an_empty_payload_uses_the_prefix_only() {
    let (payload, used) = decode_frame(&vec![0, 0, 0, 0, 42]).unwrap();
    assert!(payload.is_empty());
    assert_eq!(used, 4);
}

#[test]
fn decode_frame_without_a_whole_prefix_is_connection_closed() {
    assert_eq!(decode_frame(&Vec::new()), Err(FrameError::ConnectionClosed));
    assert_eq!(decode_frame(&vec![0, 0, 0]), Err(FrameError::ConnectionClosed));
}

#[test]
fn decode_frame_with_a_truncated_payload_is_short_read() {
    assert_eq!(decode_frame(&vec![0, 0, 0, 5, b'h', b'e']), Err(FrameError::ShortRead));
    assert_eq!(decode_frame(&vec![0, 0, 0, 1]), Err(FrameError::ShortRead));
    assert_eq!(decode_frame(&vec![255, 255, 255, 255, 1, 2, 3]), Err(FrameError::ShortRead));
}

#[test]
fn frames_round_trip_whatever_follows() {
    let payloads: [&[u8]; 4] = [b"", b"a", b"{\"relative_path\":\"a.txt\"}", &[0u8; 1000]];
    for payload in payloads {
        let mut stream = encode_frame(&payload.to_vec()).unwrap();
        stream.extend_from_slice(b"next frame");
        let (back, used) = decode_frame(&stream).unwrap();
        assert_eq!(back, payload.to_vec());
        assert_eq!(used, 4 + payload.len());
    }
}
