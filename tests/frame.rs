use mc_gateway::frame::{read_frame, write_frame, FrameError, MAX_PACKET_LEN};

#[test]
fn frame_round_trip_sizes() {
    for len in [0usize, 1, 127, 128, 300, 16384, MAX_PACKET_LEN] {
        let payload: Vec<u8> = (0..len).map(|i| (i % 251) as u8).collect();
        let framed = write_frame(&payload);
        let (back, used) = read_frame(&framed).unwrap().unwrap();
        assert_eq!(back, payload);
        assert_eq!(used, framed.len());
    }
}

#[test]
fn frame_known_bytes() {
    assert_eq!(write_frame(&[0x00]), vec![0x01, 0x00]);
    assert_eq!(write_frame(&[]), vec![0x00]);
}

#[test]
fn frame_followed_by_more_data() {
    let mut stream = write_frame(&[1, 2, 3]);
    stream.extend_from_slice(&[0x02, 9, 9]);
    let (payload, used) = read_frame(&stream).unwrap().unwrap();
    assert_eq!(payload, vec![1, 2, 3]);
    assert_eq!(used, 4);
    let (payload2, used2) = read_frame(&stream[used..]).unwrap().unwrap();
    assert_eq!(payload2, vec![9, 9]);
    assert_eq!(used2, 3);
}

#[test]
fn frame_incomplete() {
    assert_eq!(read_frame(&[]), Ok(None));
    assert_eq!(read_frame(&[0x05, 1, 2]), Ok(None));
    assert_eq!(read_frame(&[0x80]), Ok(None));
}

#[test]
fn frame_bad_length() {
    assert_eq!(read_frame(&[0x80, 0x80, 0x80, 0x80, 0x80, 0x00]), Err(FrameError::MalformedLength));
    assert_eq!(read_frame(&[0xff, 0xff, 0xff, 0xff, 0x0f, 0x00]), Err(FrameError::NegativeLength));
}
