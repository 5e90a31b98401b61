use mc_gateway::varint::{encode_var_int, read_var_int_at, VarIntRead, MAX_VAR_INT_LEN};

#[test]
fn var_int_known_encodings() {
    let cases: Vec<(i32, Vec<u8>)> = vec![
        (0, vec![0x00]),
        (1, vec![0x01]),
        (127, vec![0x7f]),
        (128, vec![0x80, 0x01]),
        (255, vec![0xff, 0x01]),
        (25565, vec![0xdd, 0xc7, 0x01]),
        (2097151, vec![0xff, 0xff, 0x7f]),
        (2147483647, vec![0xff, 0xff, 0xff, 0xff, 0x07]),
        (-1, vec![0xff, 0xff, 0xff, 0xff, 0x0f]),
        (-2147483648, vec![0x80, 0x80, 0x80, 0x80, 0x08]),
    ];
    for (v, bytes) in cases {
        assert_eq!(encode_var_int(v), bytes, "encoding of {}", v);
    }
}

#[test]
fn var_int_round_trip_values() {
    for v in [0, 1, -1, 127, 128, 300, 757, 25565, i32::MAX, i32::MIN, -300, 1 << 28] {
        let bytes = encode_var_int(v);
        assert!(bytes.len() >= 1 && bytes.len() <= MAX_VAR_INT_LEN);
        assert_eq!(read_var_int_at(&bytes, 0), VarIntRead::Value { value: v, len: bytes.len() });
        let mut padded = bytes.clone();
        padded.extend_from_slice(&[0xaa, 0xbb]);
        assert_eq!(read_var_int_at(&padded, 0), VarIntRead::Value { value: v, len: bytes.len() });
    }
}

#[test]
fn var_int_read_at_offset() {
    let data = vec![0x09, 0xdd, 0xc7, 0x01, 0x05];
    assert_eq!(read_var_int_at(&data, 1), VarIntRead::Value { value: 25565, len: 3 });
    assert_eq!(read_var_int_at(&data, 4), VarIntRead::Value { value: 5, len: 1 });
    assert_eq!(read_var_int_at(&data, 5), VarIntRead::Truncated);
}

#[test]
fn var_int_overlong_is_rejected() {
    let data = vec![0x80, 0x80, 0x80, 0x80, 0x80, 0x01];
    assert_eq!(read_var_int_at(&data, 0), VarIntRead::Overlong);
}

#[test]
fn var_int_truncated() {
    assert_eq!(read_var_int_at(&[], 0), VarIntRead::Truncated);
    assert_eq!(read_var_int_at(&[0x80, 0x80], 0), VarIntRead::Truncated);
}

#[test]
fn var_int_fifth_byte_high_bits_are_dropped() {
    // The fifth byte carries bits 28 and up; what does not fit in 32 bits is lost.
    let data = vec![0xff, 0xff, 0xff, 0xff, 0x7f];
    assert_eq!(read_var_int_at(&data, 0), VarIntRead::Value { value: -1, len: 5 });
}
