use luminmq::codec::{read_str, read_u16, read_u32, read_varint, write_str, write_u16, write_u32, write_varint, CodecError};

#[test]
fn varint_forms() {
    let mut out = Vec::new();
    write_varint(&mut out, 7);
    assert_eq!(out, vec![7]);
    let mut out = Vec::new();
    write_varint(&mut out, 250);
    assert_eq!(out, vec![250]);
    let mut out = Vec::new();
    write_varint(&mut out, 251);
    assert_eq!(out, vec![251, 251, 0]);
    let mut out = Vec::new();
    write_varint(&mut out, 70000);
    assert_eq!(out, vec![252, 0x70, 0x11, 0x01, 0x00]);
    let mut out = Vec::new();
    write_varint(&mut out, 1u64 << 40);
    assert_eq!(out, vec![253, 0, 0, 0, 0, 0, 1, 0, 0]);
    assert_eq!(read_varint(&out, 0), Ok((1u64 << 40, 9)));
}

#[test]
fn integers_are_little_endian() {
    let mut out = Vec::new();
    write_u16(&mut out, 0x0102);
    write_u32(&mut out, 0x0A0B0C0D);
    assert_eq!(out, vec![0x02, 0x01, 0x0D, 0x0C, 0x0B, 0x0A]);
    assert_eq!(read_u16(&out, 0), Ok((0x0102, 2)));
    assert_eq!(read_u32(&out, 2), Ok((0x0A0B0C0D, 6)));
    assert_eq!(read_u32(&out, 3), Err(CodecError::UnexpectedEnd));
}

#[test]
fn string_round_trip_including_empty_and_unicode() {
    for s in ["", "hello", "héllo ✨"] {
        let mut out = Vec::new();
        write_str(&mut out, s);
        assert_eq!(out[0] as usize, s.len());
        let (back, pos) = read_str(&out, 0).unwrap();
        assert_eq!(back, s);
        assert_eq!(pos, out.len());
    }
}

#[test]
fn string_matches_bincode_standard_encoding() {
    let s = "luminmq".to_string();
    let mut out = Vec::new();
    write_str(&mut out, &s);
    let theirs = bincode::encode_to_vec(&s, bincode::config::standard()).unwrap();
    assert_eq!(out, theirs);
}

#[test]
fn string_errors() {
    assert_eq!(read_str(&[], 0), Err(CodecError::UnexpectedEnd));
    assert_eq!(read_str(&[3, b'a'], 0), Err(CodecError::UnexpectedEnd));
    assert_eq!(read_str(&[255], 0), Err(CodecError::InvalidTag));
    assert_eq!(read_str(&[2, 0xC3, 0x28], 0), Err(CodecError::InvalidUtf8));
    assert_eq!(read_str(&[252, 1, 0, 0, 1], 0), Err(CodecError::LimitExceeded));
}
