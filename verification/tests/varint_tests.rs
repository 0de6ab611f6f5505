use sqlite::{encode_varint, parse_varint, Error};

#[test]
fn test_parse_varint() {
    let result = parse_varint(&[0x82, 0x2C]);
    assert_eq!(result.unwrap(), (300, 2));
}

#[test]
fn test_parse_varint_zero() {
    let result = parse_varint(&[0x00]);
    assert_eq!(result.unwrap(), (0, 1));
}

#[test]
fn test_parse_varint_large() {
    // 16384 = 0x4000, encoded as [0x81, 0x80, 0x00]
    let result = parse_varint(&[0x81, 0x80, 0x00]);
    assert_eq!(result.unwrap(), (16384, 3));
}

#[test]
fn test_parse_varint_ignores_trailing_bytes() {
    let result = parse_varint(&[0x07, 0xFF, 0xFF]);
    assert_eq!(result.unwrap(), (7, 1));
}

#[test]
fn test_parse_varint_nine_bytes_full_range() {
    // Eight continuation bytes of all-ones data plus a full final byte
    // reach the whole 64-bit range.
    let bytes = [0xFF, 0xFF, 0xFF, 0xFF, 0xFF, 0xFF, 0xFF, 0xFF, 0xFF];
    let result = parse_varint(&bytes);
    assert_eq!(result.unwrap(), (u64::MAX, 9));
}

#[test]
fn test_parse_varint_truncated_empty() {
    assert_eq!(parse_varint(&[]), Err(Error::TruncatedVarint));
}

#[test]
fn test_parse_varint_truncated_continuation() {
    assert_eq!(parse_varint(&[0x80]), Err(Error::TruncatedVarint));
    assert_eq!(
        parse_varint(&[0xFF, 0xFF, 0xFF, 0xFF]),
        Err(Error::TruncatedVarint)
    );
}

#[test]
fn test_varint_round_trip() {
    let samples: [u64; 14] = [
        0,
        1,
        127,
        128,
        300,
        16383,
        16384,
        65535,
        1 << 21,
        (1 << 28) - 1,
        (1 << 56) - 1,
        1 << 56,
        1 << 63,
        u64::MAX,
    ];
    for &v in samples.iter() {
        let encoded = encode_varint(v);
        assert!(1 <= encoded.len() && encoded.len() <= 9);
        let (decoded, consumed) = parse_varint(&encoded).unwrap();
        assert_eq!(decoded, v);
        assert_eq!(consumed, encoded.len());
    }
}

#[test]
fn test_encode_varint_boundaries() {
    assert_eq!(encode_varint(0), vec![0x00]);
    assert_eq!(encode_varint(127), vec![0x7F]);
    assert_eq!(encode_varint(128), vec![0x81, 0x00]);
    assert_eq!(encode_varint(300), vec![0x82, 0x2C]);
    assert_eq!(encode_varint(16384), vec![0x81, 0x80, 0x00]);
    assert_eq!(encode_varint(u64::MAX).len(), 9);
}
