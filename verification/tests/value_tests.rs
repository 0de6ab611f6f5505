use sqlite::{Error, Value};
use sqlite::value::parse_type_code;

#[test]
fn test_type_code_null() {
    let (v, n) = parse_type_code(0, &[0xAA]).unwrap();
    assert_eq!(v, Value::Null);
    assert_eq!(n, 0);
}

#[test]
fn test_type_code_i8() {
    let (v, n) = parse_type_code(1, &[0x02]).unwrap();
    assert_eq!(v, Value::Integer(2));
    assert_eq!(n, 1);
}

#[test]
fn test_type_code_float() {
    let (v, n) = parse_type_code(7, &3.12_f64.to_be_bytes()).unwrap();
    assert_eq!(v, Value::Float(3.12_f64.to_bits()));
    assert_eq!(n, 8);
}

#[test]
fn test_type_code_literals() {
    assert_eq!(parse_type_code(8, &[]).unwrap(), (Value::Integer(0), 0));
    assert_eq!(parse_type_code(9, &[]).unwrap(), (Value::Integer(1), 0));
}

#[test]
fn test_type_code_text() {
    let (v, n) = parse_type_code(23, b"Alice").unwrap();
    assert_eq!(v, Value::Text(String::from("Alice")));
    assert_eq!(n, 5);
}

#[test]
fn test_type_code_text_invalid_utf8_is_replaced() {
    // 0xFF is not valid UTF-8: the decoded text carries the
    // replacement character instead of failing.
    let (v, _) = parse_type_code(15, &[0xFF]).unwrap();
    assert_eq!(v, Value::Text(String::from("\u{FFFD}")));
}

#[test]
fn test_type_code_large_blob() {
    let data = [b'C'; 144];
    let (v, n) = parse_type_code(300, &data).unwrap();
    assert_eq!(v, Value::Blob(vec![b'C'; 144]));
    assert_eq!(n, 144);
}

#[test]
fn test_sign_extension_i24() {
    // 0xFFFFFE as a 3-byte two's-complement value is -2, not 16777214.
    let (v, n) = parse_type_code(3, &[0xFF, 0xFF, 0xFE]).unwrap();
    assert_eq!(v, Value::Integer(-2));
    assert_eq!(n, 3);
}

#[test]
fn test_sign_extension_i48() {
    // A 6-byte two's-complement value with its top bit set is negative.
    let (v, n) = parse_type_code(5, &[0xFF, 0xFF, 0xFF, 0xFF, 0xFF, 0xFE]).unwrap();
    assert_eq!(v, Value::Integer(-2));
    assert_eq!(n, 6);
}

#[test]
fn test_sign_extension_other_widths() {
    assert_eq!(
        parse_type_code(1, &[0x80]).unwrap(),
        (Value::Integer(-128), 1)
    );
    assert_eq!(
        parse_type_code(2, &[0xFF, 0x85]).unwrap(),
        (Value::Integer(-123), 2)
    );
    assert_eq!(
        parse_type_code(4, &[0x80, 0x00, 0x00, 0x00]).unwrap(),
        (Value::Integer(i32::MIN as i64), 4)
    );
    assert_eq!(
        parse_type_code(6, &[0xFF; 8]).unwrap(),
        (Value::Integer(-1), 8)
    );
    assert_eq!(
        parse_type_code(6, &[0x80, 0, 0, 0, 0, 0, 0, 0]).unwrap(),
        (Value::Integer(i64::MIN), 8)
    );
}

#[test]
fn test_type_code_positive_stays_positive() {
    assert_eq!(
        parse_type_code(2, &[0x02, 0x02]).unwrap(),
        (Value::Integer(514), 2)
    );
    assert_eq!(
        parse_type_code(5, &[0x00, 0x00, 0x00, 0x00, 0x02, 0x02]).unwrap(),
        (Value::Integer(514), 6)
    );
}

#[test]
fn test_type_code_unknown() {
    assert_eq!(parse_type_code(10, &[0x00]), Err(Error::FormatError));
    assert_eq!(parse_type_code(11, &[0x00]), Err(Error::FormatError));
}

#[test]
fn test_type_code_truncated() {
    assert_eq!(
        parse_type_code(6, &[0x00, 0x01, 0x02, 0x03]),
        Err(Error::TruncatedCell)
    );
    assert_eq!(parse_type_code(23, b"Ali"), Err(Error::TruncatedCell));
}

#[test]
fn test_as_text_and_as_integer() {
    let t = Value::Text(String::from("hi"));
    assert_eq!(t.as_text(), Some("hi"));
    assert_eq!(t.as_integer(), None);
    let i = Value::Integer(7);
    assert_eq!(i.as_integer(), Some(7));
    assert_eq!(i.as_text(), None);
    assert_eq!(Value::Null.as_text(), None);
    assert_eq!(Value::Null.as_integer(), None);
}
