use sqlite::cell::{parse_interior_cell, parse_leaf_cell, Cell};
use sqlite::Value;

#[test]
fn test_parse_interior_cell() {
    let mut fake_page = vec![0u8; 1024];
    // cell pointer array entry at 12..14 pointing at offset 900, which
    // is byte 800 of this buffer once the 100-byte header shift is
    // taken off
    fake_page[12] = 0x03;
    fake_page[13] = 0x84;

    // first four bytes of the cell: child page number 3
    fake_page[800] = 0x00;
    fake_page[801] = 0x00;
    fake_page[802] = 0x00;
    fake_page[803] = 0x03;

    // then a varint rowid: these two bytes encode 300
    fake_page[804] = 0x82;
    fake_page[805] = 0x2C;

    let target_cell = Cell {
        child_page_number: 3,
        rowid: 300,
    };

    let result = parse_interior_cell(800, &fake_page).unwrap();

    assert_eq!(result.child_page_number, target_cell.child_page_number);
    assert_eq!(result.rowid, target_cell.rowid);
}

#[test]
fn test_parse_cell() {
    // An interior page held in a buffer without the 100-byte file
    // header: the pointer array entry at 12..14 holds 900, so cell
    // offsets are shifted down by the header size.
    let mut fake_page = vec![0u8; 1024 - 100];
    fake_page[12] = 0x03;
    fake_page[13] = 0x84;

    fake_page[800] = 0x00;
    fake_page[801] = 0x00;
    fake_page[802] = 0x00;
    fake_page[803] = 0x03;

    fake_page[804] = 0x82;
    fake_page[805] = 0x2C;

    let target_cell = Cell {
        child_page_number: 3,
        rowid: 300,
    };

    let pointer = u16::from_be_bytes([fake_page[12], fake_page[13]]) as usize - 100;
    let result = parse_interior_cell(pointer, &fake_page).unwrap();

    assert_eq!(result.child_page_number, target_cell.child_page_number);
    assert_eq!(result.rowid, target_cell.rowid);
}

#[test]
fn test_parse_leaf_cell_i8() {
    let mut fake_page = [0u8; 1024];
    fake_page[300..305].copy_from_slice(&[
        0x03, // payload_size = 3
        0x01, // rowid = 1
        0x02, // header_size = 2
        0x01, // type_code = 1 (i8)
        0x02, // value = 2
    ]);

    let result = parse_leaf_cell(300, &fake_page).unwrap();
    assert_eq!(result.rowid, 1);
    assert_eq!(result.values, vec![Value::Integer(2)]);
}

#[test]
fn test_parse_leaf_cell_i16() {
    let mut fake_page = [0u8; 1024];
    fake_page[300..306].copy_from_slice(&[
        0x04, // payload_size = 4
        0x01, // rowid = 1
        0x02, // header_size = 2
        0x02, // type_code = 2 (i16)
        0x02, 0x02, // value = 514
    ]);

    let result = parse_leaf_cell(300, &fake_page).unwrap();
    assert_eq!(result.rowid, 1);
    assert_eq!(result.values, vec![Value::Integer(514)]);
}

#[test]
fn test_parse_leaf_cell_i24() {
    let mut fake_page = [0u8; 1024];
    fake_page[300..307].copy_from_slice(&[
        0x05, // payload_size = 5
        0x01, // rowid = 1
        0x02, // header_size = 2
        0x03, // type_code = 3 (i24)
        0x00, 0x02, 0x02, // value = 514
    ]);

    let result = parse_leaf_cell(300, &fake_page).unwrap();
    assert_eq!(result.rowid, 1);
    assert_eq!(result.values, vec![Value::Integer(514)]);
}

#[test]
fn test_parse_leaf_cell_i32() {
    let mut fake_page = [0u8; 1024];
    fake_page[300..308].copy_from_slice(&[
        0x06, // payload_size = 6
        0x01, // rowid = 1
        0x02, // header_size = 2
        0x04, // type_code = 4 (i32)
        0x00, 0x00, 0x02, 0x02, // value = 514
    ]);

    let result = parse_leaf_cell(300, &fake_page).unwrap();
    assert_eq!(result.rowid, 1);
    assert_eq!(result.values, vec![Value::Integer(514)]);
}

#[test]
fn test_parse_leaf_cell_i48() {
    let mut fake_page = [0u8; 1024];
    fake_page[300..310].copy_from_slice(&[
        0x08, // payload_size = 8
        0x01, // rowid = 1
        0x02, // header_size = 2
        0x05, // type_code = 5 (i48)
        0x00, 0x00, 0x00, 0x00, 0x02, 0x02, // value = 514
    ]);

    let result = parse_leaf_cell(300, &fake_page).unwrap();
    assert_eq!(result.rowid, 1);
    assert_eq!(result.values, vec![Value::Integer(514)]);
}

#[test]
fn test_parse_leaf_cell_i64() {
    let mut fake_page = [0u8; 1024];
    fake_page[300..312].copy_from_slice(&[
        0x0A, // payload_size = 10
        0x01, // rowid = 1
        0x02, // header_size = 2
        0x06, // type_code = 6 (i64)
        0x00, 0x00, 0x00, 0x00, 0x00, 0x00, 0x02, 0x02, // value = 514
    ]);

    let result = parse_leaf_cell(300, &fake_page).unwrap();
    assert_eq!(result.rowid, 1);
    assert_eq!(result.values, vec![Value::Integer(514)]);
}

#[test]
fn test_parse_leaf_cell_blob() {
    let mut fake_page = [0u8; 1024];
    // payload = header(3) + blob(144) = 147
    fake_page[300..306].copy_from_slice(&[
        0x81, 0x13, // payload_size = 147 (varint: 2 bytes)
        0x01, // rowid = 1
        0x03, // header_size = 3
        0x82, 0x2C, // varint type_code = 300: a blob of (300-12)/2 = 144 bytes
    ]);
    fake_page[306..450].fill(b'C');

    let result = parse_leaf_cell(300, &fake_page).unwrap();
    assert_eq!(result.rowid, 1);
    assert_eq!(result.values, vec![Value::Blob(vec![b'C'; 144])]);
}

#[test]
fn test_parse_leaf_cell_multiple_values() {
    let mut fake_page = [0u8; 1024];
    fake_page[300..308].copy_from_slice(&[
        0x06, // payload_size = 6
        0x01, // rowid = 1
        0x03, // header_size = 3
        0x01, // type_code = 1 (i8)
        0x02, // type_code = 2 (i16)
        0x02, // value = 2
        0x02, 0x02, // value = 514
    ]);

    let result = parse_leaf_cell(300, &fake_page).unwrap();
    assert_eq!(result.rowid, 1);
    assert_eq!(result.values, vec![Value::Integer(2), Value::Integer(514)]);
}

#[test]
fn test_parse_leaf_cell_null() {
    let mut fake_page = [0u8; 1024];
    fake_page[300..304].copy_from_slice(&[
        0x02, // payload_size = 2
        0x01, // rowid = 1
        0x02, // header_size = 2
        0x00, // type_code = 0 (NULL)
    ]);

    let result = parse_leaf_cell(300, &fake_page).unwrap();
    assert_eq!(result.rowid, 1);
    assert_eq!(result.values, vec![Value::Null]);
}

#[test]
fn test_parse_leaf_cell_float() {
    let mut fake_page = [0u8; 1024];
    fake_page[300..304].copy_from_slice(&[
        0x0A, // payload_size = 10
        0x01, // rowid = 1
        0x02, // header_size = 2
        0x07, // type_code = 7 (float)
    ]);
    fake_page[304..312].copy_from_slice(&3.12_f64.to_be_bytes());

    let result = parse_leaf_cell(300, &fake_page).unwrap();
    assert_eq!(result.rowid, 1);
    assert_eq!(result.values, vec![Value::Float(3.12_f64.to_bits())]);
}

#[test]
fn test_parse_leaf_cell_literal_0() {
    let mut fake_page = [0u8; 1024];
    fake_page[300..304].copy_from_slice(&[
        0x02, // payload_size = 2
        0x01, // rowid = 1
        0x02, // header_size = 2
        0x08, // type_code = 8 (literal 0)
    ]);

    let result = parse_leaf_cell(300, &fake_page).unwrap();
    assert_eq!(result.rowid, 1);
    assert_eq!(result.values, vec![Value::Integer(0)]);
}

#[test]
fn test_parse_leaf_cell_literal_1() {
    let mut fake_page = [0u8; 1024];
    fake_page[300..304].copy_from_slice(&[
        0x02, // payload_size = 2
        0x01, // rowid = 1
        0x02, // header_size = 2
        0x09, // type_code = 9 (literal 1)
    ]);

    let result = parse_leaf_cell(300, &fake_page).unwrap();
    assert_eq!(result.rowid, 1);
    assert_eq!(result.values, vec![Value::Integer(1)]);
}

#[test]
fn test_parse_leaf_cell_text() {
    let mut fake_page = [0u8; 1024];
    fake_page[300..304].copy_from_slice(&[
        0x07, // payload_size = 7
        0x01, // rowid = 1
        0x02, // header_size = 2
        0x17, // type_code = 23 (text, len = (23-13)/2 = 5)
    ]);
    fake_page[304..309].copy_from_slice(b"Alice");

    let result = parse_leaf_cell(300, &fake_page).unwrap();
    assert_eq!(result.rowid, 1);
    assert_eq!(result.values, vec![Value::Text("Alice".to_string())]);
}

#[test]
fn test_parse_leaf_cell_truncated() {
    // The cell's varints run off the end of the buffer.
    let fake_page = [0x80u8; 4];
    assert!(parse_leaf_cell(3, &fake_page).is_err());
}
