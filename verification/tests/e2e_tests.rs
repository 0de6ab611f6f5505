use sqlite::schema::parse_tables;
use sqlite::{run, traverse, Error, Row, Value};

const PAGE_SIZE: usize = 512;

/// Writes a leaf cell (rowid, one 8-bit integer column, one 1-byte
/// text column) at the given offset within a page.
fn write_leaf_cell(image: &mut [u8], page_start: usize, offset: usize, rowid: u8, n: u8, t: u8) {
    let cell = [
        0x05, // payload size
        rowid, 0x03, // header size
        0x01, // type code 1: 8-bit integer
        0x0F, // type code 15: 1-byte text
        n, t,
    ];
    image[page_start + offset..page_start + offset + cell.len()].copy_from_slice(&cell);
}

/// A four-page fixture: the catalog on page 1 declares table `t` with
/// columns `a` and `b`, rooted at the interior page 2, whose children
/// are the leaf pages 3 (two rows) and 4 (one row, via the rightmost
/// pointer).
fn fixture_image() -> Vec<u8> {
    let mut image = vec![0u8; 4 * PAGE_SIZE];

    // File header: magic string, then the page size big-endian.
    image[0..16].copy_from_slice(b"SQLite format 3\0");
    image[16..18].copy_from_slice(&(PAGE_SIZE as u16).to_be_bytes());

    // Page 1: the catalog, a leaf page whose header starts at 100.
    image[100] = 0x0D;
    image[103..105].copy_from_slice(&1u16.to_be_bytes());
    image[108..110].copy_from_slice(&200u16.to_be_bytes());
    let defn = b"CREATE TABLE t(a INTEGER, b TEXT)";
    let mut cell: Vec<u8> = Vec::new();
    cell.push(47); // payload size
    cell.push(1); // rowid
    cell.push(6); // header size
    cell.push(23); // text, 5 bytes: the row kind
    cell.push(15); // text, 1 byte: the table name
    cell.push(15); // text, 1 byte: the internal name
    cell.push(1); // 8-bit integer: the root page
    cell.push((defn.len() * 2 + 13) as u8); // text: the definition
    cell.extend_from_slice(b"table");
    cell.push(b't');
    cell.push(b't');
    cell.push(2); // root page 2
    cell.extend_from_slice(defn);
    image[200..200 + cell.len()].copy_from_slice(&cell);

    // Page 2: an interior page; one child cell for page 3, rightmost
    // pointer to page 4.
    let p2 = PAGE_SIZE;
    image[p2] = 0x05;
    image[p2 + 3..p2 + 5].copy_from_slice(&1u16.to_be_bytes());
    image[p2 + 8..p2 + 12].copy_from_slice(&4u32.to_be_bytes());
    image[p2 + 12..p2 + 14].copy_from_slice(&100u16.to_be_bytes());
    image[p2 + 100..p2 + 104].copy_from_slice(&3u32.to_be_bytes());
    image[p2 + 104] = 0x02; // largest rowid under page 3

    // Page 3: a leaf page with two rows.
    let p3 = 2 * PAGE_SIZE;
    image[p3] = 0x0D;
    image[p3 + 3..p3 + 5].copy_from_slice(&2u16.to_be_bytes());
    image[p3 + 8..p3 + 10].copy_from_slice(&100u16.to_be_bytes());
    image[p3 + 10..p3 + 12].copy_from_slice(&120u16.to_be_bytes());
    write_leaf_cell(&mut image, p3, 100, 1, 10, b'x');
    write_leaf_cell(&mut image, p3, 120, 2, 20, b'y');

    // Page 4: a leaf page with one row.
    let p4 = 3 * PAGE_SIZE;
    image[p4] = 0x0D;
    image[p4 + 3..p4 + 5].copy_from_slice(&1u16.to_be_bytes());
    image[p4 + 8..p4 + 10].copy_from_slice(&100u16.to_be_bytes());
    write_leaf_cell(&mut image, p4, 100, 3, 30, b'z');

    image
}

fn expected_rows() -> Vec<Row> {
    vec![
        Row {
            rowid: 1,
            values: vec![Value::Integer(10), Value::Text("x".to_string())],
        },
        Row {
            rowid: 2,
            values: vec![Value::Integer(20), Value::Text("y".to_string())],
        },
        Row {
            rowid: 3,
            values: vec![Value::Integer(30), Value::Text("z".to_string())],
        },
    ]
}

#[test]
fn test_parse_tables_catalog() {
    let image = fixture_image();
    let tables = parse_tables(&image, PAGE_SIZE as u16).unwrap();
    assert_eq!(tables.len(), 1);
    assert_eq!(tables[0].name, "t");
    assert_eq!(tables[0].rootpage, 2);
    assert_eq!(tables[0].column_names, vec!["a", "b"]);
}

#[test]
fn test_traversal_completeness() {
    // Every row under the multi-page root comes back, children before
    // the rightmost pointer, in stored cell order.
    let image = fixture_image();
    let mut rows: Vec<Row> = Vec::new();
    traverse(&image, 2, PAGE_SIZE as u16, &mut rows).unwrap();
    assert_eq!(rows.len(), 3);
    assert_eq!(rows[0], expected_rows()[0]);
    assert_eq!(rows, expected_rows());
}

#[test]
fn test_select_all_end_to_end() {
    let image = fixture_image();
    let query = String::from("SELECT * FROM t");
    let (column_names, rows) = run(&image, &query).unwrap();
    assert_eq!(column_names, vec!["a", "b"]);
    assert_eq!(rows, expected_rows());
}

#[test]
fn test_select_unknown_table_is_empty() {
    let image = fixture_image();
    let query = String::from("SELECT * FROM missing");
    let (column_names, rows) = run(&image, &query).unwrap();
    assert!(column_names.is_empty());
    assert!(rows.is_empty());
}

#[test]
fn test_select_non_star_projection_is_empty() {
    let image = fixture_image();
    let query = String::from("SELECT a FROM t");
    let (column_names, rows) = run(&image, &query).unwrap();
    assert!(column_names.is_empty());
    assert!(rows.is_empty());
}

#[test]
fn test_cyclic_tree_fails_as_corrupt() {
    let mut image = fixture_image();
    // Point page 2's only child cell back at page 2 itself.
    let p2 = PAGE_SIZE;
    image[p2 + 100..p2 + 104].copy_from_slice(&2u32.to_be_bytes());
    let mut rows: Vec<Row> = Vec::new();
    assert_eq!(
        traverse(&image, 2, PAGE_SIZE as u16, &mut rows),
        Err(Error::CorruptTree)
    );
    assert!(rows.is_empty());
}

#[test]
fn test_truncated_image_fails_as_io_error() {
    let image = fixture_image();
    let query = String::from("SELECT * FROM t");
    // Cut the image short of the table's pages: the traversal's page
    // read fails.
    assert_eq!(run(&image[..PAGE_SIZE], &query), Err(Error::IoError));
}
