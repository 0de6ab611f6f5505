use sqlite::header::parse_header;
use sqlite::{Error, Page};

fn image_with_one_leaf_page() -> Vec<u8> {
    // Page size 512; page 2 is a leaf page with two cells.
    let mut image = vec![0u8; 1024];
    image[16] = 0x02; // page size 512, big-endian
    image[17] = 0x00;
    let p = 512;
    image[p] = 0x0D; // leaf table page
    image[p + 3] = 0x00; // two cells
    image[p + 4] = 0x02;
    // cell pointer array at page offset 8: offsets 300 and 200
    image[p + 8] = 0x01;
    image[p + 9] = 0x2C;
    image[p + 10] = 0x00;
    image[p + 11] = 0xC8;
    image
}

#[test]
fn test_parse_header_page_size() {
    let image = image_with_one_leaf_page();
    let header = parse_header(&image).unwrap();
    assert_eq!(header.page_size, 1024 / 2);
}

#[test]
fn test_parse_header_short_image() {
    assert_eq!(parse_header(&[0u8; 40]).map(|h| h.page_size), Err(Error::IoError));
}

#[test]
fn test_page_read_leaf() {
    let image = image_with_one_leaf_page();
    let page = Page::read(&image, 2, 512).unwrap();
    assert!(page.is_leaf());
    assert_eq!(page.num_cells, 2);
    assert_eq!(page.offset, 0);
    assert_eq!(page.cell_pointer(0), 300);
    assert_eq!(page.cell_pointer(1), 200);
}

#[test]
fn test_page_read_first_page_offset() {
    let mut image = image_with_one_leaf_page();
    image[100] = 0x0D; // page 1's own header starts after the file header
    image[104] = 0x00; // no cells
    let page = Page::read(&image, 1, 512).unwrap();
    assert_eq!(page.offset, 100);
    assert_eq!(page.num_cells, 0);
}

#[test]
fn test_page_read_out_of_range() {
    let image = image_with_one_leaf_page();
    assert!(matches!(Page::read(&image, 3, 512), Err(Error::IoError)));
    assert!(matches!(Page::read(&image, 0, 512), Err(Error::IoError)));
}

#[test]
fn test_page_read_unsupported_type() {
    let mut image = image_with_one_leaf_page();
    image[512] = 0x0A; // a leaf index page is out of scope
    assert!(matches!(Page::read(&image, 2, 512), Err(Error::FormatError)));
}
