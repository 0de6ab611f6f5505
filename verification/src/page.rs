//! The page reader: carves one page out of the file image, classifies
//! it, and locates its cell-pointer array.
//!
//! A page's B-tree header starts at byte 0 of the page, except on the
//! first page, where the 100-byte file header comes first.  The header
//! is: type byte, 2-byte freeblock pointer, 2-byte cell count, 2-byte
//! cell-content start, 1 fragmented-bytes byte, and, on interior pages
//! only, a 4-byte rightmost-child pointer — 8 bytes on a leaf page, 12
//! on an interior one.  The cell-pointer array of big-endian 16-bit
//! entries follows immediately.

use vstd::prelude::*;

use crate::error::Error;
use crate::value::{be_uint, lemma_be_uint_bound};
use vstd::arithmetic::power2::lemma2_to64;
use vstd::slice::{slice_subrange, slice_to_vec};

verus! {

/// The page type byte of a leaf table page.
pub const LEAF_PAGE: u8 = 0x0d;

/// The page type byte of an interior table page.
pub const INTERIOR_PAGE: u8 = 0x05;

/// One page of the file: its bytes, its classification, its cell
/// count, and the offset of its B-tree header within the page (100 on
/// the first page, 0 elsewhere).
pub struct Page {
    pub data: Vec<u8>,
    pub page_type: u8,
    pub num_cells: u16,
    pub offset: usize,
}

/// The mathematical shape of a `Page`.
pub ghost struct SpecPage {
    pub data: Seq<u8>,
    pub page_type: u8,
    pub num_cells: int,
    pub offset: int,
}

impl View for Page {
    type V = SpecPage;

    open spec fn view(&self) -> SpecPage {
        SpecPage {
            data: self.data@,
            page_type: self.page_type,
            num_cells: self.num_cells as int,
            offset: self.offset as int,
        }
    }
}

/// Where a page's B-tree header starts: after the 100-byte file header
/// on page 1, at the page's first byte everywhere else.
pub open spec fn spec_page_offset(page_num: int) -> int {
    if page_num == 1 {
        100
    } else {
        0
    }
}

/// The length of the B-tree page header: 8 bytes on a leaf page, 12 on
/// an interior one (whose header ends with the rightmost-child pointer).
pub open spec fn spec_header_len(page_type: u8) -> int {
    if page_type == LEAF_PAGE {
        8
    } else {
        12
    }
}

/// A well-formed page: a supported type byte that matches the page's
/// bytes, a header offset of 0 or 100, and a cell-pointer array that
/// fits inside the page.  `Page::read` returns only such pages.
pub open spec fn wf_page(p: SpecPage) -> bool {
    &&& (p.page_type == LEAF_PAGE || p.page_type == INTERIOR_PAGE)
    &&& (p.offset == 0 || p.offset == 100)
    &&& 0 <= p.num_cells
    &&& p.offset + spec_header_len(p.page_type) + 2 * p.num_cells <= p.data.len()
    &&& p.data.len() <= 65536
    &&& p.data[p.offset] == p.page_type
    &&& p.num_cells == be_uint(p.data, p.offset + 3, 2)
}

/// What reading page `page_num` from the image yields: the page, or
/// `IoError` when its byte range lies outside the image (including the
/// invalid page number 0), or `FormatError` when the header does not
/// fit the page or the type byte is not a table page's.
pub open spec fn spec_read_page(image: Seq<u8>, page_num: int, page_size: int) -> Result<
    SpecPage,
    Error,
> {
    let start = (page_num - 1) * page_size;
    let off = spec_page_offset(page_num);
    if page_num < 1 || start + page_size > image.len() {
        Err(Error::IoError)
    } else if off + 12 > page_size {
        Err(Error::FormatError)
    } else {
        let data = image.subrange(start, start + page_size);
        let ptype = data[off];
        if ptype != LEAF_PAGE && ptype != INTERIOR_PAGE {
            Err(Error::FormatError)
        } else {
            let ncells = be_uint(data, off + 3, 2);
            if off + spec_header_len(ptype) + 2 * ncells > page_size {
                Err(Error::FormatError)
            } else {
                Ok(SpecPage { data, page_type: ptype, num_cells: ncells, offset: off })
            }
        }
    }
}

impl Page {
    /// Carves page `page_num` (1-based) out of the file image and
    /// classifies it.  The page's bytes are the `page_size` bytes at
    /// offset `(page_num - 1) * page_size`.
    pub fn read(image: &[u8], page_num: u32, page_size: u16) -> (r: Result<Page, Error>)
        ensures
            match r {
                Ok(p) => spec_read_page(image@, page_num as int, page_size as int) == Ok::<
                    SpecPage,
                    Error,
                >(p@) && wf_page(p@) && p.data@.len() == page_size,
                Err(e) => spec_read_page(image@, page_num as int, page_size as int) == Err::<
                    SpecPage,
                    Error,
                >(e),
            },
    {
        let psz = page_size as u64;
        if page_num < 1 {
            return Err(Error::IoError);
        }
        let pn = page_num as u64;
        proof {
            assert((pn - 1) * psz <= 0xfffffffe * 0xffff) by (nonlinear_arith)
                requires
                    1 <= pn <= 0xffffffff,
                    psz <= 0xffff,
            ;
        }
        let start64 = (pn - 1) * psz;
        if start64 + psz > image.len() as u64 {
            return Err(Error::IoError);
        }
        let start = start64 as usize;
        let offset: usize = if page_num == 1 {
            100
        } else {
            0
        };
        if offset + 12 > page_size as usize {
            return Err(Error::FormatError);
        }
        let data = slice_to_vec(slice_subrange(image, start, start + page_size as usize));
        let page_type = data[offset];
        if page_type != LEAF_PAGE && page_type != INTERIOR_PAGE {
            return Err(Error::FormatError);
        }
        let num_cells_w = crate::value::read_be_uint(data.as_slice(), offset + 3, 2);
        proof {
            lemma_be_uint_bound(data@, offset + 3, 2);
            lemma2_to64();
        }
        let num_cells = num_cells_w as u16;
        let header_len: usize = if page_type == LEAF_PAGE {
            8
        } else {
            12
        };
        if (offset + header_len + 2 * (num_cells as usize)) > page_size as usize {
            return Err(Error::FormatError);
        }
        Ok(Page { data, page_type, num_cells, offset })
    }

    /// Whether this page is a leaf page (0x0d; the out-of-scope leaf
    /// index type byte 0x0a is also accepted, as read-side callers
    /// never see one from `Page::read`).
    pub fn is_leaf(&self) -> (r: bool)
        ensures
            r == (self.page_type == LEAF_PAGE || self.page_type == 0x0a),
    {
        self.page_type == LEAF_PAGE || self.page_type == 0x0a
    }

    /// The byte offset within the page of cell `i`, read from the
    /// cell-pointer array.
    pub open spec fn spec_cell_pointer(p: SpecPage, i: int) -> int {
        be_uint(p.data, p.offset + spec_header_len(p.page_type) + 2 * i, 2)
    }

    /// Reads the `i`-th entry of the cell-pointer array: the byte
    /// offset of cell `i` within this page.
    pub fn cell_pointer(&self, i: u16) -> (r: usize)
        requires
            wf_page(self@),
            i < self.num_cells,
        ensures
            r as int == Page::spec_cell_pointer(self@, i as int),
            r < 65536,
    {
        let header_len: usize = if self.page_type == LEAF_PAGE {
            8
        } else {
            12
        };
        let slot = self.offset + header_len + 2 * (i as usize);
        let r = crate::value::read_be_uint(self.data.as_slice(), slot, 2);
        proof {
            lemma_be_uint_bound(self.data@, slot as int, 2);
            lemma2_to64();
        }
        r as usize
    }

    /// Reads an interior page's rightmost-child pointer: the 4-byte
    /// big-endian page number just after the first 8 header bytes.
    pub fn rightmost_child(&self) -> (r: u32)
        requires
            wf_page(self@),
            self.page_type == INTERIOR_PAGE,
        ensures
            r as int == be_uint(self.data@, self@.offset + 8, 4),
    {
        let r = crate::value::read_be_uint(self.data.as_slice(), self.offset + 8, 4);
        proof {
            lemma_be_uint_bound(self.data@, self.offset + 8, 4);
            lemma2_to64();
        }
        r as u32
    }
}

} // verus!
