//! The file header: the first 100 bytes of the file.  Bytes 0–15 hold
//! a fixed magic string (not validated beyond the header being
//! present); bytes 16–17 hold the page size, big-endian.

use vstd::prelude::*;

use crate::error::Error;
use crate::value::{be_uint, lemma_be_uint_bound};
use vstd::arithmetic::power2::lemma2_to64;

verus! {

/// What the library needs from the file header: the page size.
pub struct Header {
    pub page_size: u16,
}

/// The page size the file header declares, or `IoError` when the image
/// is shorter than the 100-byte header.
pub open spec fn spec_parse_header(image: Seq<u8>) -> Result<int, Error> {
    if image.len() < 100 {
        Err(Error::IoError)
    } else {
        Ok(be_uint(image, 16, 2))
    }
}

/// Reads the file header from the start of the image.
pub fn parse_header(image: &[u8]) -> (r: Result<Header, Error>)
    ensures
        match r {
            Ok(h) => spec_parse_header(image@) == Ok::<int, Error>(h.page_size as int),
            Err(e) => spec_parse_header(image@) == Err::<int, Error>(e),
        },
{
    if image.len() < 100 {
        return Err(Error::IoError);
    }
    let sz = crate::value::read_be_uint(image, 16, 2);
    proof {
        lemma_be_uint_bound(image@, 16, 2);
        lemma2_to64();
    }
    Ok(Header { page_size: sz as u16 })
}

} // verus!
