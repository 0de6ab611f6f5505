//! The error kinds that decoding and traversal can surface.  Every
//! failure is reported as a typed value; no verified function panics.

use vstd::prelude::*;

verus! {

/// Why a decode or a traversal failed.
#[derive(Clone, Copy, Debug, PartialEq, Eq, Structural)]
pub enum Error {
    /// A page or the file header lies outside the bytes that were read
    /// from the file (the in-memory image is too short).
    IoError,
    /// The file's structure is malformed: an unsupported page type byte,
    /// an unknown serial type code, or a header that does not fit its page.
    FormatError,
    /// A varint ran past the end of its buffer before a terminating byte.
    TruncatedVarint,
    /// A cell's fields ran past the end of the page.
    TruncatedCell,
    /// The page graph is deeper than any well-formed file allows, which
    /// means a cycle or an unresolvable page reference.
    CorruptTree,
}

} // verus!
