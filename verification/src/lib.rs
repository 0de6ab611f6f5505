//! A read-only reader for an on-disk paged database file organised as a
//! table B-tree.  The library decodes the file's binary format (varints,
//! typed records, pages) from an in-memory image of the file, walks the
//! tree to collect rows, bootstraps the table catalog from page 1, and
//! answers `SELECT * FROM <table>` queries.  All file I/O lives outside
//! the library: callers hand it the file's bytes.

use vstd::prelude::*;

pub mod btree;
pub mod cell;
pub mod chars;
pub mod error;
pub mod header;
pub mod page;
pub mod query;
pub mod schema;
pub mod text;
pub mod value;
pub mod varint;

pub use btree::traverse;
pub use cell::Row;
pub use error::Error;
pub use header::Header;
pub use page::Page;
pub use query::{execute, Db};
pub use schema::{parse_tables, Table};
pub use value::Value;
pub use varint::{encode_varint, parse_varint};

use crate::cell::SpecRow;
use crate::header::{parse_header, spec_parse_header};
use crate::query::spec_execute;
use crate::schema::spec_parse_tables;
use vstd::slice::slice_to_vec;

verus! {

/// What running a query against a file image yields: the header's page
/// size is read, the catalog is built from page 1, and the query is
/// executed against it; the first error met on the way is surfaced.
pub open spec fn spec_run(image: Seq<u8>, query: Seq<char>) -> Result<
    (Seq<Seq<char>>, Seq<SpecRow>),
    Error,
> {
    match spec_parse_header(image) {
        Err(e) => Err(e),
        Ok(page_size) => match spec_parse_tables(image, page_size) {
            Err(e) => Err(e),
            Ok(tables) => spec_execute(image, page_size, tables, query),
        },
    }
}

/// Opens the file image and answers the query: the matched table's
/// column names and its rows, or the first decoding error met.
pub fn run(image: &[u8], query: &String) -> (r: Result<(Vec<String>, Vec<Row>), Error>)
    ensures
        match (r, spec_run(image@, query@)) {
            (Ok(p), Ok(q)) => p.0.deep_view() == q.0 && p.1.deep_view() == q.1,
            (Err(e), Err(e2)) => e == e2,
            _ => false,
        },
{
    let header = match parse_header(image) {
        Ok(h) => h,
        Err(e) => {
            return Err(e);
        },
    };
    let tables = match parse_tables(image, header.page_size) {
        Ok(t) => t,
        Err(e) => {
            return Err(e);
        },
    };
    let db = Db { image: slice_to_vec(image), page_size: header.page_size, tables };
    execute(&db, query.clone())
}

} // verus!
