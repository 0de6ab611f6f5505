//! The B-tree traversal: the ordered sequence of rows reachable under
//! a page.  A leaf page contributes its cells in cell-pointer order; an
//! interior page contributes each child cell's subtree in stored order
//! and then the subtree of its rightmost-child pointer.
//!
//! The page graph of a well-formed file is acyclic, but the file is
//! untrusted: traversal carries a depth budget, and a tree deeper than
//! the budget — which no well-formed file produces — fails with
//! `CorruptTree` instead of recursing forever.

use vstd::prelude::*;

use crate::cell::{
    parse_interior_cell, parse_leaf_cell, spec_parse_interior_cell, spec_parse_leaf_cell, Row,
    SpecRow,
};
use crate::error::Error;
use crate::page::{spec_read_page, wf_page, Page, SpecPage, LEAF_PAGE};
use crate::value::be_uint;

verus! {

/// The depth budget: no well-formed file nests pages deeper than this
/// (a tree of such depth would need astronomically many pages), so
/// running out of budget means a cycle or an unresolvable reference.
pub const TRAVERSE_DEPTH: u32 = 64;

/// The rows reachable under page `page_num`, or the first error met
/// reading them; `CorruptTree` when the depth budget runs out.
pub open spec fn spec_traverse(image: Seq<u8>, page_size: int, page_num: int, fuel: nat) -> Result<
    Seq<SpecRow>,
    Error,
>
    decreases fuel, 0int, 0int,
{
    if fuel == 0 {
        Err(Error::CorruptTree)
    } else {
        match spec_read_page(image, page_num, page_size) {
            Err(e) => Err(e),
            Ok(p) => {
                if p.page_type == LEAF_PAGE {
                    spec_leaf_rows(p, 0)
                } else {
                    match spec_interior_children(image, page_size, p, 0, (fuel - 1) as nat) {
                        Err(e) => Err(e),
                        Ok(rows) => match spec_traverse(
                            image,
                            page_size,
                            be_uint(p.data, p.offset + 8, 4),
                            (fuel - 1) as nat,
                        ) {
                            Err(e) => Err(e),
                            Ok(more) => Ok(rows + more),
                        },
                    }
                }
            },
        }
    }
}

/// The rows of a leaf page's cells from cell `i` on, in cell-pointer
/// order.
pub open spec fn spec_leaf_rows(p: SpecPage, i: int) -> Result<Seq<SpecRow>, Error>
    decreases p.num_cells - i,
{
    if i >= p.num_cells {
        Ok(Seq::empty())
    } else {
        match spec_parse_leaf_cell(p.data, Page::spec_cell_pointer(p, i)) {
            Err(e) => Err(e),
            Ok(row) => match spec_leaf_rows(p, i + 1) {
                Err(e) => Err(e),
                Ok(rest) => Ok(seq![row] + rest),
            },
        }
    }
}

/// The rows under an interior page's child cells from cell `i` on, in
/// stored order (the rightmost child is not included here).
pub open spec fn spec_interior_children(
    image: Seq<u8>,
    page_size: int,
    p: SpecPage,
    i: int,
    fuel: nat,
) -> Result<Seq<SpecRow>, Error>
    decreases fuel, 1int, p.num_cells - i,
{
    if i >= p.num_cells {
        Ok(Seq::empty())
    } else {
        match spec_parse_interior_cell(p.data, Page::spec_cell_pointer(p, i)) {
            Err(e) => Err(e),
            Ok((child, _rowid)) => match spec_traverse(image, page_size, child, fuel) {
                Err(e) => Err(e),
                Ok(rows) => match spec_interior_children(image, page_size, p, i + 1, fuel) {
                    Err(e) => Err(e),
                    Ok(rest) => Ok(rows + rest),
                },
            },
        }
    }
}

/// Walks the subtree under `page_num` with the given depth budget,
/// appending every reachable row to `rows` in traversal order.
#[verifier::loop_isolation(false)]
#[verifier::rlimit(60)]
fn traverse_rec(image: &[u8], page_num: u32, page_size: u16, fuel: u32, rows: &mut Vec<Row>) -> (r:
    Result<(), Error>)
    ensures
        match (r, spec_traverse(image@, page_size as int, page_num as int, fuel as nat)) {
            (Ok(_), Ok(rs)) => final(rows).deep_view() == old(rows).deep_view() + rs,
            (Err(e), Err(e2)) => e == e2,
            _ => false,
        },
    decreases fuel,
{
    if fuel == 0 {
        return Err(Error::CorruptTree);
    }
    let page = match Page::read(image, page_num, page_size) {
        Ok(p) => p,
        Err(e) => {
            return Err(e);
        },
    };
    let ghost f1 = (fuel - 1) as nat;
    let ghost base = old(rows).deep_view();
    if page.page_type == LEAF_PAGE {
        let mut i: u16 = 0;
        let ghost mut acc: Seq<SpecRow> = Seq::empty();
        proof {
            assert(rows.deep_view() =~= base + acc);
        }
        while i < page.num_cells
            invariant
                0 <= i <= page.num_cells,
                wf_page(page@),
                rows.deep_view() == base + acc,
                match spec_leaf_rows(page@, i as int) {
                    Ok(rest) => spec_leaf_rows(page@, 0) == Ok::<Seq<SpecRow>, Error>(acc + rest),
                    Err(e) => spec_leaf_rows(page@, 0) == Err::<Seq<SpecRow>, Error>(e),
                },
            decreases page.num_cells - i,
        {
            let ptr = page.cell_pointer(i);
            let row = match parse_leaf_cell(ptr, page.data.as_slice()) {
                Ok(row) => row,
                Err(e) => {
                    return Err(e);
                },
            };
            let ghost prev = rows@;
            let ghost prevdv = rows.deep_view();
            let ghost rowv = row@;
            rows.push(row);
            proof {
                if spec_leaf_rows(page@, i + 1) is Ok {
                    let rest = spec_leaf_rows(page@, i + 1)->Ok_0;
                    assert(acc + (seq![rowv] + rest) =~= (acc + seq![rowv]) + rest);
                }
                assert(rows.deep_view() =~= prevdv + seq![rowv]) by {
                    assert(forall|k: int| 0 <= k < prev.len() ==> rows@[k] == prev[k]);
                    assert(rows@[prev.len() as int]@ == rowv);
                }
                assert((base + acc) + seq![rowv] =~= base + (acc + seq![rowv]));
                acc = acc + seq![rowv];
            }
            i = i + 1;
        }
        proof {
            assert(acc + Seq::<SpecRow>::empty() =~= acc);
        }
        Ok(())
    } else {
        let mut i: u16 = 0;
        let ghost mut acc: Seq<SpecRow> = Seq::empty();
        proof {
            assert(rows.deep_view() =~= base + acc);
        }
        while i < page.num_cells
            invariant
                0 <= i <= page.num_cells,
                wf_page(page@),
                page.page_type != LEAF_PAGE,
                1 <= fuel,
                f1 == (fuel - 1) as nat,
                rows.deep_view() == base + acc,
                match spec_interior_children(image@, page_size as int, page@, i as int, f1) {
                    Ok(rest) => spec_interior_children(image@, page_size as int, page@, 0, f1)
                        == Ok::<Seq<SpecRow>, Error>(acc + rest),
                    Err(e) => spec_interior_children(image@, page_size as int, page@, 0, f1)
                        == Err::<Seq<SpecRow>, Error>(e),
                },
            decreases page.num_cells - i,
        {
            let ptr = page.cell_pointer(i);
            let cell = match parse_interior_cell(ptr, page.data.as_slice()) {
                Ok(c) => c,
                Err(e) => {
                    return Err(e);
                },
            };
            match traverse_rec(image, cell.child_page_number, page_size, fuel - 1, rows) {
                Ok(_) => {},
                Err(e) => {
                    return Err(e);
                },
            }
            proof {
                let child_rows = spec_traverse(
                    image@,
                    page_size as int,
                    cell.child_page_number as int,
                    f1,
                )->Ok_0;
                assert(rows.deep_view() =~= base + (acc + child_rows));
                if spec_interior_children(image@, page_size as int, page@, i + 1, f1) is Ok {
                    let rest = spec_interior_children(
                        image@,
                        page_size as int,
                        page@,
                        i + 1,
                        f1,
                    )->Ok_0;
                    assert(acc + (child_rows + rest) =~= (acc + child_rows) + rest);
                }
                acc = acc + child_rows;
            }
            i = i + 1;
        }
        proof {
            assert(acc + Seq::<SpecRow>::empty() =~= acc);
        }
        let rightmost = page.rightmost_child();
        let r = traverse_rec(image, rightmost, page_size, fuel - 1, rows);
        proof {
            if r is Ok {
                let more = spec_traverse(image@, page_size as int, rightmost as int, f1)->Ok_0;
                assert((base + acc) + more =~= base + (acc + more));
            }
        }
        r
    }
}

/// Collects, in traversal order, every row reachable under page
/// `page_num`, appending them to `rows`; on any error `rows` is left
/// unchanged and no partial result is kept.
pub fn traverse(image: &[u8], page_num: u32, page_size: u16, rows: &mut Vec<Row>) -> (r: Result<
    (),
    Error,
>)
    ensures
        match (
            r,
            spec_traverse(image@, page_size as int, page_num as int, TRAVERSE_DEPTH as nat),
        ) {
            (Ok(_), Ok(rs)) => final(rows).deep_view() == old(rows).deep_view() + rs,
            (Err(e), Err(e2)) => e == e2 && *final(rows) == *old(rows),
            _ => false,
        },
{
    let mut fresh: Vec<Row> = Vec::new();
    match traverse_rec(image, page_num, page_size, TRAVERSE_DEPTH, &mut fresh) {
        Ok(_) => {
            let ghost rs = spec_traverse(
                image@,
                page_size as int,
                page_num as int,
                TRAVERSE_DEPTH as nat,
            )->Ok_0;
            proof {
                assert(fresh.deep_view() =~= rs);
            }
            rows.append(&mut fresh);
            proof {
                assert(rows.deep_view() =~= old(rows).deep_view() + rs);
            }
            Ok(())
        },
        Err(e) => Err(e),
    }
}

} // verus!
