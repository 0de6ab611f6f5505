//! The record decoder: turns one cell of a page into a typed row (on a
//! leaf page) or a child-page reference (on an interior page).
//!
//! A leaf cell is `[varint: payload size] [varint: rowid] [payload]`,
//! and the payload is `[varint: header size] [type codes...] [values...]`:
//! the header is a run of serial-type-code varints filling exactly
//! `header size` bytes (counted from the start of the payload), and the
//! values follow the header, each one's width fixed by its code.
//!
//! An interior cell is a 4-byte big-endian child page number followed
//! by a rowid varint (the largest rowid under that child).

use vstd::prelude::*;

use crate::error::Error;
use crate::value::{
    be_uint, code_known, code_width, lemma_be_uint_bound, parse_type_code_at, spec_decode_value,
    SpecValue, Value,
};
use crate::varint::{lemma_varint_rec_bound, parse_varint_at, spec_varint};
use vstd::arithmetic::power2::{lemma2_to64, pow2};

verus! {

/// One decoded leaf row: its rowid and its column values in column
/// order.
#[derive(Debug, PartialEq)]
pub struct Row {
    pub rowid: u64,
    pub values: Vec<Value>,
}

/// The mathematical shape of a `Row`.
pub ghost struct SpecRow {
    pub rowid: int,
    pub values: Seq<SpecValue>,
}

impl View for Row {
    type V = SpecRow;

    open spec fn view(&self) -> SpecRow {
        SpecRow { rowid: self.rowid as int, values: self.values.deep_view() }
    }
}

impl DeepView for Row {
    type V = SpecRow;

    open spec fn deep_view(&self) -> SpecRow {
        self@
    }
}

/// One decoded interior cell: a child page number and the largest
/// rowid reachable under it.
#[derive(Debug, PartialEq)]
pub struct Cell {
    pub child_page_number: u32,
    pub rowid: u64,
}

/// What decoding the interior cell at `pos` yields: child page number
/// and rowid.
pub open spec fn spec_parse_interior_cell(page: Seq<u8>, pos: int) -> Result<(int, int), Error> {
    if pos < 0 || pos + 4 > page.len() {
        Err(Error::TruncatedCell)
    } else {
        match spec_varint(page, pos + 4) {
            None => Err(Error::TruncatedVarint),
            Some((rowid, _n)) => Ok((be_uint(page, pos, 4), rowid)),
        }
    }
}

/// Decodes the interior cell at byte offset `index` of `page`.
pub fn parse_interior_cell(index: usize, page: &[u8]) -> (r: Result<Cell, Error>)
    ensures
        match r {
            Ok(c) => spec_parse_interior_cell(page@, index as int) == Ok::<(int, int), Error>(
                (c.child_page_number as int, c.rowid as int),
            ),
            Err(e) => spec_parse_interior_cell(page@, index as int) == Err::<(int, int), Error>(e),
        },
{
    if index >= page.len() || page.len() - index < 4 {
        return Err(Error::TruncatedCell);
    }
    let child = crate::value::read_be_uint(page, index, 4);
    proof {
        lemma_be_uint_bound(page@, index as int, 4);
        lemma2_to64();
    }
    match parse_varint_at(page, index + 4) {
        Err(e) => Err(e),
        Ok((rowid, _n)) => Ok(Cell { child_page_number: child as u32, rowid }),
    }
}

/// The serial type codes encoded as consecutive varints from `pos` up
/// to `end` (the last one may run past `end`; parsing stops as soon as
/// `end` is reached).
pub open spec fn spec_type_codes(page: Seq<u8>, pos: int, end: int) -> Result<Seq<int>, Error>
    decreases (if pos < end {
        end - pos
    } else {
        0int
    }),
    via spec_type_codes_dec
{
    if pos >= end {
        Ok(Seq::empty())
    } else {
        match spec_varint(page, pos) {
            None => Err(Error::TruncatedVarint),
            Some((code, n)) => match spec_type_codes(page, pos + n, end) {
                Err(e) => Err(e),
                Ok(rest) => Ok(seq![code] + rest),
            },
        }
    }
}

#[via_fn]
proof fn spec_type_codes_dec(page: Seq<u8>, pos: int, end: int) {
    if pos < end {
        match spec_varint(page, pos) {
            None => {},
            Some(_) => {
                vstd::arithmetic::power2::lemma2_to64();
                lemma_varint_rec_bound(page, pos, 0, 0);
            },
        }
    }
}

/// A varint that decodes successfully lies wholly inside the buffer
/// and takes at least one byte.
pub proof fn lemma_varint_in_bounds(bytes: Seq<u8>, pos: int)
    requires
        spec_varint(bytes, pos) is Some,
    ensures
        ({
            let (v, n) = spec_varint(bytes, pos)->Some_0;
            &&& 1 <= n <= 9
            &&& pos + n <= bytes.len()
            &&& 0 <= v < pow2(64)
            &&& 0 <= pos
        }),
{
    lemma2_to64();
    lemma_varint_rec_bound(bytes, pos, 0, 0);
    lemma_varint_span(bytes, pos, 0, 0);
}

proof fn lemma_varint_span(bytes: Seq<u8>, pos: int, k: int, acc: int)
    requires
        0 <= k <= 8,
    ensures
        match crate::varint::varint_rec(bytes, pos, k, acc) {
            Some(r) => pos + (r.1 - k) <= bytes.len() && 0 <= pos,
            None => true,
        },
    decreases 8 - k,
{
    if pos < 0 || pos >= bytes.len() || k > 8 {
    } else if k == 8 {
    } else if bytes[pos] < 128 {
    } else {
        lemma_varint_span(bytes, pos + 1, k + 1, acc * 128 + (bytes[pos] - 128));
    }
}

/// The values denoted by `codes`, decoded consecutively from `pos`.
/// Fails with `FormatError` at the first unknown code and with
/// `TruncatedCell` at the first value that runs past the page's end.
pub open spec fn spec_values(page: Seq<u8>, pos: int, codes: Seq<int>) -> Result<
    Seq<SpecValue>,
    Error,
>
    decreases codes.len(),
{
    if codes.len() == 0 {
        Ok(Seq::empty())
    } else {
        let code = codes[0];
        if !code_known(code) {
            Err(Error::FormatError)
        } else if pos + code_width(code) > page.len() {
            Err(Error::TruncatedCell)
        } else {
            match spec_values(page, pos + code_width(code), codes.drop_first()) {
                Err(e) => Err(e),
                Ok(rest) => Ok(seq![spec_decode_value(code, page, pos)] + rest),
            }
        }
    }
}

/// What decoding the leaf cell at `pointer` yields: the row, or the
/// first error met while reading its varints, its type codes, and its
/// values.
pub open spec fn spec_parse_leaf_cell(page: Seq<u8>, pointer: int) -> Result<SpecRow, Error> {
    match spec_varint(page, pointer) {
        None => Err(Error::TruncatedVarint),
        Some((_payload_size, n1)) => match spec_varint(page, pointer + n1) {
            None => Err(Error::TruncatedVarint),
            Some((rowid, n2)) => {
                let payload_start = pointer + n1 + n2;
                match spec_varint(page, payload_start) {
                    None => Err(Error::TruncatedVarint),
                    Some((header_size, n3)) => {
                        match spec_type_codes(
                            page,
                            payload_start + n3,
                            payload_start + header_size,
                        ) {
                            Err(e) => Err(e),
                            Ok(codes) => match spec_values(
                                page,
                                payload_start + header_size,
                                codes,
                            ) {
                                Err(e) => Err(e),
                                Ok(values) => Ok(SpecRow { rowid, values }),
                            },
                        }
                    },
                }
            },
        },
    }
}

/// Decodes the leaf cell at byte offset `pointer` of `page` into a row.
#[verifier::loop_isolation(false)]
pub fn parse_leaf_cell(pointer: usize, page: &[u8]) -> (r: Result<Row, Error>)
    ensures
        match r {
            Ok(row) => spec_parse_leaf_cell(page@, pointer as int) == Ok::<SpecRow, Error>(row@),
            Err(e) => spec_parse_leaf_cell(page@, pointer as int) == Err::<SpecRow, Error>(e),
        },
{
    let plen = page.len();
    let (_payload_size, n1) = match parse_varint_at(page, pointer) {
        Ok(p) => p,
        Err(e) => {
            return Err(e);
        },
    };
    proof {
        lemma_varint_in_bounds(page@, pointer as int);
        assert(pointer + n1 <= plen);
    }
    let (rowid, n2) = match parse_varint_at(page, pointer + n1) {
        Ok(p) => p,
        Err(e) => {
            return Err(e);
        },
    };
    proof {
        lemma_varint_in_bounds(page@, pointer + n1);
        assert(pointer + n1 + n2 <= plen);
    }
    let payload_start = pointer + n1 + n2;
    let (header_size, n3) = match parse_varint_at(page, payload_start) {
        Ok(p) => p,
        Err(e) => {
            return Err(e);
        },
    };
    proof {
        lemma_varint_in_bounds(page@, payload_start as int);
    }
    let ghost hdr_end = payload_start + header_size;

    // Read the type codes: varints from payload_start + n3 until the
    // declared end of the header.
    let mut codes: Vec<u64> = Vec::new();
    let mut off: u64 = n3 as u64;
    proof {
        assert(spec_type_codes(page@, payload_start + off, hdr_end) matches Ok(rest) ==>
            spec_type_codes(page@, payload_start + n3, hdr_end) == Ok::<Seq<int>, Error>(
            codes@.map_values(|c: u64| c as int) + rest,
        )) by {
            assert(codes@.map_values(|c: u64| c as int) =~= Seq::<int>::empty());
        }
    }
    while off < header_size
        invariant
            page@.len() <= usize::MAX,
            n3 <= off,
            payload_start + off <= page@.len() || off == n3,
            payload_start + n3 <= page@.len(),
            match spec_type_codes(page@, payload_start + off, hdr_end as int) {
                Ok(rest) => spec_type_codes(page@, payload_start + n3, hdr_end as int) == Ok::<
                    Seq<int>,
                    Error,
                >(codes@.map_values(|c: u64| c as int) + rest),
                Err(e) => spec_type_codes(page@, payload_start + n3, hdr_end as int) == Err::<
                    Seq<int>,
                    Error,
                >(e),
            },
            hdr_end == payload_start + header_size,
        decreases (if off < header_size {
            header_size - off
        } else {
            0int
        }),
    {
        let pos = payload_start + (off as usize);
        let (code, n) = match parse_varint_at(page, pos) {
            Ok(p) => p,
            Err(e) => {
                return Err(e);
            },
        };
        proof {
            lemma_varint_in_bounds(page@, pos as int);
            let prev = codes@.map_values(|c: u64| c as int);
            assert((prev + seq![code as int]) =~= (codes@.push(code)).map_values(
                |c: u64| c as int,
            ));
            assert(forall|rest: Seq<int>|
                (prev + (seq![code as int] + rest)) =~= ((codes@.push(code)).map_values(
                    |c: u64| c as int,
                ) + rest));
        }
        codes.push(code);
        off = off + n as u64;
    }
    proof {
        assert(spec_type_codes(page@, payload_start + off, hdr_end as int) == Ok::<
            Seq<int>,
            Error,
        >(Seq::empty()));
        assert(codes@.map_values(|c: u64| c as int) + Seq::<int>::empty() =~= codes@.map_values(
            |c: u64| c as int,
        ));
    }
    let ghost spec_codes = codes@.map_values(|c: u64| c as int);

    // Decode one value per type code, advancing by each value's width.
    let mut values: Vec<Value> = Vec::new();
    let mut j: usize = 0;
    if header_size > (page.len() - payload_start) as u64 {
        // The declared header runs past the page: the value area would
        // start out of bounds, so any first value fails.
        if codes.len() == 0 {
            return Ok(Row { rowid, values });
        }
        let code = codes[0];
        proof {
            assert(spec_codes[0] == code as int);
        }
        if code == 10 || code == 11 {
            return Err(Error::FormatError);
        }
        return Err(Error::TruncatedCell);
    }
    let mut vpos: usize = payload_start + (header_size as usize);
    proof {
        assert(values.deep_view() =~= Seq::<SpecValue>::empty());
        assert(spec_codes.skip(0) =~= spec_codes);
    }
    while j < codes.len()
        invariant
            0 <= j <= codes.len(),
            spec_codes == codes@.map_values(|c: u64| c as int),
            vpos <= page@.len(),
            match spec_values(page@, vpos as int, spec_codes.skip(j as int)) {
                Ok(rest) => spec_values(page@, payload_start + header_size, spec_codes) == Ok::<
                    Seq<SpecValue>,
                    Error,
                >(values.deep_view() + rest),
                Err(e) => spec_values(page@, payload_start + header_size, spec_codes) == Err::<
                    Seq<SpecValue>,
                    Error,
                >(e),
            },
        decreases codes@.len() - j,
    {
        let code = codes[j];
        proof {
            assert(spec_codes.skip(j as int)[0] == code as int);
        }
        let (val, w) = match parse_type_code_at(code, page, vpos) {
            Ok(p) => p,
            Err(e) => {
                return Err(e);
            },
        };
        proof {
            assert(spec_codes.skip(j as int).drop_first() =~= spec_codes.skip(j + 1));
        }
        let ghost pre = values.deep_view();
        let ghost dv = spec_decode_value(code as int, page@, vpos as int);
        values.push(val);
        proof {
            assert(values.deep_view() =~= pre + seq![dv]);
            if spec_values(page@, vpos + w, spec_codes.skip(j + 1)) is Ok {
                let rest = spec_values(page@, vpos + w, spec_codes.skip(j + 1))->Ok_0;
                assert(pre + (seq![dv] + rest) =~= (pre + seq![dv]) + rest);
            }
        }
        vpos = vpos + w;
        j = j + 1;
    }
    proof {
        assert(spec_codes.skip(codes@.len() as int) =~= Seq::<int>::empty());
        assert(values.deep_view() + Seq::<SpecValue>::empty() =~= values.deep_view());
    }
    Ok(Row { rowid, values })
}

} // verus!
