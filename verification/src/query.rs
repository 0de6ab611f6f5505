//! The query executor: answers `SELECT * FROM <table>` against the
//! catalog.  The query is whitespace-tokenized; the token after `FROM`
//! names the table and the token after `SELECT` is the projection.
//! Only the bare `*` projection is supported, and looking up a table
//! absent from the catalog is not an error: in both cases the result is
//! an empty column list and no rows, deliberately, as is a query too
//! short to hold the two tokens.

use vstd::prelude::*;

use crate::btree::{spec_traverse, traverse, TRAVERSE_DEPTH};
use crate::cell::{Row, SpecRow};
use crate::chars::{find_space, is_space, range_equals, spec_find_space, spec_is_space};
use crate::error::Error;
use crate::schema::{SpecTable, Table};
use crate::text::{chars_of, string_from_chars};
use vstd::slice::slice_subrange;

verus! {

/// One open file's worth of state: the file's bytes, its page size,
/// and its catalog.
pub struct Db {
    pub image: Vec<u8>,
    pub page_size: u16,
    pub tables: Vec<Table>,
}

/// Where the token starting at `from` ends: at the next whitespace, or
/// at the end of the text.
pub open spec fn spec_token_end(s: Seq<char>, from: int) -> int {
    match spec_find_space(s, from) {
        Some(k) => k,
        None => s.len() as int,
    }
}

/// The whitespace-separated tokens of `s` from `from` on, in order.
pub open spec fn spec_tokens(s: Seq<char>, from: int) -> Seq<Seq<char>>
    decreases s.len() - from,
    via spec_tokens_dec
{
    if from < 0 || from >= s.len() {
        Seq::empty()
    } else if spec_is_space(s[from]) {
        spec_tokens(s, from + 1)
    } else {
        seq![s.subrange(from, spec_token_end(s, from))] + spec_tokens(s, spec_token_end(s, from))
    }
}

#[via_fn]
proof fn spec_tokens_dec(s: Seq<char>, from: int) {
    if 0 <= from < s.len() && !spec_is_space(s[from]) {
        crate::schema::lemma_find_space_props(s, from);
    }
}

/// The first index at or after `from` whose token is `w`.
pub open spec fn spec_token_pos(tokens: Seq<Seq<char>>, w: Seq<char>, from: int) -> Option<int>
    decreases tokens.len() - from,
{
    if from < 0 || from >= tokens.len() {
        None
    } else if tokens[from] == w {
        Some(from)
    } else {
        spec_token_pos(tokens, w, from + 1)
    }
}

/// The first catalog table named `name`, from index `i` on.
pub open spec fn spec_find_table(tables: Seq<SpecTable>, name: Seq<char>, i: int) -> Option<
    SpecTable,
>
    decreases tables.len() - i,
{
    if i < 0 || i >= tables.len() {
        None
    } else if tables[i].name == name {
        Some(tables[i])
    } else {
        spec_find_table(tables, name, i + 1)
    }
}

/// What executing the query against the catalog yields: the named
/// table's column names and its full row set, read by traversing its
/// root page; or empty columns and rows when the query has no bare `*`
/// projection, is too short, or names no catalog table; or an error
/// from the traversal (`FormatError` for a root page number outside
/// the unsigned 32-bit page-number range).
pub open spec fn spec_execute(
    image: Seq<u8>,
    page_size: int,
    tables: Seq<SpecTable>,
    query: Seq<char>,
) -> Result<(Seq<Seq<char>>, Seq<SpecRow>), Error> {
    let parts = spec_tokens(query, 0);
    let sel = match spec_token_pos(parts, seq!['S', 'E', 'L', 'E', 'C', 'T'], 0) {
        Some(p) => p,
        None => 0,
    };
    let frm = match spec_token_pos(parts, seq!['F', 'R', 'O', 'M'], 0) {
        Some(p) => p,
        None => 0,
    };
    if sel + 1 >= parts.len() || frm + 1 >= parts.len() {
        Ok((Seq::empty(), Seq::empty()))
    } else if parts[sel + 1] != seq!['*'] {
        Ok((Seq::empty(), Seq::empty()))
    } else {
        match spec_find_table(tables, parts[frm + 1], 0) {
            None => Ok((Seq::empty(), Seq::empty())),
            Some(t) => if 0 <= t.rootpage <= u32::MAX {
                match spec_traverse(image, page_size, t.rootpage, TRAVERSE_DEPTH as nat) {
                    Err(e) => Err(e),
                    Ok(rows) => Ok((t.column_names, rows)),
                }
            } else {
                Err(Error::FormatError)
            },
        }
    }
}

/// The tokens the ranges of `ranges` carve out of `s`.
pub open spec fn spec_ranges_tokens(s: Seq<char>, ranges: Seq<(usize, usize)>) -> Seq<Seq<char>> {
    ranges.map_values(|p: (usize, usize)| s.subrange(p.0 as int, p.1 as int))
}

/// Splits `qc` into whitespace-separated tokens, each given as its
/// start and end index.
#[verifier::loop_isolation(false)]
fn tokenize(qc: &Vec<char>) -> (r: Vec<(usize, usize)>)
    ensures
        spec_ranges_tokens(qc@, r@) == spec_tokens(qc@, 0),
        forall|k: int| 0 <= k < r@.len() ==> (#[trigger] r@[k]).0 <= r@[k].1 <= qc@.len(),
{
    let mut out: Vec<(usize, usize)> = Vec::new();
    let mut i: usize = 0;
    proof {
        assert(spec_ranges_tokens(qc@, out@) =~= Seq::<Seq<char>>::empty());
    }
    while i < qc.len()
        invariant
            0 <= i,
            spec_ranges_tokens(qc@, out@) + spec_tokens(qc@, i as int) == spec_tokens(qc@, 0),
            forall|k: int| 0 <= k < out@.len() ==> (#[trigger] out@[k]).0 <= out@[k].1 <= qc@.len(),
        decreases qc@.len() - i,
    {
        if is_space(qc[i]) {
            i = i + 1;
        } else {
            let j: usize = match find_space(qc, i) {
                Some(k) => k,
                None => qc.len(),
            };
            proof {
                crate::schema::lemma_find_space_props(qc@, i as int);
                assert(spec_token_end(qc@, i as int) == j);
            }
            let ghost pre = spec_ranges_tokens(qc@, out@);
            let ghost tok = qc@.subrange(i as int, j as int);
            out.push((i, j));
            proof {
                assert(spec_ranges_tokens(qc@, out@) =~= pre + seq![tok]);
                assert(pre + (seq![tok] + spec_tokens(qc@, j as int)) =~= (pre + seq![tok])
                    + spec_tokens(qc@, j as int));
            }
            i = j;
        }
    }
    proof {
        assert(spec_tokens(qc@, i as int) =~= Seq::<Seq<char>>::empty());
        assert(spec_ranges_tokens(qc@, out@) + Seq::<Seq<char>>::empty() =~= spec_ranges_tokens(
            qc@,
            out@,
        ));
    }
    out
}

/// Finds the first token equal to `pat`, by index.
#[verifier::loop_isolation(false)]
fn token_pos(qc: &Vec<char>, toks: &Vec<(usize, usize)>, pat: &[char]) -> (r: Option<usize>)
    requires
        forall|k: int| 0 <= k < toks@.len() ==> (#[trigger] toks@[k]).0 <= toks@[k].1 <= qc@.len(),
    ensures
        match r {
            Some(p) => p < toks@.len() && spec_token_pos(spec_ranges_tokens(qc@, toks@), pat@, 0)
                == Some(p as int),
            None => spec_token_pos(spec_ranges_tokens(qc@, toks@), pat@, 0) is None,
        },
{
    let ghost tokens = spec_ranges_tokens(qc@, toks@);
    let mut i: usize = 0;
    while i < toks.len()
        invariant
            0 <= i,
            tokens == spec_ranges_tokens(qc@, toks@),
            spec_token_pos(tokens, pat@, 0) == spec_token_pos(tokens, pat@, i as int),
        decreases toks@.len() - i,
    {
        let (a, b) = (toks[i].0, toks[i].1);
        if range_equals(qc, a, b, pat) {
            proof {
                assert(tokens[i as int] == pat@);
            }
            return Some(i);
        }
        proof {
            assert(tokens[i as int] != pat@);
        }
        i = i + 1;
    }
    None
}

/// Clones a list of column names.
fn clone_strings(v: &Vec<String>) -> (r: Vec<String>)
    ensures
        r@ == v@,
{
    let mut r: Vec<String> = Vec::new();
    let mut i: usize = 0;
    while i < v.len()
        invariant
            0 <= i <= v@.len(),
            r@ == v@.subrange(0, i as int),
        decreases v@.len() - i,
    {
        r.push(v[i].clone());
        proof {
            assert(r@ =~= v@.subrange(0, i + 1));
        }
        i = i + 1;
    }
    proof {
        assert(v@.subrange(0, v@.len() as int) =~= v@);
    }
    r
}

/// Executes a `SELECT * FROM <table>` query against the open file:
/// the named table's column names and every row under its root page.
#[verifier::loop_isolation(false)]
pub fn execute(db: &Db, query: String) -> (r: Result<(Vec<String>, Vec<Row>), Error>)
    ensures
        match (
            r,
            spec_execute(db.image@, db.page_size as int, db.tables.deep_view(), query@),
        ) {
            (Ok(p), Ok(q)) => p.0.deep_view() == q.0 && p.1.deep_view() == q.1,
            (Err(e), Err(e2)) => e == e2,
            _ => false,
        },
{
    let ghost tablesdv = db.tables.deep_view();
    let qc = chars_of(query.as_str());
    let toks = tokenize(&qc);
    let ghost parts = spec_tokens(qc@, 0);
    let sel: usize = match token_pos(&qc, &toks, &['S', 'E', 'L', 'E', 'C', 'T']) {
        Some(p) => p,
        None => 0,
    };
    let frm: usize = match token_pos(&qc, &toks, &['F', 'R', 'O', 'M']) {
        Some(p) => p,
        None => 0,
    };
    let ntoks = toks.len();
    proof {
        assert(toks@.len() == parts.len());
    }
    if sel >= ntoks || frm >= ntoks || sel + 1 >= ntoks || frm + 1 >= ntoks {
        return Ok(empty_result());
    }
    let (ca, cb) = (toks[sel + 1].0, toks[sel + 1].1);
    proof {
        assert(parts[sel + 1] == qc@.subrange(ca as int, cb as int));
    }
    let star: &[char] = &['*'];
    let star_eq = range_equals(&qc, ca, cb, star);
    proof {
        assert(star@ =~= seq!['*']);
        assert(star_eq == (parts[sel + 1] == seq!['*']));
    }
    if !star_eq {
        return Ok(empty_result());
    }
    let (na, nb) = (toks[frm + 1].0, toks[frm + 1].1);
    proof {
        assert(parts[frm + 1] == qc@.subrange(na as int, nb as int));
    }
    let tname = string_from_chars(slice_subrange(qc.as_slice(), na, nb));
    let mut ti: usize = 0;
    while ti < db.tables.len()
        invariant
            0 <= ti,
            spec_find_table(tablesdv, tname@, 0) == spec_find_table(tablesdv, tname@, ti as int),
        decreases db.tables@.len() - ti,
    {
        proof {
            assert(tablesdv[ti as int] == db.tables@[ti as int]@);
        }
        if db.tables[ti].name == tname {
            let table = &db.tables[ti];
            proof {
                assert(spec_find_table(tablesdv, tname@, 0) == Some(table@));
            }
            if table.rootpage < 0 || table.rootpage > u32::MAX as i64 {
                return Err(Error::FormatError);
            }
            let mut rows: Vec<Row> = Vec::new();
            match traverse(
                db.image.as_slice(),
                table.rootpage as u32,
                db.page_size,
                &mut rows,
            ) {
                Ok(_) => {
                    proof {
                        let rs = spec_traverse(
                            db.image@,
                            db.page_size as int,
                            table@.rootpage,
                            TRAVERSE_DEPTH as nat,
                        )->Ok_0;
                        assert(Seq::<SpecRow>::empty() + rs =~= rs);
                    }
                    let columns = clone_strings(&table.column_names);
                    proof {
                        assert(columns.deep_view() =~= table.column_names.deep_view());
                    }
                    return Ok((columns, rows));
                },
                Err(e) => {
                    return Err(e);
                },
            }
        }
        ti = ti + 1;
    }
    proof {
        assert(spec_find_table(tablesdv, tname@, db.tables@.len() as int) is None);
    }
    Ok(empty_result())
}

/// The deliberate silent-empty answer: no columns, no rows.
fn empty_result() -> (r: (Vec<String>, Vec<Row>))
    ensures
        r.0.deep_view() == Seq::<Seq<char>>::empty(),
        r.1.deep_view() == Seq::<SpecRow>::empty(),
{
    let r: (Vec<String>, Vec<Row>) = (Vec::new(), Vec::new());
    proof {
        assert(r.0.deep_view() =~= Seq::<Seq<char>>::empty());
        assert(r.1.deep_view() =~= Seq::<SpecRow>::empty());
    }
    r
}

} // verus!
