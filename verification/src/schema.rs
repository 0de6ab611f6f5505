//! The schema catalog: the table name → root page / column list
//! mapping, built once per file by traversing the catalog table stored
//! at page 1.
//!
//! A catalog row describes a table when its first value is the text
//! `table`; the table's name is the second value, its root page the
//! fourth, and its column names are extracted from the fifth — the
//! table's literal definition text — by taking the text between the
//! first `(` and the last `)`, splitting it on commas, trimming each
//! piece, dropping empty pieces and constraint clauses (`FOREIGN`,
//! `PRIMARY`, `UNIQUE`, `CHECK`), and keeping the first
//! whitespace-delimited word of each remaining piece, in order.
//! Catalog rows of any other shape (views, indexes, triggers, or rows
//! whose values are not of the expected types) are ignored.

use vstd::prelude::*;

use crate::btree::{spec_traverse, traverse, TRAVERSE_DEPTH};
use crate::cell::{Row, SpecRow};
use crate::chars::{
    find_char, find_space, is_space, range_has_prefix, rfind_char, spec_find, spec_find_space,
    spec_has_prefix, spec_is_space, spec_rfind,
};
use crate::error::Error;
use crate::text::{chars_of, string_from_chars};
use crate::value::SpecValue;
use vstd::slice::slice_subrange;

verus! {

/// One table of the catalog: its name, the page its B-tree starts at,
/// and its column names in declaration order.
#[derive(Debug)]
pub struct Table {
    pub name: String,
    pub rootpage: i64,
    pub column_names: Vec<String>,
}

/// The mathematical shape of a `Table`.
pub ghost struct SpecTable {
    pub name: Seq<char>,
    pub rootpage: int,
    pub column_names: Seq<Seq<char>>,
}

impl View for Table {
    type V = SpecTable;

    open spec fn view(&self) -> SpecTable {
        SpecTable {
            name: self.name@,
            rootpage: self.rootpage as int,
            column_names: self.column_names.deep_view(),
        }
    }
}

impl DeepView for Table {
    type V = SpecTable;

    open spec fn deep_view(&self) -> SpecTable {
        self@
    }
}

/// `s` with leading whitespace removed.
pub open spec fn spec_trim_start(s: Seq<char>) -> Seq<char>
    decreases s.len(),
{
    if s.len() > 0 && spec_is_space(s[0]) {
        spec_trim_start(s.drop_first())
    } else {
        s
    }
}

/// `s` with trailing whitespace removed.
pub open spec fn spec_trim_end(s: Seq<char>) -> Seq<char>
    decreases s.len(),
{
    if s.len() > 0 && spec_is_space(s.last()) {
        spec_trim_end(s.drop_last())
    } else {
        s
    }
}

/// `s` with surrounding whitespace removed.
pub open spec fn spec_trim(s: Seq<char>) -> Seq<char> {
    spec_trim_end(spec_trim_start(s))
}

/// The first whitespace-delimited word of `s` (all of `s` when it
/// holds no whitespace).
pub open spec fn spec_first_token(s: Seq<char>) -> Seq<char> {
    match spec_find_space(s, 0) {
        Some(k) => s.subrange(0, k),
        None => s,
    }
}

/// Whether a trimmed definition piece is a constraint clause rather
/// than a column.
pub open spec fn spec_is_constraint(t: Seq<char>) -> bool {
    ||| spec_has_prefix(t, seq!['F', 'O', 'R', 'E', 'I', 'G', 'N'])
    ||| spec_has_prefix(t, seq!['P', 'R', 'I', 'M', 'A', 'R', 'Y'])
    ||| spec_has_prefix(t, seq!['U', 'N', 'I', 'Q', 'U', 'E'])
    ||| spec_has_prefix(t, seq!['C', 'H', 'E', 'C', 'K'])
}

/// The comma-separated pieces of `s` between `from` and `end`, in
/// order.  A piece is the text up to the next comma before `end`, or up
/// to `end` itself for the last piece.
pub open spec fn spec_segments(s: Seq<char>, from: int, end: int) -> Seq<Seq<char>>
    decreases end - from,
    via spec_segments_dec
{
    if !(0 <= from <= end <= s.len()) {
        Seq::empty()
    } else {
        let k = spec_find(s, ',', from);
        if k is Some && k->Some_0 < end {
            seq![s.subrange(from, k->Some_0)] + spec_segments(s, k->Some_0 + 1, end)
        } else {
            seq![s.subrange(from, end)]
        }
    }
}

#[via_fn]
proof fn spec_segments_dec(s: Seq<char>, from: int, end: int) {
    if 0 <= from <= end <= s.len() {
        lemma_find_props(s, ',', from);
    }
}

/// Where `spec_find` points: at the first occurrence at or after
/// `from`, with none before it.
pub proof fn lemma_find_props(s: Seq<char>, c: char, from: int)
    ensures
        match spec_find(s, c, from) {
            Some(k) => from <= k < s.len() && s[k] == c,
            None => true,
        },
    decreases s.len() - from,
{
    if from < 0 || from >= s.len() {
    } else if s[from] == c {
    } else {
        lemma_find_props(s, c, from + 1);
    }
}

/// Where `spec_find_space` points, and that everything before it is
/// not whitespace.
pub proof fn lemma_find_space_props(s: Seq<char>, from: int)
    ensures
        0 <= from ==> match spec_find_space(s, from) {
            Some(k) => from <= k < s.len() && spec_is_space(s[k]) && (forall|j: int|
                from <= j < k ==> !spec_is_space(s[j])),
            None => forall|j: int| from <= j < s.len() ==> !spec_is_space(s[j]),
        },
    decreases s.len() - from,
{
    if from < 0 || from >= s.len() {
    } else if spec_is_space(s[from]) {
    } else {
        lemma_find_space_props(s, from + 1);
    }
}

/// `spec_find_space` inside the window `[a, b)` of `s` agrees with
/// `spec_find_space` on the window taken as its own sequence.
proof fn lemma_find_space_in_window(s: Seq<char>, a: int, b: int, i: int)
    requires
        0 <= a <= b <= s.len(),
        a <= i,
    ensures
        ({
            let t = s.subrange(a, b);
            match spec_find_space(s, i) {
                Some(j) => if j < b {
                    spec_find_space(t, i - a) == Some(j - a)
                } else {
                    spec_find_space(t, i - a) is None
                },
                None => spec_find_space(t, i - a) is None,
            }
        }),
    decreases b - i,
{
    let t = s.subrange(a, b);
    if i >= b {
        lemma_find_space_props(s, i);
    } else {
        assert(t[i - a] == s[i]);
        if spec_is_space(s[i]) {
        } else {
            lemma_find_space_in_window(s, a, b, i + 1);
        }
    }
}

/// The column names contributed by the given definition pieces: each
/// piece trimmed; empty and constraint pieces dropped; the first word
/// of each remaining piece kept, in order.
pub open spec fn spec_columns_of_segments(segs: Seq<Seq<char>>) -> Seq<Seq<char>>
    decreases segs.len(),
{
    if segs.len() == 0 {
        Seq::empty()
    } else {
        let t = spec_trim(segs[0]);
        let rest = spec_columns_of_segments(segs.drop_first());
        if t.len() == 0 || spec_is_constraint(t) {
            rest
        } else {
            seq![spec_first_token(t)] + rest
        }
    }
}

/// The column names a table definition text declares: extracted from
/// the text between the first `(` and the last `)`; empty when there is
/// no such well-formed parenthesised list.
pub open spec fn spec_column_names(def: Seq<char>) -> Seq<Seq<char>> {
    match spec_find(def, '(', 0) {
        None => Seq::empty(),
        Some(start) => match spec_rfind(def, ')', def.len() - 1) {
            None => Seq::empty(),
            Some(end) => if start + 1 <= end {
                spec_columns_of_segments(spec_segments(def, start + 1, end))
            } else {
                Seq::empty()
            },
        },
    }
}

/// Extracts the declared column names from a table definition text.
#[verifier::loop_isolation(false)]
pub fn parse_column_names(def: &str) -> (r: Vec<String>)
    ensures
        r.deep_view() == spec_column_names(def@),
{
    let chars = chars_of(def);
    let mut out: Vec<String> = Vec::new();
    proof {
        assert(out.deep_view() =~= Seq::<Seq<char>>::empty());
    }
    let start = match find_char(&chars, '(', 0) {
        Some(k) => k,
        None => {
            return out;
        },
    };
    if chars.len() == 0 {
        return out;
    }
    let end = match rfind_char(&chars, ')', chars.len() - 1) {
        Some(k) => k,
        None => {
            return out;
        },
    };
    proof {
        lemma_find_props(chars@, '(', 0);
        lemma_rfind_props(chars@, ')', chars@.len() - 1);
        assert(start < chars@.len());
    }
    if end < start || end - start < 1 {
        return out;
    }
    let mut from: usize = start + 1;
    loop
        invariant
            start + 1 <= from <= end,
            end < chars@.len(),
            out.deep_view() + spec_columns_of_segments(spec_segments(chars@, from as int, end as int))
                == spec_column_names(def@),
        decreases end - from,
    {
        // The current piece runs to the next comma before `end`, or to
        // `end` itself.
        let (seg_end, last): (usize, bool) = match find_char(&chars, ',', from) {
            Some(k) if k < end => (k, false),
            _ => (end, true),
        };
        proof {
            lemma_find_props(chars@, ',', from as int);
        }
        let ghost seg = chars@.subrange(from as int, seg_end as int);
        let ghost segs = spec_segments(chars@, from as int, end as int);
        let ghost rest_segs = spec_segments(chars@, seg_end + 1, end as int);
        proof {
            if last {
                assert(segs =~= seq![seg]);
                assert(seq![seg].drop_first() =~= Seq::<Seq<char>>::empty());
            } else {
                assert(segs =~= seq![seg] + rest_segs);
                assert((seq![seg] + rest_segs).drop_first() =~= rest_segs);
            }
            assert(segs[0] == seg);
        }
        // Trim the piece: advance past leading whitespace, then pull
        // the end back past trailing whitespace.
        let mut a: usize = from;
        while a < seg_end && is_space(chars[a])
            invariant
                from <= a <= seg_end,
                spec_trim_start(chars@.subrange(from as int, seg_end as int)) == spec_trim_start(
                    chars@.subrange(a as int, seg_end as int),
                ),
            decreases seg_end - a,
        {
            proof {
                assert(chars@.subrange(a as int, seg_end as int).drop_first() =~= chars@.subrange(
                    a + 1,
                    seg_end as int,
                ));
            }
            a = a + 1;
        }
        proof {
            assert(spec_trim_start(seg) == chars@.subrange(a as int, seg_end as int));
        }
        let mut b: usize = seg_end;
        while b > a && is_space(chars[b - 1])
            invariant
                a <= b <= seg_end,
                spec_trim_end(chars@.subrange(a as int, seg_end as int)) == spec_trim_end(
                    chars@.subrange(a as int, b as int),
                ),
            decreases b,
        {
            proof {
                assert(chars@.subrange(a as int, b as int).drop_last() =~= chars@.subrange(
                    a as int,
                    b - 1,
                ));
            }
            b = b - 1;
        }
        let ghost t = spec_trim(seg);
        proof {
            assert(t == chars@.subrange(a as int, b as int));
        }
        // Keep the piece's first word unless the piece is empty or a
        // constraint clause.
        if b > a && !is_constraint_range(&chars, a, b) {
            let tok_end: usize = match find_space(&chars, a) {
                Some(j) if j < b => j,
                _ => b,
            };
            proof {
                lemma_find_space_in_window(chars@, a as int, b as int, a as int);
                lemma_find_space_props(chars@, a as int);
                assert(spec_first_token(t) =~= chars@.subrange(a as int, tok_end as int));
            }
            let name = string_from_chars(slice_subrange(chars.as_slice(), a, tok_end));
            let ghost pre = out.deep_view();
            let ghost prevv = out@;
            let ghost namev = name@;
            out.push(name);
            proof {
                assert(out.deep_view() =~= pre + seq![namev]) by {
                    assert(forall|k2: int| 0 <= k2 < prevv.len() ==> out@[k2] == prevv[k2]);
                    assert(out@[prevv.len() as int]@ == namev);
                }
                assert(pre + (seq![namev] + spec_columns_of_segments(segs.drop_first())) =~= (pre
                    + seq![namev]) + spec_columns_of_segments(segs.drop_first()));
            }
        }
        if last {
            proof {
                assert(spec_columns_of_segments(Seq::<Seq<char>>::empty())
                    =~= Seq::<Seq<char>>::empty());
                assert(out.deep_view() + Seq::<Seq<char>>::empty() =~= out.deep_view());
            }
            return out;
        }
        from = seg_end + 1;
    }
}

/// Where `spec_rfind` points: at an occurrence.
pub proof fn lemma_rfind_props(s: Seq<char>, c: char, from: int)
    ensures
        match spec_rfind(s, c, from) {
            Some(k) => 0 <= k < s.len() && s[k] == c,
            None => true,
        },
    decreases (if from < 0 {
        0int
    } else {
        from + 1
    }),
{
    if from < 0 {
    } else if from >= s.len() {
        lemma_rfind_props(s, c, s.len() - 1);
    } else if s[from] == c {
    } else {
        lemma_rfind_props(s, c, from - 1);
    }
}

/// Whether the characters of `chars` in `[a, b)` start with one of the
/// four constraint keywords.
fn is_constraint_range(chars: &Vec<char>, a: usize, b: usize) -> (r: bool)
    requires
        a <= b <= chars@.len(),
    ensures
        r == spec_is_constraint(chars@.subrange(a as int, b as int)),
{
    range_has_prefix(chars, a, b, &['F', 'O', 'R', 'E', 'I', 'G', 'N']) || range_has_prefix(
        chars,
        a,
        b,
        &['P', 'R', 'I', 'M', 'A', 'R', 'Y'],
    ) || range_has_prefix(chars, a, b, &['U', 'N', 'I', 'Q', 'U', 'E']) || range_has_prefix(
        chars,
        a,
        b,
        &['C', 'H', 'E', 'C', 'K'],
    )
}

/// The catalog table a row describes, when it describes one: the row
/// must have at least five values, its first value must be the text
/// `table`, and its name, root page and definition values must be of
/// the expected types; every other row is ignored.
pub open spec fn spec_table_of_row(row: SpecRow) -> Option<SpecTable> {
    if row.values.len() >= 5 && row.values[0] == SpecValue::Text(
        seq!['t', 'a', 'b', 'l', 'e'],
    ) && row.values[1] is Text && row.values[3] is Integer && row.values[4] is Text {
        Some(
            SpecTable {
                name: row.values[1]->Text_0,
                rootpage: row.values[3]->Integer_0,
                column_names: spec_column_names(row.values[4]->Text_0),
            },
        )
    } else {
        None
    }
}

/// The tables described by the given catalog rows, in row order.
pub open spec fn spec_tables_of_rows(rows: Seq<SpecRow>) -> Seq<SpecTable>
    decreases rows.len(),
{
    if rows.len() == 0 {
        Seq::empty()
    } else {
        let rest = spec_tables_of_rows(rows.drop_first());
        match spec_table_of_row(rows[0]) {
            Some(t) => seq![t] + rest,
            None => rest,
        }
    }
}

/// What building the catalog from the image yields: the tables
/// described by the rows reachable under page 1, or the first error
/// met while traversing the catalog tree.
pub open spec fn spec_parse_tables(image: Seq<u8>, page_size: int) -> Result<Seq<SpecTable>, Error> {
    match spec_traverse(image, page_size, 1, TRAVERSE_DEPTH as nat) {
        Err(e) => Err(e),
        Ok(rows) => Ok(spec_tables_of_rows(rows)),
    }
}

/// Builds the catalog: traverses the catalog table at page 1 and
/// records every table it describes.
#[verifier::loop_isolation(false)]
pub fn parse_tables(image: &[u8], page_size: u16) -> (r: Result<Vec<Table>, Error>)
    ensures
        match r {
            Ok(tables) => spec_parse_tables(image@, page_size as int) == Ok::<
                Seq<SpecTable>,
                Error,
            >(tables.deep_view()),
            Err(e) => spec_parse_tables(image@, page_size as int) == Err::<Seq<SpecTable>, Error>(
                e,
            ),
        },
{
    let mut rows: Vec<Row> = Vec::new();
    match traverse(image, 1, page_size, &mut rows) {
        Ok(_) => {},
        Err(e) => {
            return Err(e);
        },
    }
    proof {
        let rs = spec_traverse(image@, page_size as int, 1, TRAVERSE_DEPTH as nat)->Ok_0;
        assert(Seq::<SpecRow>::empty() + rs =~= rs);
    }
    let ghost all = rows.deep_view();
    let mut tables: Vec<Table> = Vec::new();
    let mut i: usize = 0;
    proof {
        assert(all.skip(0) =~= all);
        assert(tables.deep_view() =~= Seq::<SpecTable>::empty());
    }
    while i < rows.len()
        invariant
            0 <= i <= rows@.len(),
            all == rows.deep_view(),
            tables.deep_view() + spec_tables_of_rows(all.skip(i as int)) == spec_tables_of_rows(
                all,
            ),
        decreases rows@.len() - i,
    {
        proof {
            assert(all.skip(i as int).drop_first() =~= all.skip(i + 1));
            assert(all.skip(i as int)[0] == rows@[i as int]@);
        }
        let row = &rows[i];
        if row.values.len() >= 5 {
            let kind_is_table: bool = match row.values[0].as_text() {
                Some(k) => {
                    let kc = chars_of(k);
                    if kc.len() == 5 {
                        let eq = crate::chars::range_equals(&kc, 0, 5, &['t', 'a', 'b', 'l', 'e']);
                        proof {
                            assert(kc@.subrange(0, 5) =~= kc@);
                            if eq {
                                assert(k@ =~= seq!['t', 'a', 'b', 'l', 'e']);
                            }
                        }
                        eq
                    } else {
                        false
                    }
                },
                None => false,
            };
            proof {
                if kind_is_table {
                    assert(row@.values[0] == SpecValue::Text(seq!['t', 'a', 'b', 'l', 'e']));
                }
            }
            if kind_is_table {
                match (row.values[1].as_text(), row.values[3].as_integer(), row.values[4].as_text()) {
                    (Some(name), Some(rootpage), Some(defn)) => {
                        let table = Table {
                            name: name.to_owned(),
                            rootpage,
                            column_names: parse_column_names(defn),
                        };
                        let ghost pre = tables.deep_view();
                        let ghost prevv = tables@;
                        let ghost tv = table@;
                        tables.push(table);
                        proof {
                            assert(tables.deep_view() =~= pre + seq![tv]) by {
                                assert(forall|k2: int|
                                    0 <= k2 < prevv.len() ==> tables@[k2] == prevv[k2]);
                                assert(tables@[prevv.len() as int]@ == tv);
                            }
                            assert(pre + (seq![tv] + spec_tables_of_rows(all.skip(i + 1))) =~= (pre
                                + seq![tv]) + spec_tables_of_rows(all.skip(i + 1)));
                        }
                    },
                    _ => {},
                }
            }
        }
        i = i + 1;
    }
    proof {
        assert(all.skip(rows@.len() as int) =~= Seq::<SpecRow>::empty());
        assert(tables.deep_view() + Seq::<SpecTable>::empty() =~= tables.deep_view());
    }
    Ok(tables)
}

} // verus!
