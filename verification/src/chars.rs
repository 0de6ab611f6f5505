//! Character-sequence helpers shared by the schema parser and the
//! query tokenizer: finding a character, trimming, prefix tests and
//! whitespace.  Whitespace here is the ASCII set — space, tab, newline
//! and carriage return — which covers the definition texts and query
//! strings this library reads.

use vstd::prelude::*;

verus! {

/// Whether `c` is (ASCII) whitespace.
pub open spec fn spec_is_space(c: char) -> bool {
    c == ' ' || c == '\t' || c == '\n' || c == '\r'
}

/// Whether `c` is whitespace.
pub fn is_space(c: char) -> (r: bool)
    ensures
        r == spec_is_space(c),
{
    c == ' ' || c == '\t' || c == '\n' || c == '\r'
}

/// The first index at or after `from` where `c` occurs in `s`.
pub open spec fn spec_find(s: Seq<char>, c: char, from: int) -> Option<int>
    decreases s.len() - from,
{
    if from < 0 || from >= s.len() {
        None
    } else if s[from] == c {
        Some(from)
    } else {
        spec_find(s, c, from + 1)
    }
}

/// The last index at or before `from` where `c` occurs in `s`.
pub open spec fn spec_rfind(s: Seq<char>, c: char, from: int) -> Option<int>
    decreases (if from < 0 {
        0int
    } else {
        from + 1
    }),
{
    if from < 0 {
        None
    } else if from >= s.len() {
        spec_rfind(s, c, s.len() - 1)
    } else if s[from] == c {
        Some(from)
    } else {
        spec_rfind(s, c, from - 1)
    }
}

/// The first index at or after `from` holding whitespace.
pub open spec fn spec_find_space(s: Seq<char>, from: int) -> Option<int>
    decreases s.len() - from,
{
    if from < 0 || from >= s.len() {
        None
    } else if spec_is_space(s[from]) {
        Some(from)
    } else {
        spec_find_space(s, from + 1)
    }
}

/// Whether `p` is a prefix of `s`.
pub open spec fn spec_has_prefix(s: Seq<char>, p: Seq<char>) -> bool {
    p.len() <= s.len() && s.subrange(0, p.len() as int) == p
}

/// Finds the first occurrence of `c` in `chars` at or after `from`.
#[verifier::loop_isolation(false)]
pub fn find_char(chars: &Vec<char>, c: char, from: usize) -> (r: Option<usize>)
    ensures
        match r {
            Some(k) => spec_find(chars@, c, from as int) == Some(k as int),
            None => spec_find(chars@, c, from as int) is None,
        },
{
    let mut i: usize = from;
    while i < chars.len()
        invariant
            from <= i,
            spec_find(chars@, c, from as int) == spec_find(chars@, c, i as int),
        decreases chars@.len() - i,
    {
        if chars[i] == c {
            return Some(i);
        }
        i = i + 1;
    }
    None
}

/// Finds the last occurrence of `c` in `chars` at or before `from`.
#[verifier::loop_isolation(false)]
pub fn rfind_char(chars: &Vec<char>, c: char, from: usize) -> (r: Option<usize>)
    ensures
        match r {
            Some(k) => spec_rfind(chars@, c, from as int) == Some(k as int),
            None => spec_rfind(chars@, c, from as int) is None,
        },
{
    if chars.len() == 0 {
        proof {
            assert(spec_rfind(chars@, c, chars@.len() - 1) is None);
        }
        return None;
    }
    let mut i: usize = if from >= chars.len() {
        chars.len() - 1
    } else {
        from
    };
    loop
        invariant
            i < chars@.len(),
            spec_rfind(chars@, c, from as int) == spec_rfind(chars@, c, i as int),
        decreases i + 1,
    {
        if chars[i] == c {
            return Some(i);
        }
        if i == 0 {
            proof {
                assert(spec_rfind(chars@, c, -1) is None);
            }
            return None;
        }
        i = i - 1;
    }
}

/// Finds the first whitespace character in `chars` at or after `from`.
#[verifier::loop_isolation(false)]
pub fn find_space(chars: &Vec<char>, from: usize) -> (r: Option<usize>)
    ensures
        match r {
            Some(k) => spec_find_space(chars@, from as int) == Some(k as int),
            None => spec_find_space(chars@, from as int) is None,
        },
{
    let mut i: usize = from;
    while i < chars.len()
        invariant
            from <= i,
            spec_find_space(chars@, from as int) == spec_find_space(chars@, i as int),
        decreases chars@.len() - i,
    {
        if is_space(chars[i]) {
            return Some(i);
        }
        i = i + 1;
    }
    None
}

/// Whether the characters of `chars` in `[a, b)` start with `pat`.
#[verifier::loop_isolation(false)]
pub fn range_has_prefix(chars: &Vec<char>, a: usize, b: usize, pat: &[char]) -> (r: bool)
    requires
        a <= b <= chars@.len(),
    ensures
        r == spec_has_prefix(chars@.subrange(a as int, b as int), pat@),
{
    if b - a < pat.len() {
        proof {
            assert(chars@.subrange(a as int, b as int).len() < pat@.len());
        }
        return false;
    }
    let mut i: usize = 0;
    while i < pat.len()
        invariant
            0 <= i <= pat@.len(),
            pat@.len() <= b - a,
            forall|k: int| 0 <= k < i ==> chars@[a + k] == pat@[k],
        decreases pat@.len() - i,
    {
        if chars[a + i] != pat[i] {
            proof {
                assert(chars@.subrange(a as int, b as int)[i as int] != pat@[i as int]);
            }
            return false;
        }
        i = i + 1;
    }
    proof {
        assert(chars@.subrange(a as int, b as int).subrange(0, pat@.len() as int) =~= pat@);
    }
    true
}

/// Whether the characters of `chars` in `[a, b)` are exactly `pat`.
pub fn range_equals(chars: &Vec<char>, a: usize, b: usize, pat: &[char]) -> (r: bool)
    requires
        a <= b <= chars@.len(),
    ensures
        r == (chars@.subrange(a as int, b as int) == pat@),
{
    if b - a != pat.len() {
        proof {
            assert(chars@.subrange(a as int, b as int).len() != pat@.len());
        }
        return false;
    }
    let r = range_has_prefix(chars, a, b, pat);
    proof {
        if r {
            assert(chars@.subrange(a as int, b as int) =~= chars@.subrange(
                a as int,
                b as int,
            ).subrange(0, pat@.len() as int));
        } else {
            assert(chars@.subrange(a as int, b as int).subrange(0, pat@.len() as int) =~= chars@
                .subrange(a as int, b as int));
        }
    }
    r
}

} // verus!
