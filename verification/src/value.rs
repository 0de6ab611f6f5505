//! The serial-type decoder: maps a column's serial type code and the
//! bytes at the column's position to a typed value and the number of
//! bytes it occupies.
//!
//! | code        | meaning      | width            |
//! |-------------|--------------|------------------|
//! | 0           | Null         | 0                |
//! | 1           | signed int   | 1, sign-extended |
//! | 2           | signed int   | 2, sign-extended |
//! | 3           | signed int   | 3, sign-extended |
//! | 4           | signed int   | 4, sign-extended |
//! | 5           | signed int   | 6, sign-extended |
//! | 6           | signed int   | 8                |
//! | 7           | IEEE-754 double | 8, big-endian |
//! | 8           | literal 0    | 0                |
//! | 9           | literal 1    | 0                |
//! | even >= 12  | Blob         | (code-12)/2      |
//! | odd  >= 13  | Text         | (code-13)/2, UTF-8, lossily decoded |
//!
//! Any other code fails with `FormatError`.

use vstd::prelude::*;

use vstd::arithmetic::power2::{
    lemma2_to64, lemma2_to64_rest, lemma_pow2_adds, lemma_pow2_strictly_increases, pow2,
};
use vstd::slice::{slice_subrange, slice_to_vec};

use crate::error::Error;
use crate::text::{lossy_decode, utf8_lossy};

verus! {

/// One decoded column value.  A stored double keeps its IEEE-754 bit
/// pattern, read big-endian, as a `u64`; callers that want the number
/// itself reassemble it from the bits.
#[derive(Debug, PartialEq)]
pub enum Value {
    Null,
    Integer(i64),
    Float(u64),
    Text(String),
    Blob(Vec<u8>),
}

/// The mathematical shape of a `Value`: integers unbounded, text as a
/// character sequence, blobs as a byte sequence.
pub ghost enum SpecValue {
    Null,
    Integer(int),
    Float(u64),
    Text(Seq<char>),
    Blob(Seq<u8>),
}

impl View for Value {
    type V = SpecValue;

    open spec fn view(&self) -> SpecValue {
        match self {
            Value::Null => SpecValue::Null,
            Value::Integer(i) => SpecValue::Integer(*i as int),
            Value::Float(bits) => SpecValue::Float(*bits),
            Value::Text(s) => SpecValue::Text(s@),
            Value::Blob(b) => SpecValue::Blob(b@),
        }
    }
}

impl DeepView for Value {
    type V = SpecValue;

    open spec fn deep_view(&self) -> SpecValue {
        self@
    }
}

impl Value {
    /// The borrowed text of a `Text` value; `None` for every other kind.
    pub fn as_text(&self) -> (r: Option<&str>)
        ensures
            match r {
                Some(s) => self@ == SpecValue::Text(s@),
                None => !(self@ is Text),
            },
    {
        match self {
            Value::Text(s) => Some(s.as_str()),
            _ => None,
        }
    }

    /// The integer of an `Integer` value; `None` for every other kind.
    pub fn as_integer(&self) -> (r: Option<i64>)
        ensures
            match r {
                Some(i) => self@ == SpecValue::Integer(i as int),
                None => !(self@ is Integer),
            },
    {
        match self {
            Value::Integer(i) => Some(*i),
            _ => None,
        }
    }
}

/// Whether the serial type code is one the format defines.
pub open spec fn code_known(code: int) -> bool {
    (0 <= code && code <= 9) || code >= 12
}

/// How many bytes of column data a known serial type code occupies.
/// For codes >= 12, integer division makes `(code - 12) / 2` equal
/// `(code - 13) / 2` on odd codes, so one formula covers blob and text.
pub open spec fn code_width(code: int) -> int {
    if code == 0 || code == 8 || code == 9 {
        0
    } else if code == 1 {
        1
    } else if code == 2 {
        2
    } else if code == 3 {
        3
    } else if code == 4 {
        4
    } else if code == 5 {
        6
    } else if code == 6 || code == 7 {
        8
    } else if code >= 12 {
        (code - 12) / 2
    } else {
        0
    }
}

/// Big-endian unsigned value of the `n` bytes at `pos`.
pub open spec fn be_uint(bytes: Seq<u8>, pos: int, n: int) -> int
    decreases n,
{
    if n <= 0 {
        0
    } else {
        be_uint(bytes, pos, n - 1) * 256 + bytes[pos + n - 1]
    }
}

/// Reads an unsigned `bits`-bit value as a signed one in two's
/// complement: values at or above 2^(bits-1) wrap around to negatives.
pub open spec fn sign_extend(raw: int, bits: nat) -> int {
    if raw >= pow2((bits - 1) as nat) {
        raw - pow2(bits)
    } else {
        raw
    }
}

/// The value that a known serial type code denotes at `pos`.
pub open spec fn spec_decode_value(code: int, bytes: Seq<u8>, pos: int) -> SpecValue
    recommends
        code_known(code),
        0 <= pos && pos + code_width(code) <= bytes.len(),
{
    if code == 0 {
        SpecValue::Null
    } else if 1 <= code <= 6 {
        let n = code_width(code);
        SpecValue::Integer(sign_extend(be_uint(bytes, pos, n), (8 * n) as nat))
    } else if code == 7 {
        SpecValue::Float(be_uint(bytes, pos, 8) as u64)
    } else if code == 8 {
        SpecValue::Integer(0)
    } else if code == 9 {
        SpecValue::Integer(1)
    } else if code % 2 == 0 {
        SpecValue::Blob(bytes.subrange(pos, pos + (code - 12) / 2))
    } else {
        SpecValue::Text(lossy_decode(bytes.subrange(pos, pos + (code - 13) / 2)))
    }
}

/// A stored integer whose most significant bit is set decodes to a
/// negative value — sign extension, not zero extension: the decoded
/// value is the stored one minus 2^bits, never the stored value itself.
pub proof fn lemma_sign_extend_negative(raw: int, bits: nat)
    requires
        1 <= bits,
        pow2((bits - 1) as nat) <= raw < pow2(bits),
    ensures
        sign_extend(raw, bits) == raw - pow2(bits),
        sign_extend(raw, bits) < 0,
{
    lemma_pow2_adds((bits - 1) as nat, 1);
    lemma2_to64();
}

/// A stored integer below 2^(bits-1) decodes to itself.
pub proof fn lemma_sign_extend_positive(raw: int, bits: nat)
    requires
        1 <= bits,
        0 <= raw < pow2((bits - 1) as nat),
    ensures
        sign_extend(raw, bits) == raw,
{
}

/// A big-endian value of `n` bytes is below 2^(8n).
pub proof fn lemma_be_uint_bound(bytes: Seq<u8>, pos: int, n: int)
    requires
        0 <= n,
    ensures
        0 <= be_uint(bytes, pos, n) < pow2((8 * n) as nat),
    decreases n,
{
    lemma2_to64();
    if n == 0 {
    } else {
        lemma_be_uint_bound(bytes, pos, n - 1);
        lemma_pow2_adds((8 * (n - 1)) as nat, 8);
        assert(be_uint(bytes, pos, n - 1) * 256 <= (pow2((8 * (n - 1)) as nat) - 1) * 256);
    }
}

/// Reads the big-endian unsigned value of the `n` bytes at `pos`.
pub(crate) fn read_be_uint(data: &[u8], pos: usize, n: usize) -> (r: u64)
    requires
        pos + n <= data@.len(),
        n <= 8,
    ensures
        r as int == be_uint(data@, pos as int, n as int),
{
    let len = data.len();
    let mut r: u64 = 0;
    let mut i: usize = 0;
    proof {
        lemma2_to64();
    }
    while i < n
        invariant
            0 <= i <= n <= 8,
            len == data@.len(),
            pos + n <= len,
            r < pow2((8 * i) as nat),
            r as int == be_uint(data@, pos as int, i as int),
        decreases n - i,
    {
        proof {
            lemma2_to64();
            lemma2_to64_rest();
            if 8 * i < 56 {
                lemma_pow2_strictly_increases((8 * i) as nat, 56);
            }
            lemma_pow2_adds((8 * i) as nat, 8);
            assert(r * 256 <= (pow2((8 * i) as nat) - 1) * 256);
        }
        r = r * 256 + (data[pos + i] as u64);
        i = i + 1;
    }
    r
}

/// Reads the `n`-byte big-endian two's-complement integer at `pos`,
/// sign-extending from its most significant stored byte.
fn read_signed(data: &[u8], pos: usize, n: usize) -> (r: i64)
    requires
        pos + n <= data@.len(),
        1 <= n <= 8,
    ensures
        r as int == sign_extend(be_uint(data@, pos as int, n as int), (8 * n) as nat),
{
    let raw = read_be_uint(data, pos, n);
    proof {
        lemma2_to64();
        lemma2_to64_rest();
        lemma_be_uint_bound(data@, pos as int, n as int);
    }
    if n == 8 {
        if raw >= 0x8000000000000000 {
            let mag = u64::MAX - raw;
            -(mag as i64) - 1
        } else {
            raw as i64
        }
    } else {
        let mut full: u64 = 1;
        let mut i: usize = 0;
        while i < n
            invariant
                0 <= i <= n <= 7,
                full == pow2((8 * i) as nat),
        decreases n - i,
        {
            proof {
                lemma2_to64();
                lemma2_to64_rest();
                if 8 * i < 56 {
                    lemma_pow2_strictly_increases((8 * i) as nat, 56);
                }
                lemma_pow2_adds((8 * i) as nat, 8);
            }
            full = full * 256;
            i = i + 1;
        }
        proof {
            lemma_pow2_adds((8 * n - 1) as nat, 1);
        }
        if raw >= full / 2 {
            -((full - raw) as i64)
        } else {
            raw as i64
        }
    }
}

/// Decodes the value that serial type `code` denotes at `pos` in
/// `data`, together with the number of bytes it occupies there.
/// Fails with `FormatError` exactly on the undefined codes 10 and 11,
/// and with `TruncatedCell` exactly when the value's bytes run past
/// the end of `data`.
pub fn parse_type_code_at(code: u64, data: &[u8], pos: usize) -> (r: Result<(Value, usize), Error>)
    ensures
        match r {
            Ok(p) => code_known(code as int) && pos + code_width(code as int) <= data@.len()
                && p.0@ == spec_decode_value(code as int, data@, pos as int) && p.1 as int
                == code_width(code as int),
            Err(e) => (e == Error::FormatError && !code_known(code as int)) || (e
                == Error::TruncatedCell && code_known(code as int) && pos + code_width(
                code as int,
            ) > data@.len()),
        },
{
    if code == 10 || code == 11 {
        return Err(Error::FormatError);
    }
    if pos > data.len() {
        return Err(Error::TruncatedCell);
    }
    if code == 0 {
        return Ok((Value::Null, 0));
    }
    if code == 8 {
        return Ok((Value::Integer(0), 0));
    }
    if code == 9 {
        return Ok((Value::Integer(1), 0));
    }
    if code <= 6 {
        let n: usize = if code == 1 {
            1
        } else if code == 2 {
            2
        } else if code == 3 {
            3
        } else if code == 4 {
            4
        } else if code == 5 {
            6
        } else {
            8
        };
        if pos >= data.len() || data.len() - pos < n {
            return Err(Error::TruncatedCell);
        }
        return Ok((Value::Integer(read_signed(data, pos, n)), n));
    }
    if code == 7 {
        if pos >= data.len() || data.len() - pos < 8 {
            return Err(Error::TruncatedCell);
        }
        proof {
            lemma_be_uint_bound(data@, pos as int, 8);
            lemma2_to64();
        }
        return Ok((Value::Float(read_be_uint(data, pos, 8)), 8));
    }
    // code >= 12: blob or text
    let width64 = (code - 12) / 2;
    if ((data.len() - pos) as u64) < width64 {
        return Err(Error::TruncatedCell);
    }
    let width = width64 as usize;
    let bytes = slice_subrange(data, pos, pos + width);
    if code % 2 == 0 {
        Ok((Value::Blob(slice_to_vec(bytes)), width))
    } else {
        Ok((Value::Text(utf8_lossy(bytes)), width))
    }
}

/// Decodes the value that serial type `code` denotes at the start of
/// `data`; see `parse_type_code_at`.
pub fn parse_type_code(code: u64, data: &[u8]) -> (r: Result<(Value, usize), Error>)
    ensures
        match r {
            Ok(p) => code_known(code as int) && code_width(code as int) <= data@.len() && p.0@
                == spec_decode_value(code as int, data@, 0) && p.1 as int == code_width(
                code as int,
            ),
            Err(e) => (e == Error::FormatError && !code_known(code as int)) || (e
                == Error::TruncatedCell && code_known(code as int) && code_width(code as int)
                > data@.len()),
        },
{
    parse_type_code_at(code, data, 0)
}

} // verus!
