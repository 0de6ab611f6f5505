//! The variable-length integer codec: big-endian base-128 with a
//! continuation bit.  Each byte's top bit says whether another byte
//! follows; the low 7 bits are data, most significant group first.  At
//! most 9 bytes are consumed, and the 9th byte, when it is reached,
//! contributes all 8 of its bits so that the full 64-bit range is
//! representable.

use vstd::prelude::*;

use vstd::arithmetic::div_mod::lemma_fundamental_div_mod;
use vstd::arithmetic::power2::{
    lemma2_to64, lemma2_to64_rest, lemma_pow2_adds, lemma_pow2_strictly_increases,
    pow2,
};

use crate::error::Error;

verus! {

/// Decodes the varint that starts at `pos` in `bytes`, having already
/// consumed `k` bytes whose data bits accumulate to `acc`.  Yields the
/// decoded value and the total number of bytes consumed, or `None` when
/// the buffer ends before a terminating byte.
pub open spec fn varint_rec(bytes: Seq<u8>, pos: int, k: int, acc: int) -> Option<(int, int)>
    decreases 8 - k,
{
    if pos < 0 || pos >= bytes.len() || k < 0 || k > 8 {
        None
    } else if k == 8 {
        Some((acc * 256 + bytes[pos], 9))
    } else if bytes[pos] < 128 {
        Some((acc * 128 + bytes[pos], k + 1))
    } else {
        varint_rec(bytes, pos + 1, k + 1, acc * 128 + (bytes[pos] - 128))
    }
}

/// The value and byte length of the varint at `pos` in `bytes`, or
/// `None` when the buffer is too short to hold one.
pub open spec fn spec_varint(bytes: Seq<u8>, pos: int) -> Option<(int, int)> {
    varint_rec(bytes, pos, 0, 0)
}

/// A decoded varint fits in 64 bits and consumes between `k + 1` and 9
/// bytes, provided the accumulator is still within its 7-bit-per-byte
/// budget.
pub proof fn lemma_varint_rec_bound(bytes: Seq<u8>, pos: int, k: int, acc: int)
    requires
        0 <= k <= 8,
        0 <= acc < pow2((7 * k) as nat),
    ensures
        match varint_rec(bytes, pos, k, acc) {
            Some(r) => 0 <= r.0 < pow2(64) && k < r.1 <= 9,
            None => true,
        },
    decreases 8 - k,
{
    lemma2_to64();
    lemma2_to64_rest();
    if pos < 0 || pos >= bytes.len() || k > 8 {
    } else if k == 8 {
        assert(acc * 256 <= (pow2(56) - 1) * 256);
    } else if bytes[pos] < 128 {
        lemma_pow2_adds((7 * k) as nat, 7);
        assert(acc * 128 <= (pow2((7 * k) as nat) - 1) * 128);
        assert(acc * 128 + bytes[pos] < pow2((7 * k + 7) as nat));
        if 7 * k + 7 < 64 {
            lemma_pow2_strictly_increases((7 * k + 7) as nat, 64);
        }
    } else {
        lemma_pow2_adds((7 * k) as nat, 7);
        assert(acc * 128 <= (pow2((7 * k) as nat) - 1) * 128);
        lemma_varint_rec_bound(bytes, pos + 1, k + 1, acc * 128 + (bytes[pos] - 128));
    }
}

/// Decodes the varint at `pos` in `bytes`, returning its value and the
/// number of bytes it occupies.  Fails with `TruncatedVarint` when the
/// buffer ends before a terminating byte.
pub fn parse_varint_at(bytes: &[u8], pos: usize) -> (r: Result<(u64, usize), Error>)
    ensures
        match r {
            Ok(p) => spec_varint(bytes@, pos as int) == Some((p.0 as int, p.1 as int)),
            Err(e) => e == Error::TruncatedVarint && spec_varint(bytes@, pos as int) is None,
        },
{
    let mut value: u64 = 0;
    let mut i: usize = 0;
    proof {
        lemma2_to64();
    }
    loop
        invariant
            0 <= i <= 8,
            value < pow2((7 * i) as nat),
            varint_rec(bytes@, pos as int, 0, 0) == varint_rec(
                bytes@,
                pos + i,
                i as int,
                value as int,
            ),
        decreases 9 - i,
    {
        proof {
            lemma2_to64();
            lemma2_to64_rest();
            if 7 * i < 56 {
                lemma_pow2_strictly_increases((7 * i) as nat, 56);
            }
        }
        if pos >= bytes.len() || bytes.len() - pos <= i {
            return Err(Error::TruncatedVarint);
        }
        let b = bytes[pos + i];
        if i == 8 {
            return Ok((value * 256 + (b as u64), 9));
        }
        if b < 128 {
            return Ok((value * 128 + (b as u64), i + 1));
        }
        proof {
            lemma_pow2_adds((7 * i) as nat, 7);
            assert(value * 128 <= (pow2((7 * i) as nat) - 1) * 128);
        }
        value = value * 128 + ((b - 128) as u64);
        i = i + 1;
    }
}

/// Decodes the varint at the start of `bytes`: its value and the exact
/// number of bytes consumed, or `TruncatedVarint` when the buffer ends
/// before a terminating byte is found within the first 9 bytes.
pub fn parse_varint(bytes: &[u8]) -> (r: Result<(u64, usize), Error>)
    ensures
        match r {
            Ok(p) => spec_varint(bytes@, 0) == Some((p.0 as int, p.1 as int)),
            Err(e) => e == Error::TruncatedVarint && spec_varint(bytes@, 0) is None,
        },
{
    parse_varint_at(bytes, 0)
}

/// The base-128 digits of `g`, most significant first, each carrying
/// the continuation bit; empty when `g` is 0.
pub open spec fn cont_digits(g: int) -> Seq<u8>
    decreases g,
{
    if g <= 0 {
        Seq::empty()
    } else {
        cont_digits(g / 128) + seq![(g % 128 + 128) as u8]
    }
}

/// The base-128 digits of `g` padded on the left to exactly `m` digits,
/// each carrying the continuation bit.
pub open spec fn cont_digits_n(g: int, m: int) -> Seq<u8>
    decreases m,
{
    if m <= 0 {
        Seq::empty()
    } else {
        cont_digits_n(g / 128, m - 1) + seq![(g % 128 + 128) as u8]
    }
}

/// How many base-128 digits `g` has; 0 for 0.
pub open spec fn digit_count(g: int) -> int
    decreases g,
{
    if g <= 0 {
        0
    } else {
        1 + digit_count(g / 128)
    }
}

proof fn lemma_cont_digits_n_len(g: int, m: int)
    ensures
        cont_digits_n(g, m).len() == if m <= 0 {
            0int
        } else {
            m
        },
    decreases m,
{
    if m > 0 {
        lemma_cont_digits_n_len(g / 128, m - 1);
    }
}

proof fn lemma_digit_count_bound(g: int)
    requires
        0 <= g,
    ensures
        0 <= digit_count(g),
        g < pow2((7 * digit_count(g)) as nat),
        cont_digits(g) == cont_digits_n(g, digit_count(g)),
        cont_digits(g).len() == digit_count(g),
    decreases g,
{
    lemma2_to64();
    if g == 0 {
        assert(cont_digits(0) =~= cont_digits_n(0, 0));
    } else {
        lemma_digit_count_bound(g / 128);
        let m = digit_count(g / 128);
        lemma_pow2_adds((7 * m) as nat, 7);
        lemma_fundamental_div_mod(g, 128);
        assert((g / 128) * 128 <= (pow2((7 * m) as nat) - 1) * 128);
    }
}

proof fn lemma_digit_count_mono(g: int, m: int)
    requires
        0 <= m,
        0 <= g < pow2((7 * m) as nat),
    ensures
        digit_count(g) <= m,
    decreases m,
{
    lemma2_to64();
    if g == 0 {
    } else {
        assert(m > 0) by {
            if m == 0 {
                assert(pow2(0) == 1);
            }
        }
        lemma_pow2_adds((7 * (m - 1)) as nat, 7);
        lemma_fundamental_div_mod(g, 128);
        assert(g / 128 < pow2((7 * (m - 1)) as nat)) by {
            if g / 128 >= pow2((7 * (m - 1)) as nat) {
                assert((g / 128) * 128 >= pow2((7 * (m - 1)) as nat) * 128);
            }
        }
        lemma_digit_count_mono(g / 128, m - 1);
    }
}

/// Consuming `m` padded continuation digits of `g` multiplies the
/// accumulator by 2^(7m) and adds `g`.
proof fn lemma_decode_cont(bytes: Seq<u8>, pos: int, k: int, acc: int, g: int, m: int)
    requires
        0 <= pos,
        0 <= m,
        0 <= k,
        k + m <= 8,
        0 <= acc,
        0 <= g < pow2((7 * m) as nat),
        pos + m <= bytes.len(),
        bytes.subrange(pos, pos + m) =~= cont_digits_n(g, m),
    ensures
        varint_rec(bytes, pos, k, acc) == varint_rec(
            bytes,
            pos + m,
            k + m,
            acc * pow2((7 * m) as nat) + g,
        ),
    decreases m,
{
    lemma2_to64();
    if m == 0 {
        assert(g == 0);
        assert(acc * pow2(0) + 0 == acc);
    } else {
        let p = pow2((7 * (m - 1)) as nat);
        lemma_pow2_adds((7 * (m - 1)) as nat, 7);
        lemma_fundamental_div_mod(g, 128);
        assert(g / 128 < p) by {
            if g / 128 >= p {
                assert((g / 128) * 128 >= p * 128);
            }
        }
        lemma_cont_digits_n_len(g, m);
        lemma_cont_digits_n_len(g / 128, m - 1);
        assert(bytes.subrange(pos, pos + m - 1) =~= cont_digits_n(g / 128, m - 1)) by {
            assert(forall|j: int|
                0 <= j < m - 1 ==> cont_digits_n(g, m)[j] == cont_digits_n(g / 128, m - 1)[j]);
        }
        lemma_decode_cont(bytes, pos, k, acc, g / 128, m - 1);
        let acc2 = acc * p + g / 128;
        assert(bytes[pos + m - 1] == (g % 128 + 128) as u8) by {
            assert(cont_digits_n(g, m)[m - 1] == (g % 128 + 128) as u8);
        }
        assert(varint_rec(bytes, pos + m - 1, k + m - 1, acc2) == varint_rec(
            bytes,
            pos + m,
            k + m,
            acc2 * 128 + (g % 128),
        ));
        assert(acc2 * 128 + g % 128 == acc * pow2((7 * m) as nat) + g) by {
            assert((acc * p + g / 128) * 128 == acc * (p * 128) + (g / 128) * 128)
                by (nonlinear_arith);
        }
    }
}

/// Encodes `value` as a varint: between 1 and 9 bytes whose decoding
/// yields `value` back together with this exact byte length.  This is
/// the round-trip law: for every 64-bit value, encoding then decoding
/// reproduces the value and the encoded length.
pub fn encode_varint(value: u64) -> (r: Vec<u8>)
    ensures
        1 <= r@.len() <= 9,
        spec_varint(r@, 0) == Some((value as int, r@.len() as int)),
{
    let mut out: Vec<u8> = Vec::new();
    if value < 0x100000000000000 {
        let g = value / 128;
        push_cont_digits(g, &mut out);
        out.push((value % 128) as u8);
        proof {
            lemma2_to64();
            lemma2_to64_rest();
            lemma_pow2_adds(49, 7);
            lemma_fundamental_div_mod(value as int, 128);
            assert((value as int) / 128 < pow2(49)) by {
                if (value as int) / 128 >= pow2(49) {
                    assert(((value as int) / 128) * 128 >= pow2(49) * 128);
                }
            }
            lemma_digit_count_bound(g as int);
            let m = digit_count(g as int);
            lemma_digit_count_mono(g as int, 7);
            assert(out@.subrange(0, m) =~= cont_digits_n(g as int, m));
            lemma_decode_cont(out@, 0, 0, 0, g as int, m);
            lemma_fundamental_div_mod(value as int, 128);
            assert(varint_rec(out@, m, m, g as int) == Some(
                ((g as int) * 128 + (value as int) % 128, m + 1),
            ));
        }
        out
    } else {
        let g = value / 256;
        push_cont_digits_padded(g, 8, &mut out);
        out.push((value % 256) as u8);
        proof {
            lemma2_to64();
            lemma2_to64_rest();
            lemma_pow2_adds(56, 8);
            lemma_fundamental_div_mod(value as int, 256);
            assert((value as int) / 256 < pow2(56)) by {
                if (value as int) / 256 >= pow2(56) {
                    assert(((value as int) / 256) * 256 >= pow2(56) * 256);
                }
            }
            lemma_cont_digits_n_len(g as int, 8);
            assert(out@.subrange(0, 8) =~= cont_digits_n(g as int, 8));
            lemma_decode_cont(out@, 0, 0, 0, g as int, 8);
            lemma_fundamental_div_mod(value as int, 256);
            assert(varint_rec(out@, 8, 8, g as int) == Some(
                ((g as int) * 256 + (value as int) % 256, 9int),
            ));
        }
        out
    }
}

/// Pushes the continuation-tagged base-128 digits of `g`, most
/// significant first.
fn push_cont_digits(g: u64, out: &mut Vec<u8>)
    ensures
        final(out)@ == old(out)@ + cont_digits(g as int),
    decreases g,
{
    if g > 0 {
        push_cont_digits(g / 128, out);
        out.push((g % 128 + 128) as u8);
        proof {
            assert(out@ =~= old(out)@ + cont_digits(g as int));
        }
    } else {
        proof {
            assert(out@ =~= old(out)@ + cont_digits(0));
        }
    }
}

/// Pushes exactly `m` continuation-tagged base-128 digits of `g`,
/// most significant first, padding with zero digits on the left.
fn push_cont_digits_padded(g: u64, m: usize, out: &mut Vec<u8>)
    ensures
        final(out)@ == old(out)@ + cont_digits_n(g as int, m as int),
    decreases m,
{
    if m > 0 {
        push_cont_digits_padded(g / 128, m - 1, out);
        out.push((g % 128 + 128) as u8);
        proof {
            assert(out@ =~= old(out)@ + cont_digits_n(g as int, m as int));
        }
    } else {
        proof {
            assert(out@ =~= old(out)@ + cont_digits_n(g as int, 0));
        }
    }
}

} // verus!
