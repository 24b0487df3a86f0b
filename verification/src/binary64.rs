//! Integer payloads widened to the wire's binary64 number representation.
//!
//! The number-typed payload travels on the wire in the standard binary64
//! format; this codec carries such a payload opaquely as its 64-bit pattern.
//! An integer-shaped wire payload under the number discriminant is widened
//! to that format. The widening is computed here in integer arithmetic:
//! sign, exponent and fraction of the binary64 encoding, rounding to
//! nearest with ties to even — exactly the rounding the format prescribes —
//! so the result is the bit pattern of the payload's value as a binary64
//! number.

use vstd::prelude::*;
use vstd::arithmetic::power2::{
    pow2, lemma_pow2_adds, lemma_pow2_subtracts, lemma_pow2_strictly_increases, lemma2_to64,
    lemma2_to64_rest, lemma_pow2_unfold, lemma_pow2_pos,
};
use vstd::arithmetic::div_mod::{
    lemma_fundamental_div_mod, lemma_div_denominator, lemma_div_is_ordered,
    lemma_multiply_divide_lt,
};

verus! {

/// An opaque binary64 value: the 64-bit pattern of the wire's number format.
///
/// Equality is bit-pattern equality, which is what the codec's round-trip
/// guarantees speak of.
#[derive(Clone, Copy, Debug, PartialEq, Eq, Structural)]
pub struct WireNumber {
    pub bits: u64,
}

/// The magnitude of a signed 64-bit integer.
pub open spec fn abs_i64(v: i64) -> nat {
    if v < 0 {
        (-(v as int)) as nat
    } else {
        v as nat
    }
}

/// The position of the highest set bit: the largest `e` with `pow2(e) <= n`.
pub open spec fn floor_log2(n: nat) -> nat
    decreases n,
{
    if n < 2 {
        0
    } else {
        1 + floor_log2(n / 2)
    }
}

/// `m / pow2(sh)`, rounded to nearest with ties to even.
pub open spec fn round_half_even(m: nat, sh: nat) -> nat {
    if sh == 0 {
        m
    } else {
        let keep = m / pow2(sh);
        let rem = m % pow2(sh);
        let half = pow2((sh - 1) as nat);
        if rem > half || (rem == half && keep % 2 == 1) {
            keep + 1
        } else {
            keep
        }
    }
}

/// The binary64 bit pattern of the value of a signed 64-bit integer:
/// sign bit, biased exponent and fraction, with round-to-nearest-even
/// applied where the magnitude exceeds the 53-bit significand.
pub open spec fn binary64_bits_of_i64(v: i64) -> u64 {
    if v == 0 {
        0
    } else {
        let m = abs_i64(v);
        let s: nat = if v < 0 {
            pow2(63)
        } else {
            0
        };
        let e = floor_log2(m);
        if e <= 52 {
            (s + (1023 + e) * pow2(52) + (m * pow2((52 - e) as nat) - pow2(52))) as u64
        } else {
            let k = round_half_even(m, (e - 52) as nat);
            if k == pow2(53) {
                (s + (1024 + e) * pow2(52)) as u64
            } else {
                (s + (1023 + e) * pow2(52) + (k - pow2(52))) as u64
            }
        }
    }
}

/// `floor_log2` is the `e` with `m / pow2(e) == 1`.
proof fn lemma_floor_log2_of_quotient(m: nat, e: nat)
    requires
        m >= 1,
        m / pow2(e) == 1,
    ensures
        floor_log2(m) == e,
    decreases e,
{
    lemma_pow2_pos(e);
    if e == 0 {
        assert(pow2(0) == 1) by {
            lemma2_to64();
        }
        assert(m == 1);
    } else {
        lemma_fundamental_div_mod(m as int, pow2(e) as int);
        assert(m >= pow2(e));
        assert(pow2(e) >= 2) by {
            lemma_pow2_strictly_increases(0, e);
            lemma2_to64();
        }
        assert(m >= 2);
        assert(pow2(e) == 2 * pow2((e - 1) as nat)) by {
            lemma_pow2_adds(1, (e - 1) as nat);
            lemma2_to64();
        }
        lemma_pow2_pos((e - 1) as nat);
        lemma_div_denominator(m as int, 2, pow2((e - 1) as nat) as int);
        assert((m / 2) / pow2((e - 1) as nat) == 1);
        assert(m / 2 >= 1) by {
            lemma_fundamental_div_mod((m / 2) as int, pow2((e - 1) as nat) as int);
        }
        lemma_floor_log2_of_quotient(m / 2, (e - 1) as nat);
    }
}

/// A quotient of one brackets the dividend between the divisor and its double.
proof fn lemma_quotient_one_brackets(m: nat, e: nat)
    requires
        m / pow2(e) == 1,
    ensures
        pow2(e) <= m < pow2(e + 1),
{
    lemma_pow2_pos(e);
    lemma_fundamental_div_mod(m as int, pow2(e) as int);
    assert(pow2(e + 1) == 2 * pow2(e)) by {
        lemma_pow2_adds(1, e);
        lemma2_to64();
    }
}

/// The exact powers of two representable in a `u64`.
fn pow2_u64(k: u64) -> (r: u64)
    requires
        k <= 63,
    ensures
        r as nat == pow2(k as nat),
        r >= 1,
{
    proof {
        lemma2_to64();
    }
    let mut r: u64 = 1;
    let mut i: u64 = 0;
    while i < k
        invariant
            i <= k <= 63,
            r as nat == pow2(i as nat),
        decreases k - i,
    {
        proof {
            lemma_pow2_adds(i as nat, 1);
            lemma2_to64();
            if (i as nat) + 1 < 64 {
                lemma_pow2_strictly_increases((i as nat) + 1, 64);
            }
            lemma2_to64_rest();
        }
        r = r * 2;
        i = i + 1;
    }
    proof {
        lemma_pow2_pos(k as nat);
    }
    r
}

/// Widen a signed 64-bit integer to the binary64 bit pattern of its value.
pub fn widen_i64_to_binary64(v: i64) -> (r: WireNumber)
    ensures
        r.bits == binary64_bits_of_i64(v),
{
    if v == 0 {
        return WireNumber { bits: 0 };
    }
    let neg = v < 0;
    let m: u64 = if v >= 0 {
        v as u64
    } else {
        ((-(v + 1)) as u64) + 1
    };
    proof {
        assert(m as nat == abs_i64(v));
        assert(m >= 1);
        assert(m as nat <= pow2(63)) by {
            lemma2_to64_rest();
        }
    }
    let sign: u64 = if neg {
        0x8000_0000_0000_0000
    } else {
        0
    };
    proof {
        assert(sign as nat == if v < 0 { pow2(63) } else { 0nat }) by {
            lemma2_to64_rest();
        }
    }

    // Locate the highest set bit of the magnitude.
    let mut e: u64 = 0;
    let mut t: u64 = m;
    proof {
        assert(pow2(0) == 1) by {
            lemma2_to64();
        }
    }
    while t >= 2
        invariant
            e <= 63,
            m >= 1,
            m as nat <= pow2(63),
            t as nat == (m as nat) / pow2(e as nat),
            t >= 1,
        decreases t,
    {
        proof {
            lemma_pow2_pos(e as nat);
            lemma_fundamental_div_mod(m as int, pow2(e as nat) as int);
            assert(m as nat >= 2 * pow2(e as nat)) by (nonlinear_arith)
                requires
                    m as int == pow2(e as nat) * ((m as nat) / pow2(e as nat)) + (m as nat) % pow2(
                        e as nat,
                    ),
                    (m as nat) / pow2(e as nat) >= 2,
                    (m as nat) % pow2(e as nat) >= 0,
                    pow2(e as nat) >= 1,
            ;
            assert(2 * pow2(e as nat) == pow2(e as nat + 1)) by {
                lemma_pow2_adds(1, e as nat);
                lemma2_to64();
            }
            // e + 1 <= 63, else pow2(e + 1) would outgrow the magnitude bound
            if e as nat + 1 > 63 {
                lemma_pow2_strictly_increases(63, e as nat + 1);
            }
            lemma_div_denominator(m as int, pow2(e as nat) as int, 2);
            assert(pow2(e as nat) * 2 == pow2(e as nat + 1)) by {
                lemma_pow2_adds(e as nat, 1);
                lemma2_to64();
            }
        }
        t = t / 2;
        e = e + 1;
        proof {
            lemma_pow2_pos(e as nat);
            lemma_fundamental_div_mod(m as int, pow2(e as nat) as int);
        }
    }
    proof {
        lemma_floor_log2_of_quotient(m as nat, e as nat);
        lemma_quotient_one_brackets(m as nat, e as nat);
        assert(pow2(e as nat) <= m as nat && (m as nat) < pow2(e as nat + 1));
    }

    if e <= 52 {
        let p = pow2_u64(52 - e);
        proof {
            lemma_pow2_adds((e + 1) as nat, (52 - e) as nat);
            lemma_pow2_adds(e as nat, (52 - e) as nat);
            lemma2_to64();
            lemma2_to64_rest();
            assert((m as nat) * (p as nat) < pow2(53)) by (nonlinear_arith)
                requires
                    (m as nat) < pow2(e as nat + 1),
                    pow2(e as nat + 1) * pow2((52 - e) as nat) == pow2(53),
                    (p as nat) == pow2((52 - e) as nat),
                    p >= 1,
            ;
            assert((m as nat) * (p as nat) >= pow2(52)) by (nonlinear_arith)
                requires
                    (m as nat) >= pow2(e as nat),
                    pow2(e as nat) * pow2((52 - e) as nat) == pow2(52),
                    (p as nat) == pow2((52 - e) as nat),
                    p >= 1,
            ;
            assert(pow2(53) < pow2(63)) by {
                lemma_pow2_strictly_increases(53, 63);
            }
        }
        let mant = m * p;
        let p52 = pow2_u64(52);
        let frac = mant - p52;
        let exp = (1023 + e) * p52;
        proof {
            assert((1023 + e as nat) * pow2(52) + pow2(52) <= 2048 * pow2(52)) by (nonlinear_arith)
                requires
                    e <= 52,
            ;
            assert(2048 * pow2(52) == pow2(63)) by {
                lemma_pow2_adds(11, 52);
                lemma2_to64();
                lemma2_to64_rest();
            }
        }
        let r = sign + exp + frac;
        proof {
            assert(r == binary64_bits_of_i64(v));
        }
        WireNumber { bits: r }
    } else {
        // 53 <= e <= 63: round the magnitude into the 53-bit significand.
        let sh = e - 52;
        let p = pow2_u64(sh);
        let keep = m / p;
        let rem = m % p;
        let half = p / 2;
        proof {
            lemma_pow2_pos(sh as nat);
            lemma_pow2_subtracts(sh as nat, e as nat);
            lemma_pow2_subtracts(sh as nat, e as nat + 1);
            assert(pow2(e as nat) / pow2(sh as nat) == pow2(52));
            lemma_div_is_ordered(pow2(e as nat) as int, m as int, pow2(sh as nat) as int);
            assert(keep as nat >= pow2(52));
            assert(pow2(sh as nat) * pow2(53) == pow2(e as nat + 1)) by {
                lemma_pow2_adds(sh as nat, 53);
            }
            lemma_multiply_divide_lt(m as int, pow2(sh as nat) as int, pow2(53) as int);
            assert((keep as nat) < pow2(53));
            assert(pow2(53) < pow2(63)) by {
                lemma_pow2_strictly_increases(53, 63);
            }
            lemma2_to64_rest();
            assert(half as nat == pow2((sh - 1) as nat)) by {
                lemma_pow2_adds((sh - 1) as nat, 1);
                lemma2_to64();
                assert(pow2(sh as nat) == pow2((sh - 1) as nat) * 2);
            }
        }
        let round_up = rem > half || (rem == half && keep % 2 == 1);
        let k = if round_up {
            keep + 1
        } else {
            keep
        };
        proof {
            assert(k as nat == round_half_even(m as nat, (e - 52) as nat));
        }
        let p53 = pow2_u64(53);
        let p52 = pow2_u64(52);
        proof {
            assert((1024 + e as nat) * pow2(52) + pow2(52) <= 2048 * pow2(52)) by (nonlinear_arith)
                requires
                    e <= 63,
            ;
            assert(2048 * pow2(52) == pow2(63)) by {
                lemma_pow2_adds(11, 52);
                lemma2_to64();
                lemma2_to64_rest();
            }
        }
        let r = if k == p53 {
            sign + (1024 + e) * p52
        } else {
            sign + (1023 + e) * p52 + (k - p52)
        };
        proof {
            assert(r == binary64_bits_of_i64(v));
        }
        WireNumber { bits: r }
    }
}

} // verus!
