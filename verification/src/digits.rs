//! Canonical decimal text for 64-bit unsigned identifiers.
//!
//! An identifier travels on the wire as text. The classifier recognises a
//! textual payload as an identifier exactly when it is the canonical decimal
//! rendering of a `u64`: non-empty, decimal digits only, and no leading zero
//! unless the text is `"0"` itself. Canonicality makes rendering and parsing
//! exact inverses, so re-rendering a recognised identifier reproduces the
//! original text character for character.

use vstd::prelude::*;
use vstd::arithmetic::div_mod::{
    lemma_div_is_strictly_smaller, lemma_fundamental_div_mod, lemma_div_multiples_vanish_fancy,
};

verus! {

/// The digit character for a value below ten.
pub open spec fn digit_char(d: nat) -> char {
    if d == 0 {
        '0'
    } else if d == 1 {
        '1'
    } else if d == 2 {
        '2'
    } else if d == 3 {
        '3'
    } else if d == 4 {
        '4'
    } else if d == 5 {
        '5'
    } else if d == 6 {
        '6'
    } else if d == 7 {
        '7'
    } else if d == 8 {
        '8'
    } else {
        '9'
    }
}

/// Whether a character is a decimal digit.
pub open spec fn is_dec_digit(c: char) -> bool {
    c == '0' || c == '1' || c == '2' || c == '3' || c == '4' || c == '5' || c == '6' || c == '7'
        || c == '8' || c == '9'
}

/// The value of a decimal digit character.
pub open spec fn digit_val(c: char) -> nat {
    if c == '0' {
        0
    } else if c == '1' {
        1
    } else if c == '2' {
        2
    } else if c == '3' {
        3
    } else if c == '4' {
        4
    } else if c == '5' {
        5
    } else if c == '6' {
        6
    } else if c == '7' {
        7
    } else if c == '8' {
        8
    } else {
        9
    }
}

/// The canonical decimal rendering of a natural number: most significant
/// digit first, no leading zeros.
pub open spec fn dec_digits(n: nat) -> Seq<char>
    decreases n,
{
    if n < 10 {
        seq![digit_char(n)]
    } else {
        dec_digits(n / 10).push(digit_char(n % 10))
    }
}

/// Whether every character of a sequence is a decimal digit.
pub open spec fn is_digit_seq(s: Seq<char>) -> bool {
    forall|i: int| 0 <= i < s.len() ==> is_dec_digit(#[trigger] s[i])
}

/// The number a digit sequence denotes, most significant digit first.
pub open spec fn dec_val(s: Seq<char>) -> nat
    decreases s.len(),
{
    if s.len() == 0 {
        0
    } else {
        dec_val(s.drop_last()) * 10 + digit_val(s.last())
    }
}

/// Whether a sequence is the canonical decimal form of some natural number:
/// non-empty, all digits, and no leading zero unless it is exactly "0".
pub open spec fn is_canonical_dec(s: Seq<char>) -> bool {
    s.len() > 0 && is_digit_seq(s) && (s[0] == '0' ==> s.len() == 1)
}

/// A single digit character denotes its digit value.
pub proof fn lemma_dec_val_single(c: char)
    ensures
        dec_val(seq![c]) == digit_val(c),
{
    let s = seq![c];
    assert(s.last() == c);
    assert(s.drop_last() =~= Seq::<char>::empty());
    assert(dec_val(s.drop_last()) == 0);
}

/// The canonical rendering is indeed canonical, and denotes the number it
/// renders.
pub proof fn lemma_dec_digits_wf(n: nat)
    ensures
        dec_digits(n).len() >= 1,
        is_digit_seq(dec_digits(n)),
        dec_val(dec_digits(n)) == n,
        is_canonical_dec(dec_digits(n)),
        n >= 1 ==> dec_digits(n)[0] != '0',
    decreases n,
{
    if n < 10 {
        assert(dec_digits(n) =~= seq![digit_char(n)]);
        lemma_dec_val_single(digit_char(n));
    } else {
        lemma_div_is_strictly_smaller(n as int, 10);
        lemma_dec_digits_wf(n / 10);
        let s = dec_digits(n);
        assert(s =~= dec_digits(n / 10).push(digit_char(n % 10)));
        assert(s.drop_last() =~= dec_digits(n / 10));
        assert(s.last() == digit_char(n % 10));
        assert(digit_val(digit_char(n % 10)) == n % 10);
        lemma_fundamental_div_mod(n as int, 10);
        assert(dec_val(s) == (n / 10) * 10 + n % 10);
        assert(s[0] == dec_digits(n / 10)[0]);
        assert(n / 10 >= 1) by {
            if n / 10 == 0 {
                lemma_fundamental_div_mod(n as int, 10);
            }
        }
    }
}

/// A canonical digit sequence whose leading digit is not zero denotes a
/// positive number.
pub proof fn lemma_canonical_pos(s: Seq<char>)
    requires
        s.len() > 0,
        is_digit_seq(s),
        s[0] != '0',
    ensures
        dec_val(s) >= 1,
    decreases s.len(),
{
    if s.len() == 1 {
        assert(s.last() == s[0]);
    } else {
        let p = s.drop_last();
        assert(p[0] == s[0]);
        lemma_canonical_pos(p);
    }
}

/// Rendering inverts denotation on canonical sequences: every canonical
/// digit sequence is the canonical rendering of the number it denotes.
pub proof fn lemma_canonical_to_digits(s: Seq<char>)
    requires
        is_canonical_dec(s),
    ensures
        dec_digits(dec_val(s)) == s,
    decreases s.len(),
{
    if s.len() == 1 {
        let c = s[0];
        assert(s =~= seq![c]);
        lemma_dec_val_single(c);
        assert(dec_val(s) == digit_val(c));
        assert(digit_char(digit_val(c)) == c);
        assert(dec_digits(dec_val(s)) =~= s);
    } else {
        let p = s.drop_last();
        let d = digit_val(s.last());
        assert(p[0] == s[0]);
        assert(is_digit_seq(p)) by {
            assert(forall|i: int| 0 <= i < p.len() ==> p[i] == s[i] && is_dec_digit(#[trigger] s[i]));
        }
        assert(s[0] != '0');
        assert(is_canonical_dec(p));
        lemma_canonical_pos(p);
        let v = dec_val(s);
        assert(v == dec_val(p) * 10 + d);
        assert(v / 10 == dec_val(p) && v % 10 == d) by {
            lemma_div_multiples_vanish_fancy(dec_val(p) as int, d as int, 10);
            lemma_fundamental_div_mod(v as int, 10);
        }
        assert(v >= 10);
        lemma_canonical_to_digits(p);
        assert(digit_char(d) == s.last());
        assert(dec_digits(v) =~= dec_digits(dec_val(p)).push(digit_char(d)));
        assert(dec_digits(v) =~= s);
    }
}

/// Denotation never shrinks as a digit sequence is extended on the right.
pub proof fn lemma_dec_val_prefix_le(s: Seq<char>, i: int)
    requires
        0 <= i <= s.len(),
    ensures
        dec_val(s.subrange(0, i)) <= dec_val(s),
    decreases s.len() - i,
{
    if i == s.len() {
        assert(s.subrange(0, i) =~= s);
    } else {
        let t = s.subrange(0, i + 1);
        assert(t.drop_last() =~= s.subrange(0, i));
        assert(dec_val(s.subrange(0, i)) <= dec_val(t));
        lemma_dec_val_prefix_le(s, i + 1);
    }
}

/// Exec test for a decimal digit character, with its value.
fn digit_of_char(c: char) -> (r: Option<u64>)
    ensures
        match r {
            Some(d) => is_dec_digit(c) && d == digit_val(c) && d < 10,
            None => !is_dec_digit(c),
        },
{
    if c == '0' {
        Some(0)
    } else if c == '1' {
        Some(1)
    } else if c == '2' {
        Some(2)
    } else if c == '3' {
        Some(3)
    } else if c == '4' {
        Some(4)
    } else if c == '5' {
        Some(5)
    } else if c == '6' {
        Some(6)
    } else if c == '7' {
        Some(7)
    } else if c == '8' {
        Some(8)
    } else if c == '9' {
        Some(9)
    } else {
        None
    }
}

/// The single-character string for a digit value.
fn digit_str(d: u64) -> (r: &'static str)
    requires
        d < 10,
    ensures
        r@ =~= seq![digit_char(d as nat)],
{
    proof {
        reveal_strlit("0");
        reveal_strlit("1");
        reveal_strlit("2");
        reveal_strlit("3");
        reveal_strlit("4");
        reveal_strlit("5");
        reveal_strlit("6");
        reveal_strlit("7");
        reveal_strlit("8");
        reveal_strlit("9");
    }
    if d == 0 {
        "0"
    } else if d == 1 {
        "1"
    } else if d == 2 {
        "2"
    } else if d == 3 {
        "3"
    } else if d == 4 {
        "4"
    } else if d == 5 {
        "5"
    } else if d == 6 {
        "6"
    } else if d == 7 {
        "7"
    } else if d == 8 {
        "8"
    } else {
        "9"
    }
}

/// Append the canonical decimal rendering of `n` to `out`.
fn push_dec(n: u64, out: &mut String)
    ensures
        final(out)@ == old(out)@ + dec_digits(n as nat),
    decreases n,
{
    if n >= 10 {
        proof {
            lemma_div_is_strictly_smaller(n as int, 10);
        }
        push_dec(n / 10, out);
        let ghost mid = out@;
        let d = digit_str(n % 10);
        out.append(d);
        proof {
            assert(out@ =~= old(out)@ + dec_digits((n / 10) as nat).push(
                digit_char((n % 10) as nat),
            ));
        }
    } else {
        let d = digit_str(n);
        out.append(d);
        proof {
            assert(out@ =~= old(out)@ + seq![digit_char(n as nat)]);
        }
    }
}

/// Render a `u64` as its canonical decimal text.
pub fn render_u64(n: u64) -> (r: String)
    ensures
        r@ == dec_digits(n as nat),
{
    let mut out = String::new();
    push_dec(n, &mut out);
    proof {
        assert(out@ =~= dec_digits(n as nat));
    }
    out
}

/// Parse text that is the canonical decimal form of a `u64`.
///
/// Returns the denoted number exactly when the text is such a form; any
/// other text — empty, a non-digit, a leading zero, or a value past
/// `u64::MAX` — yields `None`.
pub fn parse_canonical_u64(s: &str) -> (r: Option<u64>)
    ensures
        match r {
            Some(n) => s@ == dec_digits(n as nat),
            None => forall|n: u64| s@ != dec_digits(n as nat),
        },
{
    let len = s.unicode_len();
    if len == 0 {
        proof {
            assert forall|n: u64| s@ != dec_digits(n as nat) by {
                lemma_dec_digits_wf(n as nat);
            }
        }
        return None;
    }
    let c0 = s.get_char(0);
    if c0 == '0' && len > 1 {
        proof {
            assert forall|n: u64| s@ != dec_digits(n as nat) by {
                lemma_dec_digits_wf(n as nat);
            }
        }
        return None;
    }
    let mut acc: u64 = 0;
    let mut i: usize = 0;
    while i < len
        invariant
            0 <= i <= len,
            len == s@.len(),
            len >= 1,
            s@[0] == c0,
            !(c0 == '0' && len > 1),
            is_digit_seq(s@.subrange(0, i as int)),
            acc == dec_val(s@.subrange(0, i as int)),
        decreases len - i,
    {
        let c = s.get_char(i);
        let ghost pre = s@.subrange(0, i as int);
        let ghost cur = s@.subrange(0, i as int + 1);
        proof {
            assert(cur.drop_last() =~= pre);
            assert(cur.last() == s@[i as int]);
        }
        match digit_of_char(c) {
            None => {
                proof {
                    assert forall|n: u64| s@ != dec_digits(n as nat) by {
                        lemma_dec_digits_wf(n as nat);
                    }
                }
                return None;
            },
            Some(d) => {
                // `dec_val(cur) == acc * 10 + d`; on overflow the denoted
                // value can only grow with more digits, so no `u64` renders
                // to this text.
                let overflow: bool = if acc > u64::MAX / 10 {
                    true
                } else {
                    proof {
                        lemma_fundamental_div_mod(u64::MAX as int, 10);
                    }
                    let t = acc * 10;
                    d > u64::MAX - t
                };
                if overflow {
                    proof {
                        assert(dec_val(cur) == acc * 10 + d);
                        assert(acc * 10 + d > u64::MAX) by {
                            lemma_fundamental_div_mod(u64::MAX as int, 10);
                        }
                        lemma_dec_val_prefix_le(s@, i as int + 1);
                        assert(dec_val(s@) > u64::MAX);
                        assert forall|n: u64| s@ != dec_digits(n as nat) by {
                            lemma_dec_digits_wf(n as nat);
                        }
                    }
                    return None;
                }
                proof {
                    lemma_fundamental_div_mod(u64::MAX as int, 10);
                    assert(acc * 10 + d <= u64::MAX);
                }
                acc = acc * 10 + d;
                proof {
                    assert(is_digit_seq(cur)) by {
                        assert(forall|k: int|
                            0 <= k < pre.len() ==> cur[k] == pre[k] && is_dec_digit(
                                #[trigger] pre[k],
                            ));
                        assert(is_dec_digit(cur[i as int]));
                    }
                }
                i = i + 1;
            },
        }
    }
    proof {
        assert(s@.subrange(0, len as int) =~= s@);
        assert(is_canonical_dec(s@));
        lemma_canonical_to_digits(s@);
    }
    Some(acc)
}

} // verus!
