//! The scalar literal grammar.
//!
//! A token is a scalar literal in exactly two cases: a spelling of an
//! infinity or NaN (case-insensitive, optionally signed), whose bit
//! pattern the engine produces itself; or a decimal literal of the
//! standard float grammar — optional sign, digits with an optional
//! dot and at least one digit, optional `e`/`E` exponent with an
//! optional sign and at least one digit.  Only text of the second
//! form reaches the trusted decimal parser, so hexadecimal floats,
//! dangling exponents and NaN payloads are no literals here.

use crate::scalar::{float_bits_of, float_parse};
use vstd::prelude::*;

verus! {

/// A decimal digit character.
pub open spec fn is_digit(c: char) -> bool {
    '0' <= c && c <= '9'
}

fn is_digit_char(c: char) -> (r: bool)
    ensures
        r == is_digit(c),
{
    '0' <= c && c <= '9'
}

/// The length of the leading run of decimal digits.
pub open spec fn digit_run(s: Seq<char>) -> nat
    decreases s.len(),
{
    if s.len() == 0 || !is_digit(s[0]) {
        0
    } else {
        (1 + digit_run(s.skip(1))) as nat
    }
}

/// The leading digit run is exactly the prefix of digits up to the
/// first non-digit or the end.
pub proof fn lemma_digit_run_scan(s: Seq<char>, k: int)
    requires
        0 <= k <= s.len(),
        forall|i: int| 0 <= i < k ==> is_digit(#[trigger] s[i]),
        k == s.len() || !is_digit(s[k]),
    ensures
        digit_run(s) == k,
    decreases k,
{
    if k > 0 {
        assert(forall|i: int| 0 <= i < k - 1 ==> is_digit(#[trigger] s.skip(1)[i]));
        assert(k - 1 == s.skip(1).len() || !is_digit(s.skip(1)[k - 1]));
        lemma_digit_run_scan(s.skip(1), k - 1);
    }
}

/// The text with one leading sign character removed.
pub open spec fn strip_sign(s: Seq<char>) -> Seq<char> {
    if s.len() > 0 && (s[0] == '+' || s[0] == '-') {
        s.skip(1)
    } else {
        s
    }
}

/// A well-formed exponent suffix: nothing, or `e`/`E`, an optional
/// sign, and at least one digit with nothing after.
pub open spec fn exp_ok(u: Seq<char>) -> bool {
    if u.len() == 0 {
        true
    } else if u[0] == 'e' || u[0] == 'E' {
        let v = strip_sign(u.skip(1));
        v.len() >= 1 && digit_run(v) == v.len()
    } else {
        false
    }
}

/// The decimal float literal grammar: optional sign, then digits with
/// an optional dot (at least one digit on either side of it), then an
/// optional exponent.
pub open spec fn is_decimal_literal(s: Seq<char>) -> bool {
    let t = strip_sign(s);
    let d1 = digit_run(t);
    let rest = t.skip(d1 as int);
    if rest.len() > 0 && rest[0] == '.' {
        let after_dot = rest.skip(1);
        let d2 = digit_run(after_dot);
        d1 + d2 >= 1 && exp_ok(after_dot.skip(d2 as int))
    } else {
        d1 >= 1 && exp_ok(rest)
    }
}

/// The bit pattern of positive infinity.
pub const INF_BITS: u64 = 0x7FF0_0000_0000_0000;

/// The bit pattern of negative infinity.
pub const NEG_INF_BITS: u64 = 0xFFF0_0000_0000_0000;

/// The bit pattern of the quiet NaN a parsed `nan` yields.
pub const NAN_BITS: u64 = 0x7FF8_0000_0000_0000;

/// The bit pattern of the quiet NaN a parsed `-nan` yields.
pub const NEG_NAN_BITS: u64 = 0xFFF8_0000_0000_0000;

/// The word `inf`, in any case.
pub open spec fn word_inf(t: Seq<char>) -> bool {
    t.len() == 3 && (t[0] == 'i' || t[0] == 'I') && (t[1] == 'n' || t[1] == 'N') && (t[2] == 'f'
        || t[2] == 'F')
}

/// The word `infinity`, in any case.
pub open spec fn word_infinity(t: Seq<char>) -> bool {
    t.len() == 8 && (t[0] == 'i' || t[0] == 'I') && (t[1] == 'n' || t[1] == 'N') && (t[2] == 'f'
        || t[2] == 'F') && (t[3] == 'i' || t[3] == 'I') && (t[4] == 'n' || t[4] == 'N') && (t[5]
        == 'i' || t[5] == 'I') && (t[6] == 't' || t[6] == 'T') && (t[7] == 'y' || t[7] == 'Y')
}

/// The word `nan`, in any case.
pub open spec fn word_nan(t: Seq<char>) -> bool {
    t.len() == 3 && (t[0] == 'n' || t[0] == 'N') && (t[1] == 'a' || t[1] == 'A') && (t[2] == 'n'
        || t[2] == 'N')
}

/// What an infinity or NaN spelling denotes: its bit pattern, with
/// the optional sign applied; `None` for every other text.
pub open spec fn special_bits_of(s: Seq<char>) -> Option<u64> {
    let neg = s.len() > 0 && s[0] == '-';
    let t = strip_sign(s);
    if word_inf(t) || word_infinity(t) {
        Some(
            if neg {
                NEG_INF_BITS
            } else {
                INF_BITS
            },
        )
    } else if word_nan(t) {
        Some(
            if neg {
                NEG_NAN_BITS
            } else {
                NAN_BITS
            },
        )
    } else {
        None
    }
}

/// What a token denotes as a scalar literal: an infinity or NaN
/// spelling by its fixed bit pattern, a decimal literal by the
/// trusted decimal parse, and anything else nothing.
pub open spec fn literal_bits_of(s: Seq<char>) -> Option<u64> {
    if special_bits_of(s) is Some {
        special_bits_of(s)
    } else if is_decimal_literal(s) {
        float_bits_of(s)
    } else {
        None
    }
}

/// Recognizes the infinity and NaN spellings.
fn parse_special(v: &Vec<char>) -> (r: Option<u64>)
    ensures
        r == special_bits_of(v@),
{
    let neg = v.len() > 0 && v[0] == '-';
    let start: usize = if v.len() > 0 && (v[0] == '+' || v[0] == '-') {
        1
    } else {
        0
    };
    let ghost t = strip_sign(v@);
    proof {
        assert(t =~= v@.skip(start as int));
    }
    let n = v.len() - start;
    let inf = n == 3 && (v[start] == 'i' || v[start] == 'I') && (v[start + 1] == 'n' || v[start
        + 1] == 'N') && (v[start + 2] == 'f' || v[start + 2] == 'F');
    let infinity = n == 8 && (v[start] == 'i' || v[start] == 'I') && (v[start + 1] == 'n'
        || v[start + 1] == 'N') && (v[start + 2] == 'f' || v[start + 2] == 'F') && (v[start + 3]
        == 'i' || v[start + 3] == 'I') && (v[start + 4] == 'n' || v[start + 4] == 'N') && (v[start
        + 5] == 'i' || v[start + 5] == 'I') && (v[start + 6] == 't' || v[start + 6] == 'T')
        && (v[start + 7] == 'y' || v[start + 7] == 'Y');
    let nan = n == 3 && (v[start] == 'n' || v[start] == 'N') && (v[start + 1] == 'a' || v[start
        + 1] == 'A') && (v[start + 2] == 'n' || v[start + 2] == 'N');
    proof {
        assert(forall|i: int| 0 <= i < t.len() ==> t[i] == v@[start + i]);
        assert(inf == word_inf(t));
        assert(infinity == word_infinity(t));
        assert(nan == word_nan(t));
    }
    if inf || infinity {
        Some(
            if neg {
                NEG_INF_BITS
            } else {
                INF_BITS
            },
        )
    } else if nan {
        Some(
            if neg {
                NEG_NAN_BITS
            } else {
                NAN_BITS
            },
        )
    } else {
        None
    }
}

/// Checks the exponent suffix starting at `from`.
fn exp_check(v: &Vec<char>, from: usize) -> (r: bool)
    requires
        from <= v@.len(),
    ensures
        r == exp_ok(v@.skip(from as int)),
{
    let ghost u = v@.skip(from as int);
    if from == v.len() {
        return true;
    }
    if !(v[from] == 'e' || v[from] == 'E') {
        proof {
            assert(u[0] == v@[from as int]);
        }
        return false;
    }
    let mut j = from + 1;
    proof {
        assert(u.skip(1) =~= v@.skip(from as int + 1));
    }
    if j < v.len() && (v[j] == '+' || v[j] == '-') {
        j += 1;
    }
    let ghost w = strip_sign(u.skip(1));
    proof {
        assert(w =~= v@.skip(j as int));
    }
    if j == v.len() {
        return false;
    }
    let digits_from = j;
    while j < v.len() && is_digit_char(v[j])
        invariant
            digits_from <= j <= v@.len(),
            forall|i: int| digits_from <= i < j ==> is_digit(#[trigger] v@[i]),
        decreases v@.len() - j,
    {
        j += 1;
    }
    proof {
        assert(forall|i: int| 0 <= i < j - digits_from ==> is_digit(#[trigger] w[i]));
        assert(j - digits_from == w.len() || !is_digit(w[j - digits_from]));
        lemma_digit_run_scan(w, j - digits_from);
    }
    j == v.len() && j > digits_from
}

/// Checks the decimal literal grammar.
fn is_decimal_shape(v: &Vec<char>) -> (r: bool)
    ensures
        r == is_decimal_literal(v@),
{
    let mut i: usize = 0;
    if v.len() > 0 && (v[0] == '+' || v[0] == '-') {
        i = 1;
    }
    let ghost t = strip_sign(v@);
    proof {
        assert(t =~= v@.skip(i as int));
    }
    let sign_end = i;
    while i < v.len() && is_digit_char(v[i])
        invariant
            sign_end <= i <= v@.len(),
            forall|k: int| sign_end <= k < i ==> is_digit(#[trigger] v@[k]),
        decreases v@.len() - i,
    {
        i += 1;
    }
    let d1 = i - sign_end;
    proof {
        assert(forall|k: int| 0 <= k < d1 ==> is_digit(#[trigger] t[k]));
        assert(d1 == t.len() || !is_digit(t[d1 as int]));
        lemma_digit_run_scan(t, d1 as int);
        assert(t.skip(d1 as int) =~= v@.skip(i as int));
    }
    if i < v.len() && v[i] == '.' {
        let ghost after_dot = t.skip(d1 as int).skip(1);
        i += 1;
        proof {
            assert(after_dot =~= v@.skip(i as int));
        }
        let frac_start = i;
        while i < v.len() && is_digit_char(v[i])
            invariant
                frac_start <= i <= v@.len(),
                forall|k: int| frac_start <= k < i ==> is_digit(#[trigger] v@[k]),
            decreases v@.len() - i,
        {
            i += 1;
        }
        let d2 = i - frac_start;
        proof {
            assert(forall|k: int| 0 <= k < d2 ==> is_digit(#[trigger] after_dot[k]));
            assert(d2 == after_dot.len() || !is_digit(after_dot[d2 as int]));
            lemma_digit_run_scan(after_dot, d2 as int);
            assert(after_dot.skip(d2 as int) =~= v@.skip(i as int));
        }
        if d1 + d2 == 0 {
            return false;
        }
        exp_check(v, i)
    } else {
        proof {
            if (d1 as int) < t.len() {
                assert(t.skip(d1 as int)[0] == v@[i as int]);
            }
        }
        if d1 == 0 {
            return false;
        }
        exp_check(v, i)
    }
}

/// Parses one token as a scalar literal: special spellings first,
/// then — for text of the decimal grammar only — the trusted decimal
/// parse.
pub fn parse_literal(v: &Vec<char>) -> (r: Option<u64>)
    ensures
        r == literal_bits_of(v@),
{
    match parse_special(v) {
        Some(b) => Some(b),
        None => {
            if is_decimal_shape(v) {
                float_parse(v)
            } else {
                None
            }
        },
    }
}

} // verus!
