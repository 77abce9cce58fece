//! Display renderings of operands.
//!
//! A finite scalar renders with exactly two decimal digits: its exact
//! value times one hundred, rounded to the nearest integer with ties
//! to even, printed as sign, whole part, a point and a two-digit
//! fraction.  The computation is exact integer arithmetic on the
//! IEEE-754 binary64 fields (a finite value with biased exponent `E`
//! and 53-bit significand `m` is `(-1)^s * m * 2^(E-1075)`, or
//! `(-1)^s * m * 2^-1074` when `E` is zero), so no magnitude is
//! approximated or double-rounded; NaNs and infinities render as
//! `NaN`, `inf` and `-inf`.  Matrices have a compact,
//! dimension-labeled rendering and an expanded, comma-separated one.

use crate::operand::{Operand, OperandModel, rows_view};
use crate::scalar::chars_to_string;
use vstd::arithmetic::power2::{
    lemma2_to64, lemma2_to64_rest, lemma_pow2_adds, lemma_pow2_strictly_increases, pow2,
};
use vstd::prelude::*;

verus! {

/// The sign bit of a binary64 bit pattern.
pub open spec fn is_neg(b: u64) -> bool {
    b >> 63 == 1
}

/// The biased exponent field of a binary64 bit pattern.
pub open spec fn biased_exp(b: u64) -> u64 {
    (b >> 52) & 0x7FF
}

/// The fraction field of a binary64 bit pattern.
pub open spec fn frac_field(b: u64) -> u64 {
    b & 0xF_FFFF_FFFF_FFFF
}

/// Whether the bit pattern encodes a finite value.
pub open spec fn is_finite_bits(b: u64) -> bool {
    biased_exp(b) != 0x7FF
}

/// The full 53-bit significand: the fraction field with the implicit
/// leading bit, absent for subnormals.
pub open spec fn sig_of(b: u64) -> int {
    if biased_exp(b) == 0 {
        frac_field(b) as int
    } else {
        frac_field(b) + 0x10_0000_0000_0000
    }
}

/// How many halvings the significand needs: a finite value's
/// magnitude is `sig_of(b) * 2^(biased_exp(b) - 1075)`, so below
/// exponent 1075 it is `sig_of(b) / 2^down_shift(b)`.
pub open spec fn down_shift(b: u64) -> nat {
    if biased_exp(b) == 0 {
        1074
    } else {
        (1075 - biased_exp(b)) as nat
    }
}

/// `a / d` rounded to the nearest integer, ties to even.
pub open spec fn rdiv_even(a: int, d: int) -> int
    recommends
        a >= 0,
        d >= 1,
{
    let q = a / d;
    let r = a % d;
    if 2 * r < d {
        q
    } else if 2 * r > d {
        q + 1
    } else {
        q + q % 2
    }
}

/// The exact magnitude of a finite value times one hundred, rounded
/// to the nearest integer with ties to even: the count of hundredths
/// the two-decimal rendering shows.
pub open spec fn cents_mag(b: u64) -> int
    recommends
        is_finite_bits(b),
{
    let scaled = sig_of(b) * 100;
    if biased_exp(b) >= 1075 {
        scaled * pow2((biased_exp(b) - 1075) as nat)
    } else {
        rdiv_even(scaled, pow2(down_shift(b)) as int)
    }
}

/// The decimal digit character for `d`.
pub open spec fn digit(d: int) -> char {
    if d == 0 {
        '0'
    } else if d == 1 {
        '1'
    } else if d == 2 {
        '2'
    } else if d == 3 {
        '3'
    } else if d == 4 {
        '4'
    } else if d == 5 {
        '5'
    } else if d == 6 {
        '6'
    } else if d == 7 {
        '7'
    } else if d == 8 {
        '8'
    } else {
        '9'
    }
}

/// The decimal digits of a non-negative integer, most significant
/// first.
pub open spec fn dec_digits(n: int) -> Seq<char>
    decreases n,
{
    if n < 10 {
        seq![digit(n)]
    } else {
        dec_digits(n / 10).push(digit(n % 10))
    }
}

/// The rendering of a scalar bit pattern: `NaN`, `inf` or `-inf` for
/// the non-finite encodings; otherwise optional sign, the whole part
/// of the hundredth count, a point, and exactly two fraction digits.
pub open spec fn number_chars(b: u64) -> Seq<char> {
    if !is_finite_bits(b) {
        if frac_field(b) != 0 {
            seq!['N', 'a', 'N']
        } else if is_neg(b) {
            seq!['-', 'i', 'n', 'f']
        } else {
            seq!['i', 'n', 'f']
        }
    } else {
        let mag = cents_mag(b);
        let sign: Seq<char> = if is_neg(b) {
            seq!['-']
        } else {
            Seq::empty()
        };
        sign + dec_digits(mag / 100) + seq!['.'] + seq![
            digit(mag % 100 / 10),
            digit(mag % 100 % 10),
        ]
    }
}

fn digit_char(d: u128) -> (c: char)
    requires
        d < 10,
    ensures
        c == digit(d as int),
{
    if d == 0 {
        '0'
    } else if d == 1 {
        '1'
    } else if d == 2 {
        '2'
    } else if d == 3 {
        '3'
    } else if d == 4 {
        '4'
    } else if d == 5 {
        '5'
    } else if d == 6 {
        '6'
    } else if d == 7 {
        '7'
    } else if d == 8 {
        '8'
    } else {
        '9'
    }
}

fn push_digits(n: u128, out: &mut Vec<char>)
    ensures
        final(out)@ == old(out)@ + dec_digits(n as int),
    decreases n,
{
    if n < 10 {
        out.push(digit_char(n));
        proof {
            assert(old(out)@.push(digit(n as int)) =~= old(out)@ + dec_digits(n as int));
        }
    } else {
        push_digits(n / 10, out);
        out.push(digit_char(n % 100 % 10));
        proof {
            assert(n % 100 % 10 == n % 10) by {
                assert((n as int) % 100 % 10 == (n as int) % 10) by (nonlinear_arith);
            }
            assert((old(out)@ + dec_digits(n as int / 10)).push(digit(n as int % 10)) =~= old(
                out,
            )@ + dec_digits(n as int));
        }
    }
}

/// Appends every character of `v`.
fn push_all(out: &mut Vec<char>, v: &Vec<char>)
    ensures
        final(out)@ == old(out)@ + v@,
{
    let mut i: usize = 0;
    while i < v.len()
        invariant
            i <= v.len(),
            out@ =~= old(out)@ + v@.take(i as int),
        decreases v.len() - i,
    {
        out.push(v[i]);
        i += 1;
    }
    proof {
        assert(old(out)@ + v@.take(v@.len() as int) =~= old(out)@ + v@);
    }
}

/// Two to the power `e`, for word-sized exponents.
fn pow2_u64(e: u64) -> (r: u64)
    requires
        e <= 63,
    ensures
        r == pow2(e as nat),
{
    let mut r: u64 = 1;
    let mut i: u64 = 0;
    proof {
        lemma2_to64();
    }
    while i < e
        invariant
            i <= e,
            e <= 63,
            r == pow2(i as nat),
        decreases e - i,
    {
        proof {
            lemma2_to64();
            lemma2_to64_rest();
            if (i as nat) < 62 {
                lemma_pow2_strictly_increases(i as nat, 62);
            }
            lemma_pow2_adds(i as nat, 1);
        }
        r = r * 2;
        i = i + 1;
    }
    r
}

/// The integer held by a big-number limb vector, most significant
/// limb first.
spec fn limbs_val(s: Seq<u64>) -> int
    decreases s.len(),
{
    if s.len() == 0 {
        0
    } else {
        limbs_val(s.drop_last()) * 0x1_0000_0000_0000_0000 + s.last()
    }
}

/// A limb vector holds a non-negative integer, and zero exactly when
/// every limb is zero.
proof fn lemma_limbs_val_zero(s: Seq<u64>)
    ensures
        limbs_val(s) >= 0,
        (limbs_val(s) == 0) <==> (forall|i: int| 0 <= i < s.len() ==> s[i] == 0),
    decreases s.len(),
{
    if s.len() > 0 {
        lemma_limbs_val_zero(s.drop_last());
        let prev = limbs_val(s.drop_last());
        if prev >= 1 {
            assert(prev * 0x1_0000_0000_0000_0000 >= 0x1_0000_0000_0000_0000) by (nonlinear_arith)
                requires
                    prev >= 1,
            ;
        }
        assert(prev * 0x1_0000_0000_0000_0000 >= 0) by (nonlinear_arith)
            requires
                prev >= 0,
        ;
        if limbs_val(s) == 0 {
            assert(forall|i: int| 0 <= i < s.len() - 1 ==> s[i] == s.drop_last()[i]);
        }
        if forall|i: int| 0 <= i < s.len() ==> s[i] == 0 {
            assert(forall|i: int| 0 <= i < s.len() - 1 ==> s.drop_last()[i] == 0);
            assert(s.last() == 0);
        }
    }
}

/// Divides a big number by ten, yielding the quotient limbs and the
/// remainder digit.
fn bn_divmod10(s: &Vec<u64>) -> (r: (Vec<u64>, u64))
    ensures
        limbs_val(r.0@) * 10 + r.1 == limbs_val(s@),
        r.1 < 10,
        r.0@.len() == s@.len(),
{
    let mut q: Vec<u64> = Vec::new();
    let mut rem: u64 = 0;
    let mut i: usize = 0;
    proof {
        assert(s@.take(0) =~= Seq::<u64>::empty());
    }
    while i < s.len()
        invariant
            i <= s.len(),
            q@.len() == i,
            rem < 10,
            limbs_val(q@) * 10 + rem == limbs_val(s@.take(i as int)),
        decreases s.len() - i,
    {
        let cur: u128 = (rem as u128) * 0x1_0000_0000_0000_0000 + (s[i] as u128);
        let qd: u64 = (cur / 10) as u64;
        let rem2: u64 = (cur % 10) as u64;
        proof {
            let ghost qv = limbs_val(q@);
            assert(q@.push(qd).drop_last() =~= q@);
            assert(s@.take(i + 1).drop_last() =~= s@.take(i as int));
            assert(limbs_val(q@.push(qd)) == qv * 0x1_0000_0000_0000_0000 + qd);
            assert(cur == 10 * qd + rem2);
            assert((qv * 0x1_0000_0000_0000_0000 + qd) * 10 == qv * 10 * 0x1_0000_0000_0000_0000
                + qd * 10) by (nonlinear_arith);
        }
        q.push(qd);
        rem = rem2;
        i += 1;
    }
    proof {
        assert(s@.take(s@.len() as int) =~= s@);
    }
    (q, rem)
}

/// Whether every limb is zero, i.e. the held integer is zero.
fn bn_is_zero(s: &Vec<u64>) -> (r: bool)
    ensures
        r <==> limbs_val(s@) == 0,
{
    let mut i: usize = 0;
    let mut all_zero = true;
    while i < s.len()
        invariant
            i <= s.len(),
            all_zero <==> (forall|k: int| 0 <= k < i ==> s@[k] == 0),
        decreases s.len() - i,
    {
        if s[i] != 0 {
            all_zero = false;
        }
        i += 1;
    }
    proof {
        lemma_limbs_val_zero(s@);
    }
    all_zero
}

/// Ten to the power `n`.
spec fn pow10(n: nat) -> int
    decreases n,
{
    if n == 0 {
        1
    } else {
        10 * pow10((n - 1) as nat)
    }
}

/// The integer held by a digit sequence, most significant first.
spec fn digits_val(ds: Seq<int>) -> int
    decreases ds.len(),
{
    if ds.len() == 0 {
        0
    } else {
        digits_val(ds.drop_last()) * 10 + ds.last()
    }
}

/// Prepending a digit adds it at the highest decimal place.
proof fn lemma_digits_val_prepend(d: int, ds: Seq<int>)
    ensures
        digits_val(seq![d] + ds) == d * pow10(ds.len()) + digits_val(ds),
    decreases ds.len(),
{
    if ds.len() == 0 {
        assert((seq![d] + ds) =~= seq![d]);
        assert(seq![d].drop_last() =~= Seq::<int>::empty());
        assert(digits_val(Seq::<int>::empty()) == 0);
        assert(digits_val(seq![d]) == d);
    } else {
        assert((seq![d] + ds).drop_last() =~= seq![d] + ds.drop_last());
        lemma_digits_val_prepend(d, ds.drop_last());
        assert((d * pow10((ds.len() - 1) as nat) + digits_val(ds.drop_last())) * 10 == d * (10
            * pow10((ds.len() - 1) as nat)) + digits_val(ds.drop_last()) * 10) by (nonlinear_arith);
    }
}

/// Digit sequences with a leading non-zero digit hold at least one.
proof fn lemma_digits_val_pos(ds: Seq<int>)
    requires
        ds.len() >= 1,
        forall|i: int| 0 <= i < ds.len() ==> 0 <= #[trigger] ds[i] <= 9,
        ds[0] >= 1,
    ensures
        digits_val(ds) >= 1,
    decreases ds.len(),
{
    if ds.len() == 1 {
        assert(ds.drop_last() =~= Seq::<int>::empty());
        assert(digits_val(Seq::<int>::empty()) == 0);
    } else {
        assert(0 <= ds.last());
        assert(ds.drop_last()[0] == ds[0]);
        assert(forall|i: int|
            0 <= i < ds.len() - 1 ==> 0 <= #[trigger] ds.drop_last()[i] <= 9);
        lemma_digits_val_pos(ds.drop_last());
        assert(digits_val(ds.drop_last()) * 10 >= 10) by (nonlinear_arith)
            requires
                digits_val(ds.drop_last()) >= 1,
        ;
    }
}

/// A digit sequence with a non-zero leading digit is exactly the
/// decimal rendering of the integer it holds.
proof fn lemma_digits_of_val(ds: Seq<int>)
    requires
        ds.len() >= 1,
        forall|i: int| 0 <= i < ds.len() ==> 0 <= #[trigger] ds[i] <= 9,
        ds[0] >= 1 || ds.len() == 1,
    ensures
        dec_digits(digits_val(ds)).len() == ds.len(),
        forall|i: int| 0 <= i < ds.len() ==> dec_digits(digits_val(ds))[i] == digit(#[trigger] ds[i]),
    decreases ds.len(),
{
    let n = digits_val(ds);
    if ds.len() == 1 {
        assert(ds.drop_last() =~= Seq::<int>::empty());
        assert(digits_val(Seq::<int>::empty()) == 0);
        assert(n == ds[0]);
        assert(dec_digits(n) =~= seq![digit(ds[0])]);
    } else {
        let head = ds.drop_last();
        assert(head[0] == ds[0]);
        assert(forall|i: int| 0 <= i < head.len() ==> 0 <= #[trigger] head[i] <= 9);
        lemma_digits_val_pos(head);
        let hv = digits_val(head);
        assert(n == hv * 10 + ds.last());
        assert(hv * 10 >= 10) by (nonlinear_arith)
            requires
                hv >= 1,
        ;
        assert(n / 10 == hv && n % 10 == ds.last()) by (nonlinear_arith)
            requires
                n == hv * 10 + ds.last(),
                0 <= ds.last() <= 9,
                hv >= 0,
        ;
        lemma_digits_of_val(head);
        assert(dec_digits(n) == dec_digits(hv).push(digit(ds.last())));
        assert(forall|i: int|
            0 <= i < ds.len() - 1 ==> dec_digits(hv).push(digit(ds.last()))[i] == dec_digits(
                hv,
            )[i] && ds[i] == head[i]);
    }
}

/// The decimal digits of the integer held by a limb vector, most
/// significant first, by repeated division by ten.
fn bn_digits(start: Vec<u64>) -> (r: Vec<char>)
    ensures
        r@ == dec_digits(limbs_val(start@)),
{
    let ghost orig = limbs_val(start@);
    proof {
        lemma_limbs_val_zero(start@);
    }
    let mut cur = start;
    let mut rev: Vec<char> = Vec::new();
    let ghost mut ds: Seq<int> = Seq::empty();
    let mut nonzero = !bn_is_zero(&cur);
    while nonzero
        invariant
            nonzero <==> limbs_val(cur@) != 0,
            limbs_val(cur@) >= 0,
            orig == limbs_val(cur@) * pow10(ds.len()) + digits_val(ds),
            rev@.len() == ds.len(),
            forall|i: int| 0 <= i < ds.len() ==> 0 <= #[trigger] ds[i] <= 9,
            forall|i: int| 0 <= i < ds.len() ==> rev@[i] == digit(ds[ds.len() - 1 - i]),
            ds.len() > 0 && ds[0] == 0 ==> limbs_val(cur@) > 0,
        decreases limbs_val(cur@),
    {
        let ghost v = limbs_val(cur@);
        let ghost len0 = ds.len();
        let (q, d) = bn_divmod10(&cur);
        proof {
            lemma_limbs_val_zero(q@);
            assert(limbs_val(q@) < v) by {
                assert(v == limbs_val(q@) * 10 + d);
                assert(limbs_val(q@) * 10 >= limbs_val(q@)) by (nonlinear_arith)
                    requires
                        limbs_val(q@) >= 0,
                ;
            }
        }
        cur = q;
        rev.push(digit_char(d as u128));
        proof {
            lemma_digits_val_prepend(d as int, ds);
            assert(v * pow10(len0) == (limbs_val(cur@) * 10 + d) * pow10(len0));
            assert((limbs_val(cur@) * 10 + d) * pow10(len0) == limbs_val(cur@) * (10 * pow10(
                len0,
            )) + d * pow10(len0)) by (nonlinear_arith);
            ds = seq![d as int] + ds;
            assert(forall|i: int|
                0 <= i < ds.len() - 1 ==> rev@[i] == digit(ds[ds.len() - 1 - i]));
            assert(rev@[ds.len() - 1] == digit(ds[0]));
        }
        nonzero = !bn_is_zero(&cur);
    }
    if rev.len() == 0 {
        let mut out: Vec<char> = Vec::new();
        out.push('0');
        proof {
            assert(orig == 0);
            assert(dec_digits(0) =~= seq!['0']);
            assert(out@ =~= dec_digits(orig));
        }
        return out;
    }
    proof {
        assert(ds[0] >= 1);
        assert(orig == digits_val(ds)) by {
            assert(limbs_val(cur@) * pow10(ds.len()) == 0) by (nonlinear_arith)
                requires
                    limbs_val(cur@) == 0,
            ;
        }
        lemma_digits_of_val(ds);
    }
    let mut out: Vec<char> = Vec::new();
    let mut i: usize = rev.len();
    while i > 0
        invariant
            i <= rev.len(),
            out@.len() == rev@.len() - i,
            forall|k: int| 0 <= k < out@.len() ==> out@[k] == rev@[rev@.len() - 1 - k],
        decreases i,
    {
        i -= 1;
        out.push(rev[i]);
    }
    proof {
        assert(out@ =~= dec_digits(orig));
    }
    out
}

/// Appends the sign and the two-decimal digits of one finite scalar.
fn push_finite(b: u64, out: &mut Vec<char>)
    requires
        is_finite_bits(b),
    ensures
        final(out)@ == old(out)@ + number_chars(b),
{
    let exp_field: u64 = (b >> 52) & 0x7FF;
    let frac: u64 = b & 0xF_FFFF_FFFF_FFFF;
    let neg = (b >> 63) == 1;
    proof {
        assert(b & 0xF_FFFF_FFFF_FFFF <= 0xF_FFFF_FFFF_FFFF) by (bit_vector);
        lemma2_to64_rest();
    }
    let sig: u64 = if exp_field == 0 {
        frac
    } else {
        frac + 0x10_0000_0000_0000
    };
    proof {
        assert(sig <= 0x1F_FFFF_FFFF_FFFF);
        assert(sig as int == sig_of(b));
    }
    let scaled: u64 = sig * 100;
    if neg {
        out.push('-');
    }
    if exp_field >= 1075 {
        // The value is the integer sig * 2^k: the fraction is zero and
        // the whole part may exceed the machine words, so its digits
        // come from exact big-number arithmetic.
        let k: u64 = exp_field - 1075;
        let sh: u64 = k % 64;
        let w: u64 = k / 64;
        let pow = pow2_u64(sh);
        let ghost kn = k as nat;
        proof {
            lemma2_to64();
            lemma2_to64_rest();
            vstd::arithmetic::power2::lemma_pow2_pos(sh as nat);
            if (sh as nat) < 63 {
                lemma_pow2_strictly_increases(sh as nat, 63);
            }
            assert((sig as int) * (pow as int) < pow2(53) * pow2(63)) by (nonlinear_arith)
                requires
                    0 <= sig < pow2(53),
                    0 < pow <= pow2(63),
            ;
            lemma_pow2_adds(53, 63);
        }
        let x: u128 = (sig as u128) * (pow as u128);
        proof {
            let c: int = 0x1_0000_0000_0000_0000;
            assert((x as int) / c < c) by {
                if (x as int) / c >= c {
                    assert(c * ((x as int) / c) >= c * c);
                    assert((x as int) >= c * ((x as int) / c));
                }
            }
        }
        let hi: u64 = (x / 0x1_0000_0000_0000_0000) as u64;
        let lo: u64 = (x % 0x1_0000_0000_0000_0000) as u64;
        let mut limbs: Vec<u64> = Vec::new();
        limbs.push(hi);
        limbs.push(lo);
        proof {
            let c: int = 0x1_0000_0000_0000_0000;
            assert(hi as int == (x as int) / c);
            assert(lo as int == (x as int) % c);
            assert(x as int == c * ((x as int) / c) + (x as int) % c);
            assert(limbs@.drop_last() =~= seq![hi]);
            assert(seq![hi].drop_last() =~= Seq::<u64>::empty());
            assert(limbs_val(Seq::<u64>::empty()) == 0);
            assert(limbs_val(seq![hi]) == hi);
            assert(limbs_val(limbs@) == (hi as int) * c + lo);
            assert((hi as int) * c == c * ((x as int) / c)) by (nonlinear_arith)
                requires
                    hi as int == (x as int) / c,
            ;
            assert(limbs_val(limbs@) == x);
        }
        let mut i: u64 = 0;
        proof {
            lemma2_to64();
            assert((64 * i) as nat == 0);
            assert((x as int) * pow2(0) == x as int) by (nonlinear_arith)
                requires
                    pow2(0) == 1,
            ;
        }
        while i < w
            invariant
                i <= w,
                limbs_val(limbs@) == (x as int) * pow2((64 * i) as nat),
            decreases w - i,
        {
            let ghost pre = limbs@;
            limbs.push(0);
            proof {
                assert(limbs@.drop_last() =~= pre);
                lemma_pow2_adds((64 * i) as nat, 64);
                lemma2_to64_rest();
                assert(((x as int) * pow2((64 * i) as nat)) * pow2(64) == (x as int) * (pow2(
                    (64 * i) as nat,
                ) * pow2(64))) by (nonlinear_arith);
            }
            i += 1;
        }
        proof {
            assert((x as int) * pow2((64 * w) as nat) == (sig as int) * pow2(kn)) by {
                lemma_pow2_adds((sh as nat), (64 * w) as nat);
                assert(((sig as int) * pow2(sh as nat)) * pow2((64 * w) as nat) == (sig as int)
                    * (pow2(sh as nat) * pow2((64 * w) as nat))) by (nonlinear_arith);
                assert(kn == sh as nat + (64 * w) as nat);
            }
        }
        let digits = bn_digits(limbs);
        push_all(out, &digits);
        out.push('.');
        out.push('0');
        out.push('0');
        proof {
            let mag = cents_mag(b);
            assert(biased_exp(b) == exp_field);
            assert(kn == (biased_exp(b) - 1075) as nat);
            vstd::arithmetic::power2::lemma_pow2_pos(kn);
            assert(mag == ((sig as int) * 100) * pow2(kn));
            assert(((sig as int) * 100) * pow2(kn) == 100 * ((sig as int) * pow2(kn)))
                by (nonlinear_arith);
            assert((sig as int) * pow2(kn) >= 0) by (nonlinear_arith)
                requires
                    sig >= 0,
                    pow2(kn) > 0,
            ;
            let whole = (sig as int) * pow2(kn);
            assert(mag / 100 == whole && mag % 100 == 0) by (nonlinear_arith)
                requires
                    mag == 100 * whole,
                    whole >= 0,
            ;
            assert(out@ =~= old(out)@ + number_chars(b));
        }
    } else {
        // The hundredth count is sig * 100 / 2^j rounded half to even,
        // which fits one machine word.
        let j: u64 = if exp_field == 0 {
            1074
        } else {
            1075 - exp_field
        };
        let mag: u64 = if j >= 61 {
            proof {
                lemma2_to64_rest();
                vstd::arithmetic::power2::lemma_pow2_pos(j as nat);
                lemma_pow2_strictly_increases(60, 61);
                if j > 61 {
                    lemma_pow2_strictly_increases(61, j as nat);
                }
                let p: int = pow2(j as nat) as int;
                assert((scaled as int) / p == 0 && (scaled as int) % p == scaled as int)
                    by (nonlinear_arith)
                    requires
                        0 <= (scaled as int) && (scaled as int) < p,
                ;
            }
            0
        } else {
            let pow = pow2_u64(j);
            proof {
                lemma2_to64_rest();
                vstd::arithmetic::power2::lemma_pow2_pos(j as nat);
                if (j as nat) < 61 {
                    lemma_pow2_strictly_increases(j as nat, 61);
                }
            }
            let q: u64 = scaled / pow;
            let r: u64 = scaled % pow;
            let twice: u64 = 2 * r;
            if twice < pow {
                q
            } else if twice > pow {
                q + 1
            } else if q % 2 == 1 {
                q + 1
            } else {
                q
            }
        };
        proof {
            assert(mag == cents_mag(b));
        }
        push_digits((mag / 100) as u128, out);
        out.push('.');
        let f: u64 = mag % 100;
        out.push(digit_char((f / 10) as u128));
        out.push(digit_char((f % 10) as u128));
        proof {
            assert(out@ =~= old(out)@ + number_chars(b));
        }
    }
}

fn push_number(b: u64, out: &mut Vec<char>)
    ensures
        final(out)@ == old(out)@ + number_chars(b),
{
    let exp_field: u64 = (b >> 52) & 0x7FF;
    if exp_field == 0x7FF {
        let frac: u64 = b & 0xF_FFFF_FFFF_FFFF;
        if frac != 0 {
            out.push('N');
            out.push('a');
            out.push('N');
        } else if (b >> 63) == 1 {
            out.push('-');
            out.push('i');
            out.push('n');
            out.push('f');
        } else {
            out.push('i');
            out.push('n');
            out.push('f');
        }
        proof {
            assert(final(out)@ =~= old(out)@ + number_chars(b));
        }
    } else {
        push_finite(b, out);
    }
}

/// Every decimal rendering consists of decimal digits alone.
proof fn lemma_dec_digits_are_digits(n: int)
    ensures
        dec_digits(n).len() >= 1,
        forall|i: int| 0 <= i < dec_digits(n).len() ==> crate::literal::is_digit(
            #[trigger] dec_digits(n)[i],
        ),
    decreases n,
{
    if n < 10 {
        assert(crate::literal::is_digit(digit(n)));
    } else {
        lemma_dec_digits_are_digits(n / 10);
        assert(crate::literal::is_digit(digit(n % 10)));
    }
}

/// Law: the rendering of every finite scalar lies within the
/// parser's decimal literal grammar, so a rendered number always
/// re-enters the literal path when resubmitted.  This states the
/// grammar membership only; what value the re-parse yields is the
/// trusted decimal parser's outcome.
pub proof fn lemma_rendering_is_literal_shape(b: u64)
    requires
        is_finite_bits(b),
    ensures
        crate::literal::is_decimal_literal(number_chars(b)),
{
    let mag = cents_mag(b);
    lemma_dec_digits_are_digits(mag / 100);
    let whole = dec_digits(mag / 100);
    let tail = seq!['.'] + seq![digit(mag % 100 / 10), digit(mag % 100 % 10)];
    let t = whole + tail;
    let s = number_chars(b);
    if is_neg(b) {
        assert(s =~= seq!['-'] + t);
        assert(s[0] == '-');
        assert(crate::literal::strip_sign(s) =~= t);
    } else {
        assert(s =~= t);
        assert(crate::literal::is_digit(t[0]));
        assert(crate::literal::strip_sign(s) =~= t);
    }
    let st = crate::literal::strip_sign(s);
    assert(forall|i: int|
        0 <= i < whole.len() ==> crate::literal::is_digit(#[trigger] st[i]));
    assert(st[whole.len() as int] == '.');
    assert(!crate::literal::is_digit('.'));
    crate::literal::lemma_digit_run_scan(st, whole.len() as int);
    let rest = st.skip(whole.len() as int);
    assert(rest[0] == '.');
    let after = rest.skip(1);
    assert(after =~= seq![digit(mag % 100 / 10), digit(mag % 100 % 10)]);
    assert(crate::literal::is_digit(after[0]));
    assert(crate::literal::is_digit(after[1]));
    crate::literal::lemma_digit_run_scan(after, 2);
    assert(after.skip(2) =~= Seq::<char>::empty());
    assert(crate::literal::exp_ok(Seq::<char>::empty()));
}

/// Renders a scalar: two decimal digits for every finite value, and
/// `NaN`, `inf` or `-inf` otherwise.
pub fn format_number(b: u64) -> (s: String)
    ensures
        s@ == number_chars(b),
{
    let mut out: Vec<char> = Vec::new();
    push_number(b, &mut out);
    proof {
        assert(Seq::<char>::empty() + number_chars(b) =~= number_chars(b));
    }
    chars_to_string(&out)
}

/// The opening of the compact label of a single-row matrix.
pub open spec fn label_1d() -> Seq<char> {
    seq!['1', 'D', ' ', 'A', 'r', 'r', 'a', 'y', ' ', '[']
}

/// The opening of the compact label of a multi-row matrix.
pub open spec fn label_2d() -> Seq<char> {
    seq!['2', 'D', ' ', 'A', 'r', 'r', 'a', 'y', ' ', '[']
}

/// The closing of a compact label.
pub open spec fn label_close() -> Seq<char> {
    seq![' ', 'e', 'l', 'e', 'm', 'e', 'n', 't', 's', ']']
}

/// The compact, dimension-labeled rendering of an operand: a scalar
/// renders as its number, a single-row matrix as `1D Array [n
/// elements]`, and any other matrix as `2D Array [RxC elements]`.
pub open spec fn compact_chars(op: OperandModel) -> Seq<char> {
    match op {
        OperandModel::Num(b) => number_chars(b),
        OperandModel::Mat(m) => if m.len() == 1 {
            label_1d() + dec_digits(m[0].len() as int) + label_close()
        } else {
            label_2d() + dec_digits(m.len() as int) + seq!['x'] + dec_digits(m[0].len() as int)
                + label_close()
        },
    }
}

fn push_label_1d(out: &mut Vec<char>)
    ensures
        final(out)@ == old(out)@ + label_1d(),
{
    out.push('1');
    out.push('D');
    out.push(' ');
    out.push('A');
    out.push('r');
    out.push('r');
    out.push('a');
    out.push('y');
    out.push(' ');
    out.push('[');
    proof {
        assert(final(out)@ =~= old(out)@ + label_1d());
    }
}

fn push_label_2d(out: &mut Vec<char>)
    ensures
        final(out)@ == old(out)@ + label_2d(),
{
    out.push('2');
    out.push('D');
    out.push(' ');
    out.push('A');
    out.push('r');
    out.push('r');
    out.push('a');
    out.push('y');
    out.push(' ');
    out.push('[');
    proof {
        assert(final(out)@ =~= old(out)@ + label_2d());
    }
}

fn push_label_close(out: &mut Vec<char>)
    ensures
        final(out)@ == old(out)@ + label_close(),
{
    out.push(' ');
    out.push('e');
    out.push('l');
    out.push('e');
    out.push('m');
    out.push('e');
    out.push('n');
    out.push('t');
    out.push('s');
    out.push(']');
    proof {
        assert(final(out)@ =~= old(out)@ + label_close());
    }
}

/// Renders the compact, dimension-labeled form of an operand.
pub fn format_operand_compact(op: &Operand) -> (s: String)
    requires
        op@.wf(),
    ensures
        s@ == compact_chars(op@),
{
    let mut out: Vec<char> = Vec::new();
    match op {
        Operand::Number(b) => {
            push_number(*b, &mut out);
        },
        Operand::Matrix(m) => {
            let rows = m.len();
            let cols = m[0].len();
            if rows == 1 {
                push_label_1d(&mut out);
                push_digits(cols as u128, &mut out);
                push_label_close(&mut out);
            } else {
                push_label_2d(&mut out);
                push_digits(rows as u128, &mut out);
                out.push('x');
                push_digits(cols as u128, &mut out);
                push_label_close(&mut out);
            }
        },
    }
    proof {
        assert(out@ =~= compact_chars(op@));
    }
    chars_to_string(&out)
}

/// The cells of one row, rendered and joined with `, `.
pub open spec fn joined_cells(r: Seq<u64>) -> Seq<char>
    decreases r.len(),
{
    if r.len() == 0 {
        Seq::empty()
    } else if r.len() == 1 {
        number_chars(r[0])
    } else {
        joined_cells(r.drop_last()) + seq![',', ' '] + number_chars(r.last())
    }
}

/// The rows of a matrix, each rendered as its joined cells, joined
/// with `; `.
pub open spec fn joined_rows(m: Seq<Seq<u64>>) -> Seq<char>
    decreases m.len(),
{
    if m.len() == 0 {
        Seq::empty()
    } else if m.len() == 1 {
        joined_cells(m[0])
    } else {
        joined_rows(m.drop_last()) + seq![';', ' '] + joined_cells(m.last())
    }
}

/// The expanded rendering of an operand: a scalar renders as its
/// number, a single-row matrix as its bracketed cells, and any other
/// matrix as its rows joined with `; `.
pub open spec fn expanded_chars(op: OperandModel) -> Seq<char> {
    match op {
        OperandModel::Num(b) => number_chars(b),
        OperandModel::Mat(m) => if m.len() == 1 {
            seq!['['] + joined_cells(m[0]) + seq![']']
        } else {
            joined_rows(m)
        },
    }
}

fn push_cells(row: &Vec<u64>, out: &mut Vec<char>)
    ensures
        final(out)@ == old(out)@ + joined_cells(row@),
{
    let mut i: usize = 0;
    while i < row.len()
        invariant
            i <= row.len(),
            out@ == old(out)@ + joined_cells(row@.take(i as int)),
        decreases row.len() - i,
    {
        if i > 0 {
            out.push(',');
            out.push(' ');
        }
        push_number(row[i], out);
        proof {
            let part = row@.take(i as int + 1);
            assert(part.drop_last() =~= row@.take(i as int));
            assert(part.last() == row@[i as int]);
            if i == 0 {
                assert(out@ =~= old(out)@ + joined_cells(part));
            } else {
                assert(out@ =~= old(out)@ + joined_cells(part));
            }
        }
        i += 1;
    }
    proof {
        assert(row@.take(row@.len() as int) =~= row@);
    }
}

/// Renders the expanded form of an operand.
pub fn format_operand(op: &Operand) -> (s: String)
    ensures
        s@ == expanded_chars(op@),
{
    let mut out: Vec<char> = Vec::new();
    match op {
        Operand::Number(b) => {
            push_number(*b, &mut out);
        },
        Operand::Matrix(m) => {
            if m.len() == 1 {
                out.push('[');
                push_cells(&m[0], &mut out);
                out.push(']');
                proof {
                    assert(rows_view(m@)[0] == m@[0]@);
                }
            } else {
                let mut i: usize = 0;
                while i < m.len()
                    invariant
                        i <= m.len(),
                        m@.len() != 1,
                        out@ == joined_rows(rows_view(m@).take(i as int)),
                    decreases m.len() - i,
                {
                    if i > 0 {
                        out.push(';');
                        out.push(' ');
                    }
                    push_cells(&m[i], &mut out);
                    proof {
                        let rv = rows_view(m@);
                        let part = rv.take(i as int + 1);
                        assert(part.drop_last() =~= rv.take(i as int));
                        assert(part.last() == m@[i as int]@);
                        assert(out@ =~= joined_rows(part));
                    }
                    i += 1;
                }
                proof {
                    let rv = rows_view(m@);
                    assert(rv.take(rv.len() as int) =~= rv);
                }
            }
        },
    }
    proof {
        assert(out@ =~= expanded_chars(op@));
    }
    chars_to_string(&out)
}

} // verus!
