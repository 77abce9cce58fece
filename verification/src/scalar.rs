//! IEEE-754 binary64 scalars, carried as raw bit patterns.
//!
//! The engine stores every scalar as the `u64` bit pattern of an IEEE-754
//! binary64 value, so that all of its own logic is stated over plain
//! integers.  The float operations themselves are delegated to
//! `rustc_apfloat`'s software implementation of the same format; each
//! operation is named by an uninterpreted spec function of the bit
//! patterns alone, and the contracts of the engine are exact up to those
//! names.

use core::str::FromStr;
use rustc_apfloat::Float;
use rustc_apfloat::ieee::Double;
use vstd::prelude::*;

verus! {

/// The bit pattern of the IEEE-754 binary64 sum of the two values with
/// bit patterns `a` and `b`, rounded to nearest, ties to even.
pub uninterp spec fn add_bits(a: u64, b: u64) -> u64;

/// The bit pattern of the IEEE-754 binary64 product of the two values
/// with bit patterns `a` and `b`, rounded to nearest, ties to even.
pub uninterp spec fn mul_bits(a: u64, b: u64) -> u64;

/// What IEEE-754 binary64 decimal parsing (round to nearest, ties to
/// even) makes of a piece of text: the bit pattern of the parsed value,
/// or `None` where the text is not a well-formed float literal.
pub uninterp spec fn float_bits_of(s: Seq<char>) -> Option<u64>;

/// Relies on `rustc_apfloat::ieee::Double`'s `Add` impl (`add_r` with
/// round to nearest, ties to even): the sum is a function of the two
/// bit patterns alone.
#[verifier::external_body]
pub(crate) fn float_add(a: u64, b: u64) -> (r: u64)
    ensures
        r == add_bits(a, b),
{
    (Double::from_bits(a as u128) + Double::from_bits(b as u128)).value.to_bits() as u64
}

/// Relies on `rustc_apfloat::ieee::Double`'s `Mul` impl (`mul_r` with
/// round to nearest, ties to even): the product is a function of the
/// two bit patterns alone.
#[verifier::external_body]
pub(crate) fn float_mul(a: u64, b: u64) -> (r: u64)
    ensures
        r == mul_bits(a, b),
{
    (Double::from_bits(a as u128) * Double::from_bits(b as u128)).value.to_bits() as u64
}

/// Relies on `rustc_apfloat::ieee::Double`'s `FromStr` impl: it parses
/// float literals (decimal or hexadecimal significand, optional sign
/// and exponent, spellings of infinities and NaNs), correctly rounded
/// to nearest with ties to even, and rejects everything else; the
/// outcome is a function of the text alone.  The engine consults it
/// only for text already inside its own decimal literal grammar.
#[verifier::external_body]
pub(crate) fn float_parse(s: &Vec<char>) -> (r: Option<u64>)
    ensures
        r == float_bits_of(s@),
{
    let text: String = s.iter().collect();
    match Double::from_str(&text) {
        Ok(value) => Some(value.to_bits() as u64),
        Err(_) => None,
    }
}

/// Relies on `String`'s `FromIterator<char>` impl: collecting chars
/// yields the string of exactly those chars, in order.
#[verifier::external_body]
pub(crate) fn chars_to_string(v: &Vec<char>) -> (s: String)
    ensures
        s@ == v@,
{
    v.iter().collect()
}

} // verus!
