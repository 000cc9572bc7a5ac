//! The numeric model of the language: IEEE-754 double-precision values,
//! carried as their 64-bit patterns (`u64`).
//!
//! The operations themselves — decimal-to-binary conversion, the four
//! arithmetic operations, ordering, and decimal rendering — are performed by
//! `rustc_apfloat`, a software implementation of IEEE-754 binary64 that works
//! directly on bit patterns. Each operation is named by an uninterpreted spec
//! function, and a trusted wrapper ties the executable call to that name; the
//! rest of the crate is verified against those names.

use core::str::FromStr;
use rustc_apfloat::Float;
use rustc_apfloat::Round;
use rustc_apfloat::ieee::Double;
use vstd::prelude::*;

verus! {

/// The binary64 value (as bits) denoted by a decimal literal, rounded to
/// nearest-even.
pub uninterp spec fn dbl_of_decimal(s: Seq<char>) -> u64;

/// IEEE-754 binary64 addition (round to nearest even) on bit patterns.
pub uninterp spec fn dbl_add(a: u64, b: u64) -> u64;

/// IEEE-754 binary64 subtraction (round to nearest even) on bit patterns.
pub uninterp spec fn dbl_sub(a: u64, b: u64) -> u64;

/// IEEE-754 binary64 multiplication (round to nearest even) on bit patterns.
pub uninterp spec fn dbl_mul(a: u64, b: u64) -> u64;

/// IEEE-754 binary64 division (round to nearest even) on bit patterns.
pub uninterp spec fn dbl_div(a: u64, b: u64) -> u64;

/// IEEE-754 "less than" on bit patterns (false whenever either side is NaN).
pub uninterp spec fn dbl_lt(a: u64, b: u64) -> bool;

/// IEEE-754 equality on bit patterns (false whenever either side is NaN;
/// positive and negative zero are equal).
pub uninterp spec fn dbl_eq(a: u64, b: u64) -> bool;

/// The decimal rendering of a binary64 value given by its bits.
pub uninterp spec fn dbl_text(a: u64) -> Seq<char>;

/// The bit pattern of the double 1.0, the numeric coercion of `true`.
pub const ONE_BITS: u64 = 0x3FF0_0000_0000_0000;

/// The bit pattern of the double +0.0, the numeric coercion of `false`.
pub const ZERO_BITS: u64 = 0;

/// The bit pattern a boolean coerces to when it meets a number.
pub open spec fn bool_bits(b: bool) -> u64 {
    if b {
        ONE_BITS
    } else {
        ZERO_BITS
    }
}

/// The bits a boolean coerces to when it meets a number: 1.0 for `true`,
/// +0.0 for `false`.
pub fn bool_to_bits(b: bool) -> (r: u64)
    ensures
        r == bool_bits(b),
{
    if b {
        ONE_BITS
    } else {
        ZERO_BITS
    }
}

pub open spec fn spec_is_digit(c: char) -> bool {
    '0' <= c && c <= '9'
}

/// The shape of a numeric lexeme: digits, at most one interior dot, and a
/// digit on each side of it.
pub open spec fn decimal_shape(s: Seq<char>) -> bool {
    &&& s.len() > 0
    &&& spec_is_digit(s[0])
    &&& spec_is_digit(s[s.len() - 1])
    &&& forall|i: int| 0 <= i < s.len() ==> spec_is_digit(#[trigger] s[i]) || s[i] == '.'
    &&& forall|i: int, j: int| 0 <= i < j < s.len() && s[i] == '.' ==> s[j] != '.'
}

/// Relies on `rustc_apfloat::ieee::Double`'s `FromStr`: a decimal string is
/// converted to binary64, correctly rounded to nearest-even. A string of the
/// shape required here is always accepted by it.
#[verifier::external_body]
pub fn double_of_decimal(s: &str) -> (r: u64)
    requires
        decimal_shape(s@),
    ensures
        r == dbl_of_decimal(s@),
{
    match Double::from_str(s) {
        Ok(d) => d.to_bits() as u64,
        Err(_) => 0,
    }
}

/// Relies on `rustc_apfloat::Float::add_r`: IEEE-754 binary64 addition,
/// round to nearest even.
#[verifier::external_body]
pub fn double_add(a: u64, b: u64) -> (r: u64)
    ensures
        r == dbl_add(a, b),
{
    Double::from_bits(a as u128).add_r(Double::from_bits(b as u128), Round::NearestTiesToEven).value.to_bits() as u64
}

/// Relies on `rustc_apfloat::Float::sub_r`: IEEE-754 binary64 subtraction,
/// round to nearest even.
#[verifier::external_body]
pub fn double_sub(a: u64, b: u64) -> (r: u64)
    ensures
        r == dbl_sub(a, b),
{
    Double::from_bits(a as u128).sub_r(Double::from_bits(b as u128), Round::NearestTiesToEven).value.to_bits() as u64
}

/// Relies on `rustc_apfloat::Float::mul_r`: IEEE-754 binary64 multiplication,
/// round to nearest even.
#[verifier::external_body]
pub fn double_mul(a: u64, b: u64) -> (r: u64)
    ensures
        r == dbl_mul(a, b),
{
    Double::from_bits(a as u128).mul_r(Double::from_bits(b as u128), Round::NearestTiesToEven).value.to_bits() as u64
}

/// Relies on `rustc_apfloat::Float::div_r`: IEEE-754 binary64 division,
/// round to nearest even; division by zero follows IEEE-754 (infinity, NaN).
#[verifier::external_body]
pub fn double_div(a: u64, b: u64) -> (r: u64)
    ensures
        r == dbl_div(a, b),
{
    Double::from_bits(a as u128).div_r(Double::from_bits(b as u128), Round::NearestTiesToEven).value.to_bits() as u64
}

/// Relies on `PartialOrd for rustc_apfloat::ieee::IeeeFloat`: the IEEE-754
/// ordering, under which NaN compares with nothing.
#[verifier::external_body]
pub fn double_lt(a: u64, b: u64) -> (r: bool)
    ensures
        r == dbl_lt(a, b),
{
    Double::from_bits(a as u128) < Double::from_bits(b as u128)
}

/// Relies on `PartialEq for rustc_apfloat::ieee::IeeeFloat`: IEEE-754
/// equality, under which NaN equals nothing and the two zeros are equal.
#[verifier::external_body]
pub fn double_eq(a: u64, b: u64) -> (r: bool)
    ensures
        r == dbl_eq(a, b),
{
    Double::from_bits(a as u128) == Double::from_bits(b as u128)
}

/// Relies on `Display for rustc_apfloat::ieee::IeeeFloat`: the shortest
/// decimal rendering of the value, a function of the bits alone.
#[verifier::external_body]
pub fn double_text(a: u64) -> (r: String)
    ensures
        r@ == dbl_text(a),
{
    format!("{}", Double::from_bits(a as u128))
}

/// IEEE-754 "less than or equal": true exactly when the left side is less
/// than or equal to the right, which for a partial order is the disjunction
/// of the two primitive comparisons.
pub fn double_le(a: u64, b: u64) -> (r: bool)
    ensures
        r == (dbl_lt(a, b) || dbl_eq(a, b)),
{
    double_lt(a, b) || double_eq(a, b)
}

} // verus!
