use rustc_apfloat::Float;
use rustc_apfloat::ieee::Double;
use vstd::prelude::*;

verus! {

// Numbers of the language are IEEE 754 binary64 values, carried everywhere as
// their 64-bit pattern.  The rounding arithmetic (add, subtract, multiply,
// divide) and the conversion of a decimal literal to a bit pattern are done by
// the software implementation in the `rustc_apfloat` crate, which computes on
// bit patterns directly; each such operation is a pure function of its
// arguments and is given a name below.  Negation and the ordered comparisons
// are simple enough to define on the bits themselves, and are verified here.

/// The bit pattern that `rustc_apfloat` computes for the sum of two binary64
/// values, rounding to nearest, ties to even.
pub uninterp spec fn num_add_of(a: u64, b: u64) -> u64;

/// The bit pattern of the difference of two binary64 values.
pub uninterp spec fn num_sub_of(a: u64, b: u64) -> u64;

/// The bit pattern of the product of two binary64 values.
pub uninterp spec fn num_mul_of(a: u64, b: u64) -> u64;

/// The bit pattern of the quotient of two binary64 values.
pub uninterp spec fn num_div_of(a: u64, b: u64) -> u64;

/// The binary64 bit pattern that a decimal literal denotes, rounded to
/// nearest, ties to even.
pub uninterp spec fn num_of_text(s: Seq<char>) -> u64;

/// Relies on `core::ops::Add for rustc_apfloat::ieee::Double`: IEEE 754
/// addition on bit patterns, rounding to nearest, ties to even.
#[verifier::external_body]
pub fn num_add(a: u64, b: u64) -> (r: u64)
    ensures
        r == num_add_of(a, b),
{
    (Double::from_bits(a as u128) + Double::from_bits(b as u128)).value.to_bits() as u64
}

/// Relies on `core::ops::Sub for rustc_apfloat::ieee::Double`: IEEE 754
/// subtraction on bit patterns.
#[verifier::external_body]
pub fn num_sub(a: u64, b: u64) -> (r: u64)
    ensures
        r == num_sub_of(a, b),
{
    (Double::from_bits(a as u128) - Double::from_bits(b as u128)).value.to_bits() as u64
}

/// Relies on `core::ops::Mul for rustc_apfloat::ieee::Double`: IEEE 754
/// multiplication on bit patterns.
#[verifier::external_body]
pub fn num_mul(a: u64, b: u64) -> (r: u64)
    ensures
        r == num_mul_of(a, b),
{
    (Double::from_bits(a as u128) * Double::from_bits(b as u128)).value.to_bits() as u64
}

/// Relies on `core::ops::Div for rustc_apfloat::ieee::Double`: IEEE 754
/// division on bit patterns; division by zero yields an infinity or NaN, never
/// a fault.
#[verifier::external_body]
pub fn num_div(a: u64, b: u64) -> (r: u64)
    ensures
        r == num_div_of(a, b),
{
    (Double::from_bits(a as u128) / Double::from_bits(b as u128)).value.to_bits() as u64
}

pub open spec fn is_digit(c: char) -> bool {
    '0' <= c && c <= '9'
}

pub open spec fn all_digits(s: Seq<char>) -> bool
    decreases s.len(),
{
    s.len() == 0 || (is_digit(s[0]) && all_digits(s.drop_first()))
}

/// What may follow the first digit of a numeric literal: more digits, and
/// optionally a point followed by one or more digits.
pub open spec fn number_tail(s: Seq<char>) -> bool
    decreases s.len(),
{
    if s.len() == 0 {
        true
    } else if is_digit(s[0]) {
        number_tail(s.drop_first())
    } else if s[0] == '.' {
        s.len() >= 2 && all_digits(s.drop_first())
    } else {
        false
    }
}

/// True of the texts that the lexer accepts as numeric literals: one or more
/// digits, optionally followed by a point and one or more digits.
pub open spec fn is_number_literal(s: Seq<char>) -> bool {
    s.len() >= 1 && is_digit(s[0]) && number_tail(s.drop_first())
}

/// Decides whether a character is a decimal digit.
pub fn digit_char(c: char) -> (r: bool)
    ensures
        r == is_digit(c),
{
    '0' <= c && c <= '9'
}

/// Relies on `FromStr for rustc_apfloat::ieee::Double`: parses a decimal
/// literal to the correctly rounded binary64 bit pattern.  Parsing a text of
/// digits with at most one inner point always succeeds.
#[verifier::external_body]
pub fn num_parse(s: &str) -> (r: u64)
    requires
        is_number_literal(s@),
    ensures
        r == num_of_text(s@),
{
    s.parse::<Double>().unwrap().to_bits() as u64
}

pub open spec fn spec_num_is_nan(a: u64) -> bool {
    a & 0x7ff0_0000_0000_0000u64 == 0x7ff0_0000_0000_0000u64 && a & 0x000f_ffff_ffff_ffffu64
        != 0u64
}

/// IEEE 754 equality on bit patterns: NaN equals nothing, the two zeros equal
/// each other, and otherwise equal patterns are equal values.
pub open spec fn spec_num_eq(a: u64, b: u64) -> bool {
    &&& !spec_num_is_nan(a)
    &&& !spec_num_is_nan(b)
    &&& (a == b || (a | b) & 0x7fff_ffff_ffff_ffffu64 == 0u64)
}

/// IEEE 754 ordering on bit patterns: false when either side is NaN, else the
/// sign-magnitude order of the patterns.
pub open spec fn spec_num_lt(a: u64, b: u64) -> bool {
    &&& !spec_num_is_nan(a)
    &&& !spec_num_is_nan(b)
    &&& {
        let sa = a & 0x8000_0000_0000_0000u64 != 0u64;
        let sb = b & 0x8000_0000_0000_0000u64 != 0u64;
        let ma = a & 0x7fff_ffff_ffff_ffffu64;
        let mb = b & 0x7fff_ffff_ffff_ffffu64;
        if sa != sb {
            sa && !(ma == 0u64 && mb == 0u64)
        } else if !sa {
            ma < mb
        } else {
            mb < ma
        }
    }
}

pub fn num_is_nan(a: u64) -> (r: bool)
    ensures
        r == spec_num_is_nan(a),
{
    a & 0x7ff0_0000_0000_0000u64 == 0x7ff0_0000_0000_0000u64 && a & 0x000f_ffff_ffff_ffffu64 != 0
}

pub fn num_eq(a: u64, b: u64) -> (r: bool)
    ensures
        r == spec_num_eq(a, b),
{
    if num_is_nan(a) || num_is_nan(b) {
        false
    } else {
        a == b || (a | b) & 0x7fff_ffff_ffff_ffffu64 == 0
    }
}

pub fn num_lt(a: u64, b: u64) -> (r: bool)
    ensures
        r == spec_num_lt(a, b),
{
    if num_is_nan(a) || num_is_nan(b) {
        return false;
    }
    let sa = a & 0x8000_0000_0000_0000u64 != 0;
    let sb = b & 0x8000_0000_0000_0000u64 != 0;
    let ma = a & 0x7fff_ffff_ffff_ffffu64;
    let mb = b & 0x7fff_ffff_ffff_ffffu64;
    if sa != sb {
        sa && !(ma == 0 && mb == 0)
    } else if !sa {
        ma < mb
    } else {
        mb < ma
    }
}

pub open spec fn spec_num_gt(a: u64, b: u64) -> bool {
    spec_num_lt(b, a)
}

pub fn num_gt(a: u64, b: u64) -> (r: bool)
    ensures
        r == spec_num_gt(a, b),
{
    num_lt(b, a)
}

/// Negation flips the sign bit and nothing else, on every pattern, NaN
/// included.
pub open spec fn spec_num_neg(a: u64) -> u64 {
    a ^ 0x8000_0000_0000_0000u64
}

pub fn num_neg(a: u64) -> (r: u64)
    ensures
        r == spec_num_neg(a),
{
    a ^ 0x8000_0000_0000_0000u64
}

} // verus!
