//! The number arithmetic that templates use, supplied by the caller.
use vstd::prelude::*;

verus! {

/// Arithmetic on IEEE-754 binary64 numbers, which this library carries as their bit patterns.
///
/// The library decides everything around a computation (which modifier applies, whether its
/// operands have the right types, whether a divisor is zero); an implementation of this trait
/// only performs the computation itself.
pub trait Numerics {
    /// Parses a decimal number such as `-12.5`, or gives `None` when the text is not one.
    fn parse(&self, text: &str) -> Option<u64>;

    /// `a + b`.
    fn sum(&self, a: u64, b: u64) -> u64;

    /// `a - b`.
    fn difference(&self, a: u64, b: u64) -> u64;

    /// `a * b`.
    fn product(&self, a: u64, b: u64) -> u64;

    /// `a / b`.
    fn quotient(&self, a: u64, b: u64) -> u64;

    /// Writes a number as text.
    fn display(&self, n: u64) -> String;

    /// Writes `component / 255` with three decimals.
    fn fraction(&self, component: u8) -> String;
}

/// The sign bit of a binary64 number.
pub const SIGN_BIT: u64 = 0x8000_0000_0000_0000;

/// The bits of a binary64 number without its sign.
pub const MAGNITUDE_BITS: u64 = 0x7FFF_FFFF_FFFF_FFFF;

/// The exponent bits of a binary64 number.
pub const EXPONENT_BITS: u64 = 0x7FF0_0000_0000_0000;

/// The fraction bits of a binary64 number.
pub const FRACTION_BITS: u64 = 0x000F_FFFF_FFFF_FFFF;

/// Whether the bits encode positive or negative zero.
pub open spec fn is_zero(n: u64) -> bool {
    n & MAGNITUDE_BITS == 0
}

/// Whether the bits encode a NaN.
pub open spec fn is_nan(n: u64) -> bool {
    n & EXPONENT_BITS == EXPONENT_BITS && n & FRACTION_BITS != 0
}

/// IEEE-754 equality: NaN equals nothing, both zeros are equal, otherwise the bits decide.
pub open spec fn numbers_equal(a: u64, b: u64) -> bool {
    !is_nan(a) && !is_nan(b) && (a == b || (is_zero(a) && is_zero(b)))
}

/// Whether the bits encode zero.
pub fn zero(n: u64) -> (r: bool)
    ensures
        r == is_zero(n),
{
    n & MAGNITUDE_BITS == 0
}

/// IEEE-754 equality of two numbers.
pub fn equal(a: u64, b: u64) -> (r: bool)
    ensures
        r == numbers_equal(a, b),
{
    let a_nan = a & EXPONENT_BITS == EXPONENT_BITS && a & FRACTION_BITS != 0;
    let b_nan = b & EXPONENT_BITS == EXPONENT_BITS && b & FRACTION_BITS != 0;
    !a_nan && !b_nan && (a == b || (a & MAGNITUDE_BITS == 0 && b & MAGNITUDE_BITS == 0))
}

/// The negation of a number: the same magnitude with the other sign.
pub fn negate(n: u64) -> (r: u64)
    ensures
        r == n ^ SIGN_BIT,
        r & MAGNITUDE_BITS == n & MAGNITUDE_BITS,
        r & SIGN_BIT != n & SIGN_BIT,
{
    let r = n ^ SIGN_BIT;
    assert(r & MAGNITUDE_BITS == n & MAGNITUDE_BITS && r & SIGN_BIT != n & SIGN_BIT) by (bit_vector)
        requires
            r == n ^ 0x8000_0000_0000_0000u64,
    ;
    r
}

} // verus!
