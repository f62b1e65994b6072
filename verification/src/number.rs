//! Doubles as bit patterns: what can be decided about them without
//! floating-point arithmetic.

use vstd::prelude::*;

verus! {

/// Numbers of the language are IEEE-754 doubles. The library holds a number
/// as its 64-bit pattern (sign, 11 exponent bits, 52 fraction bits) and never
/// touches floating-point hardware: comparisons and negation are decided on
/// the pattern, and the arithmetic that rounds is asked of the host.
pub const SIGN_BIT: u64 = 0x8000_0000_0000_0000;

/// The pattern of positive infinity; every larger magnitude is a NaN.
pub const INFINITY_BITS: u64 = 0x7ff0_0000_0000_0000;

/// The four operations whose result must be rounded, and which are therefore
/// computed by the host.
#[derive(Clone, Copy, Debug, PartialEq, Eq, Structural)]
pub enum ArithmeticOperator {
    Add,
    Subtract,
    Multiply,
    Divide,
}

/// The pattern without its sign bit.
pub open spec fn magnitude_of(bits: u64) -> int {
    if bits >= SIGN_BIT {
        bits - SIGN_BIT
    } else {
        bits as int
    }
}

/// Whether the sign bit is set.
pub open spec fn is_negative(bits: u64) -> bool {
    bits >= SIGN_BIT
}

/// Whether the pattern is a NaN: all exponent bits set and a non-zero fraction.
pub open spec fn is_nan_spec(bits: u64) -> bool {
    magnitude_of(bits) > INFINITY_BITS
}

/// An integer that orders the non-NaN patterns as their numeric values are
/// ordered; the two zeros share the ordinal 0.
pub open spec fn ordinal(bits: u64) -> int {
    if is_negative(bits) {
        -magnitude_of(bits)
    } else {
        magnitude_of(bits)
    }
}

/// Numeric equality: false when either side is a NaN, and `-0 == +0`.
pub open spec fn equals_spec(left: u64, right: u64) -> bool {
    !is_nan_spec(left) && !is_nan_spec(right) && ordinal(left) == ordinal(right)
}

/// Numeric `<`: false when either side is a NaN.
pub open spec fn less_spec(left: u64, right: u64) -> bool {
    !is_nan_spec(left) && !is_nan_spec(right) && ordinal(left) < ordinal(right)
}

/// Numeric `<=`: false when either side is a NaN.
pub open spec fn less_equal_spec(left: u64, right: u64) -> bool {
    !is_nan_spec(left) && !is_nan_spec(right) && ordinal(left) <= ordinal(right)
}

/// The pattern with its sign bit flipped.
pub open spec fn negate_spec(bits: u64) -> u64 {
    if bits >= SIGN_BIT {
        (bits - SIGN_BIT) as u64
    } else {
        (bits + SIGN_BIT) as u64
    }
}

fn magnitude(bits: u64) -> (m: u64)
    ensures
        m == magnitude_of(bits),
        m < SIGN_BIT,
{
    if bits >= SIGN_BIT {
        bits - SIGN_BIT
    } else {
        bits
    }
}

#[verifier::when_used_as_spec(is_nan_spec)]
pub fn is_nan(bits: u64) -> (nan: bool)
    ensures
        nan == is_nan_spec(bits),
{
    magnitude(bits) > INFINITY_BITS
}

/// `left == right` on doubles.
#[verifier::when_used_as_spec(equals_spec)]
pub fn equals(left: u64, right: u64) -> (equal: bool)
    ensures
        equal == equals_spec(left, right),
{
    if is_nan(left) || is_nan(right) {
        return false;
    }
    let l: u64 = magnitude(left);
    let r: u64 = magnitude(right);
    if (left >= SIGN_BIT) == (right >= SIGN_BIT) {
        l == r
    } else {
        l == 0 && r == 0
    }
}

/// `left < right` on doubles.
#[verifier::when_used_as_spec(less_spec)]
pub fn less(left: u64, right: u64) -> (holds: bool)
    ensures
        holds == less_spec(left, right),
{
    if is_nan(left) || is_nan(right) {
        return false;
    }
    let l: u64 = magnitude(left);
    let r: u64 = magnitude(right);
    if left >= SIGN_BIT {
        if right >= SIGN_BIT {
            l > r
        } else {
            l > 0 || r > 0
        }
    } else {
        if right >= SIGN_BIT {
            false
        } else {
            l < r
        }
    }
}

/// `left <= right` on doubles.
#[verifier::when_used_as_spec(less_equal_spec)]
pub fn less_equal(left: u64, right: u64) -> (holds: bool)
    ensures
        holds == less_equal_spec(left, right),
{
    less(left, right) || equals(left, right)
}

/// `left > right` on doubles.
pub fn greater(left: u64, right: u64) -> (holds: bool)
    ensures
        holds == less_spec(right, left),
{
    less(right, left)
}

/// `left >= right` on doubles.
pub fn greater_equal(left: u64, right: u64) -> (holds: bool)
    ensures
        holds == less_equal_spec(right, left),
{
    less_equal(right, left)
}

/// `-x` on doubles: the sign bit is flipped, also for zeros, infinities and NaNs.
#[verifier::when_used_as_spec(negate_spec)]
pub fn negate(bits: u64) -> (negated: u64)
    ensures
        negated == negate_spec(bits),
{
    if bits >= SIGN_BIT {
        bits - SIGN_BIT
    } else {
        bits + SIGN_BIT
    }
}

/// Negating twice gives the number back.
pub proof fn negate_is_an_involution(bits: u64)
    ensures
        negate_spec(negate_spec(bits)) == bits,
{
}

/// A number that is not a NaN equals itself, and a NaN equals nothing.
pub proof fn equality_is_reflexive_off_nan(bits: u64)
    ensures
        equals_spec(bits, bits) == !is_nan_spec(bits),
{
}

/// For numbers that are not NaNs exactly one of `<`, `==`, `>` holds.
pub proof fn comparison_is_total_off_nan(left: u64, right: u64)
    requires
        !is_nan_spec(left),
        !is_nan_spec(right),
    ensures
        less_spec(left, right) || equals_spec(left, right) || less_spec(right, left),
        !(less_spec(left, right) && equals_spec(left, right)),
        !(less_spec(left, right) && less_spec(right, left)),
        less_equal_spec(left, right) == (less_spec(left, right) || equals_spec(left, right)),
{
}

} // verus!
