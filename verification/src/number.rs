//! What can be said of a binary64 value from its bit pattern alone: its sign,
//! whether it is a NaN, and how it compares with another.

use vstd::prelude::*;

verus! {

/// The sign bit of a binary64 bit pattern, as a number.
pub const SIGN_BIT: u64 = 0x8000_0000_0000_0000;

/// The bit pattern of positive infinity. Every magnitude above it is a NaN.
pub const INFINITY_BITS: u64 = 0x7FF0_0000_0000_0000;

/// Whether the sign bit of the pattern is set.
pub open spec fn is_negative(bits: u64) -> bool {
    bits >= SIGN_BIT
}

/// The pattern without its sign bit.
pub open spec fn magnitude(bits: u64) -> int {
    if is_negative(bits) {
        bits - SIGN_BIT
    } else {
        bits as int
    }
}

/// Whether the pattern encodes a NaN: all exponent bits set and a fraction that is not zero.
pub open spec fn is_nan(bits: u64) -> bool {
    magnitude(bits) > INFINITY_BITS
}

/// The place of a pattern that is not a NaN on the number line: binary64 is a
/// sign-and-magnitude format, so among patterns of one sign the greater
/// magnitude is the greater absolute value. Both zeros stand at 0.
pub open spec fn rank(bits: u64) -> int {
    if is_negative(bits) {
        -magnitude(bits)
    } else {
        magnitude(bits)
    }
}

/// The pattern of the negated value: the same pattern with the sign bit flipped.
pub open spec fn negated(bits: u64) -> u64 {
    if is_negative(bits) {
        (bits - SIGN_BIT) as u64
    } else {
        (bits + SIGN_BIT) as u64
    }
}

/// `left < right` on the encoded values. A NaN is not less than anything, and
/// nothing is less than a NaN.
pub open spec fn less(left: u64, right: u64) -> bool {
    !is_nan(left) && !is_nan(right) && rank(left) < rank(right)
}

/// `left <= right` on the encoded values. No comparison with a NaN holds.
pub open spec fn less_equal(left: u64, right: u64) -> bool {
    !is_nan(left) && !is_nan(right) && rank(left) <= rank(right)
}

/// Splits a pattern into its sign and its magnitude.
fn split(bits: u64) -> (parts: (bool, u64))
    ensures
        parts.0 == is_negative(bits),
        parts.1 == magnitude(bits),
{
    if bits >= SIGN_BIT {
        (true, bits - SIGN_BIT)
    } else {
        (false, bits)
    }
}

/// Whether the pattern encodes a NaN.
pub fn number_is_nan(bits: u64) -> (nan: bool)
    ensures
        nan == is_nan(bits),
{
    split(bits).1 > INFINITY_BITS
}

/// Negates the encoded value.
pub fn negate(bits: u64) -> (result: u64)
    ensures
        result == negated(bits),
        magnitude(result) == magnitude(bits),
        is_negative(result) != is_negative(bits),
{
    if bits >= SIGN_BIT {
        bits - SIGN_BIT
    } else {
        bits + SIGN_BIT
    }
}

/// Whether the value that `left` encodes is less than the one that `right` encodes.
pub fn number_less(left: u64, right: u64) -> (result: bool)
    ensures
        result == less(left, right),
{
    let (left_negative, left_magnitude) = split(left);
    let (right_negative, right_magnitude) = split(right);
    if number_is_nan(left) || number_is_nan(right) {
        false
    } else if left_negative && right_negative {
        left_magnitude > right_magnitude
    } else if left_negative {
        left_magnitude != 0 || right_magnitude != 0
    } else if right_negative {
        false
    } else {
        left_magnitude < right_magnitude
    }
}

/// Whether the value that `left` encodes is less than or equal to the one that `right` encodes.
pub fn number_less_equal(left: u64, right: u64) -> (result: bool)
    ensures
        result == less_equal(left, right),
{
    let (left_negative, left_magnitude) = split(left);
    let (right_negative, right_magnitude) = split(right);
    if number_is_nan(left) || number_is_nan(right) {
        false
    } else if left_negative && right_negative {
        left_magnitude >= right_magnitude
    } else if left_negative {
        true
    } else if right_negative {
        left_magnitude == 0 && right_magnitude == 0
    } else {
        left_magnitude <= right_magnitude
    }
}

/// Negating twice gives the pattern back.
pub proof fn lemma_negate_twice(bits: u64)
    ensures
        negated(negated(bits)) == bits,
{
}

/// Of two values that are not NaN, exactly one of `a < b`, `b < a` and
/// `a <= b && b <= a` holds, and `<=` is `<` or equal rank.
pub proof fn lemma_order_is_total(left: u64, right: u64)
    requires
        !is_nan(left),
        !is_nan(right),
    ensures
        less_equal(left, right) <==> !less(right, left),
        less_equal(left, right) <==> less(left, right) || rank(left) == rank(right),
{
}

} // verus!
