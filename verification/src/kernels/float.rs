//! 32-bit floating-point numbers as bit patterns: order, and conversion from and to 16 bits.
use vstd::prelude::*;

verus! {

/// The pattern of minus infinity.
pub const NEG_INF: u32 = 0xFF80_0000;

/// The pattern of plus infinity.
pub const POS_INF: u32 = 0x7F80_0000;

/// The pattern is not a number.
pub open spec fn is_nan(b: u32) -> bool {
    b % 0x8000_0000 > POS_INF
}

/// A number that orders as the floating-point numbers do: the magnitude of the pattern with its
/// sign. Both zeros have the key 0.
pub open spec fn key(b: u32) -> int {
    if b < 0x8000_0000 {
        b as int
    } else {
        0x8000_0000 - b
    }
}

/// `a > b` in floating point: false where either is not a number.
pub open spec fn gt(a: u32, b: u32) -> bool {
    !is_nan(a) && !is_nan(b) && key(a) > key(b)
}

/// `a == b` in floating point: false where either is not a number.
pub open spec fn eq(a: u32, b: u32) -> bool {
    !is_nan(a) && !is_nan(b) && key(a) == key(b)
}

/// Whether the pattern is not a number.
pub fn float_is_nan(b: u32) -> (r: bool)
    ensures
        r == is_nan(b),
{
    b % 0x8000_0000 > POS_INF
}

/// The key of a pattern.
fn order_key(b: u32) -> (r: i64)
    ensures
        r == key(b),
{
    if b < 0x8000_0000 {
        b as i64
    } else {
        0x8000_0000 - b as i64
    }
}

/// `a > b`.
pub fn float_gt(a: u32, b: u32) -> (r: bool)
    ensures
        r == gt(a, b),
{
    !float_is_nan(a) && !float_is_nan(b) && order_key(a) > order_key(b)
}

/// `a == b`.
pub fn float_eq(a: u32, b: u32) -> (r: bool)
    ensures
        r == eq(a, b),
{
    !float_is_nan(a) && !float_is_nan(b) && order_key(a) == order_key(b)
}

/// Numbers are ordered totally: of any two patterns that are numbers, one is greater or they
/// are equal, and no two of these hold together.
pub proof fn numbers_are_ordered(a: u32, b: u32)
    requires
        !is_nan(a),
        !is_nan(b),
    ensures
        gt(a, b) || gt(b, a) || eq(a, b),
        !(gt(a, b) && gt(b, a)),
        !(gt(a, b) && eq(a, b)),
{
}

/// No number is below minus infinity or above plus infinity.
pub proof fn infinities_bound_all(b: u32)
    requires
        !is_nan(b),
    ensures
        key(NEG_INF) <= key(b) <= key(POS_INF),
{
}

} // verus!
