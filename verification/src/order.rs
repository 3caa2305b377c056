//! A total order on the bit patterns of single-precision floats.
//!
//! The gamut bounds are extrema of chroma channels, which are floats. The
//! library never computes with floats; it carries their exact bit patterns
//! and compares them through the classic sign-magnitude key: flip all bits
//! of a negative pattern, set the sign bit of a non-negative one. On the
//! resulting keys, unsigned integer order coincides with the numeric order
//! of the encoded values (the IEEE-754 total order, as `f32::total_cmp`
//! uses), with the negative zero pattern ordered just below positive zero.

use vstd::prelude::*;

verus! {

/// The order key of a float bit pattern: unsigned comparison of keys is
/// the total order on the encoded values.
pub open spec fn spec_sort_key(bits: u32) -> u32 {
    if bits & 0x8000_0000 != 0 {
        !bits
    } else {
        bits | 0x8000_0000
    }
}

/// `x` sorts at or below `y` in the total order on encoded values.
pub open spec fn key_le(x: u32, y: u32) -> bool {
    spec_sort_key(x) <= spec_sort_key(y)
}

/// Both patterns encode a zero (the sign may differ). Apart from the two
/// zeros, distinct patterns encode distinct values, so this is the one
/// case where numeric equality is wider than bit equality.
pub open spec fn both_zero(x: u32, y: u32) -> bool {
    x & 0x7fff_ffff == 0 && y & 0x7fff_ffff == 0
}

/// Computes the order key of a float bit pattern.
pub fn sort_key(bits: u32) -> (key: u32)
    ensures
        key == spec_sort_key(bits),
{
    if bits & 0x8000_0000 != 0 {
        !bits
    } else {
        bits | 0x8000_0000
    }
}

/// The smaller of two float bit patterns in the total order.
pub fn min_bits(x: u32, y: u32) -> (m: u32)
    ensures
        key_le(m, x),
        key_le(m, y),
        m == x || m == y,
{
    if sort_key(x) <= sort_key(y) {
        x
    } else {
        y
    }
}

/// The larger of two float bit patterns in the total order.
pub fn max_bits(x: u32, y: u32) -> (m: u32)
    ensures
        key_le(x, m),
        key_le(y, m),
        m == x || m == y,
{
    if sort_key(x) <= sort_key(y) {
        y
    } else {
        x
    }
}

/// Two float bit patterns encode the same numeric value: they are equal,
/// or they are the two zeros.
pub open spec fn same_float_value(x: u32, y: u32) -> bool {
    x == y || both_zero(x, y)
}

/// Tests whether two float bit patterns encode the same numeric value.
pub fn same_value(x: u32, y: u32) -> (r: bool)
    ensures
        r == same_float_value(x, y),
{
    x == y || (x & 0x7fff_ffff == 0 && y & 0x7fff_ffff == 0)
}

} // verus!
