//! The ordering of IEEE-754 binary32 values, read off their bit patterns.

use vstd::prelude::*;

verus! {

/// The sign bit of a binary32 pattern.
pub const SIGN_BIT: u32 = 0x8000_0000;

/// The mask of the other 31 bits: exponent and fraction.
pub const LOW_BITS: u32 = 0x7fff_ffff;

/// The pattern of positive infinity: the largest value that is a number.
pub const INFINITY: u32 = 0x7f80_0000;

/// The pattern of negative infinity: the smallest value that is a number.
pub const NEG_INFINITY: u32 = 0xff80_0000;

/// The low 31 bits of a pattern (exponent and fraction), as a number.
pub open spec fn magnitude(b: u32) -> int {
    if b >= SIGN_BIT {
        b - SIGN_BIT
    } else {
        b as int
    }
}

/// A pattern is not a number when its exponent is all ones and its fraction
/// is not zero, that is when its magnitude lies above that of infinity.
pub open spec fn nan(b: u32) -> bool {
    magnitude(b) > INFINITY
}

/// An integer that orders the patterns as the values they stand for are
/// ordered: the magnitude, negated under a set sign bit. Both zeros have
/// key 0. The key of a pattern that is not a number has no meaning.
pub open spec fn key(b: u32) -> int {
    if b >= SIGN_BIT {
        -magnitude(b)
    } else {
        magnitude(b)
    }
}

/// The ordered comparison `a < b` of the two values: false as soon as one of
/// them is not a number.
pub open spec fn lt(a: u32, b: u32) -> bool {
    !nan(a) && !nan(b) && key(a) < key(b)
}

/// The comparison `a == b` of the two values: false as soon as one of them is
/// not a number, true of the two zeros.
pub open spec fn same_value(a: u32, b: u32) -> bool {
    !nan(a) && !nan(b) && key(a) == key(b)
}

/// Whether the pattern stands for a value that is not a number.
pub fn is_nan(b: u32) -> (r: bool)
    ensures
        r == nan(b),
{
    proof {
        magnitude_is_low_bits(b);
    }
    b & LOW_BITS > INFINITY
}

/// The ordering key of a pattern.
pub fn order_key(b: u32) -> (k: i64)
    ensures
        k == key(b),
{
    proof {
        magnitude_is_low_bits(b);
    }
    let low: u32 = b & LOW_BITS;
    if b >= SIGN_BIT {
        -(low as i64)
    } else {
        low as i64
    }
}

/// The ordered comparison `a < b`.
pub fn less_than(a: u32, b: u32) -> (r: bool)
    ensures
        r == lt(a, b),
{
    !is_nan(a) && !is_nan(b) && order_key(a) < order_key(b)
}

/// The ordered comparison `a > b`.
pub fn greater_than(a: u32, b: u32) -> (r: bool)
    ensures
        r == lt(b, a),
{
    less_than(b, a)
}

/// The magnitude is what is left of the pattern under the mask of its low 31
/// bits, and the sign bit is set exactly in the patterns from `SIGN_BIT` up.
pub proof fn magnitude_is_low_bits(b: u32)
    ensures
        magnitude(b) == (b & LOW_BITS),
        (b >= SIGN_BIT) == (b >> 31 == 1),
{
    assert(b >= 0x8000_0000u32 ==> (b & 0x7fff_ffff) == b - 0x8000_0000u32) by (bit_vector);
    assert(b < 0x8000_0000u32 ==> (b & 0x7fff_ffff) == b) by (bit_vector);
    assert((b >= 0x8000_0000u32) == (b >> 31 == 1)) by (bit_vector);
}

/// Two numbers with the same key are the same pattern, unless they are the
/// two zeros.
pub proof fn key_determines_bits(a: u32, b: u32)
    requires
        same_value(a, b),
    ensures
        a == b || (key(a) == 0 && magnitude(a) == 0 && magnitude(b) == 0),
{
}

} // verus!
