//! Single-precision floats seen through their IEEE-754 bit patterns.
//!
//! A `u32` here is the bit pattern of an `f32` (`f32::to_bits`): bit 31 is
//! the sign, bits 23..31 the exponent, bits 0..23 the mantissa.

use vstd::prelude::*;

verus! {

/// Bit pattern of `f32::MAX`.
pub const F32_MAX_BITS: u32 = 0x7f7f_ffffu32;

/// The pattern encodes a NaN: all exponent bits set and a non-zero mantissa.
pub open spec fn f32_is_nan(x: u32) -> bool {
    x % 0x8000_0000 > 0x7f80_0000
}

/// The magnitude bits (the pattern without its sign bit).
pub open spec fn f32_magnitude(x: u32) -> int {
    (x % 0x8000_0000) as int
}

/// The sign bit is set.
pub open spec fn f32_is_negative(x: u32) -> bool {
    x >= 0x8000_0000
}

/// A key that orders every non-NaN pattern as IEEE-754 orders its value:
/// the magnitude, negated for a set sign bit (so `-0.0` and `+0.0` share
/// the key 0).
pub open spec fn f32_order_key(x: u32) -> int {
    if f32_is_negative(x) {
        -f32_magnitude(x)
    } else {
        f32_magnitude(x)
    }
}

/// IEEE-754 `<` on two patterns: false when either is NaN, else the value order.
pub open spec fn f32_lt(x: u32, y: u32) -> bool {
    !f32_is_nan(x) && !f32_is_nan(y) && f32_order_key(x) < f32_order_key(y)
}

/// IEEE-754 `<` on the values whose bit patterns are `x` and `y`, as `f32`'s
/// `<` computes it.
pub fn f32_less(x: u32, y: u32) -> (r: bool)
    ensures
        r == f32_lt(x, y),
{
    let mx: u32 = x % 0x8000_0000;
    let my: u32 = y % 0x8000_0000;
    if mx > 0x7f80_0000 || my > 0x7f80_0000 {
        return false;
    }
    let x_neg = x >= 0x8000_0000;
    let y_neg = y >= 0x8000_0000;
    if x_neg {
        if y_neg {
            my < mx
        } else {
            !(mx == 0 && my == 0)
        }
    } else {
        if y_neg {
            false
        } else {
            mx < my
        }
    }
}

} // verus!
