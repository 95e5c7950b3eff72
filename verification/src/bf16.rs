//! The bfloat16 format: a 16-bit value whose pattern is the upper half of
//! the single-precision pattern of the same number.

use vstd::prelude::*;
use crate::float_bits::{f32_is_nan, f32_magnitude, f32_is_negative, f32_order_key};

verus! {

/// A bfloat16 value held as its raw bit pattern (bit 15 sign, bits 7..15
/// exponent, bits 0..7 mantissa). Equality is equality of the patterns.
#[derive(Clone, Copy, Debug, PartialEq, Eq, Structural)]
pub struct Bf16 {
    pub bits: u16,
}

/// The pattern encodes a NaN.
pub open spec fn bf16_is_nan(b: u16) -> bool {
    b % 0x8000 > 0x7f80
}

/// The pattern with the quiet bit (the top mantissa bit) set when it is a
/// NaN, and unchanged otherwise.
pub open spec fn bf16_quieted(b: u16) -> u16 {
    if bf16_is_nan(b) {
        b | 0x0040
    } else {
        b
    }
}

/// Widening to single precision: the (quieted) pattern becomes the upper
/// half of the `f32` pattern, the lower half is zero. No value changes.
pub open spec fn bf16_widened(b: u16) -> u32 {
    (bf16_quieted(b) as int * 0x10000) as u32
}

/// The mantissa bits that narrowing drops are more than half a bf16 step,
/// or exactly half a step above an odd pattern: round to nearest, ties to
/// even.
pub open spec fn rounds_up(x: u32) -> bool {
    let lo = x % 0x10000;
    lo > 0x8000 || (lo == 0x8000 && (x / 0x10000) % 2 == 1)
}

/// Narrowing from single precision: a NaN keeps its sign and upper
/// mantissa bits and is made quiet; every other value is rounded to the
/// nearest bfloat16, ties to even (overflowing to infinity, underflowing
/// to zero).
pub open spec fn bf16_rounded(x: u32) -> u16 {
    if f32_is_nan(x) {
        ((x / 0x10000) as u16) | 0x0040
    } else if rounds_up(x) {
        (x / 0x10000 + 1) as u16
    } else {
        (x / 0x10000) as u16
    }
}

/// Bit pattern of bfloat16 negative infinity.
pub const BF16_NEG_INFINITY_BITS: u16 = 0xff80u16;

/// A key that orders every non-NaN bfloat16 pattern as its value: the
/// magnitude, negated for a set sign bit (`-0` and `+0` share the key 0).
pub open spec fn bf16_order_key(b: u16) -> int {
    if b >= 0x8000 {
        -((b % 0x8000) as int)
    } else {
        (b % 0x8000) as int
    }
}

impl Bf16 {
    /// Converts to single precision: the bit pattern of the `f32` with the
    /// same value (a NaN comes back quiet). This is the bit computation of
    /// `half::bf16::to_f32`.
    pub fn to_f32_bits(self) -> (r: u32)
        ensures
            r == bf16_widened(self.bits),
    {
        let b: u16 = self.bits;
        let wide: u32 = b as u32;
        assert((b & 0x7fff) == b % 0x8000) by (bit_vector);
        assert(((wide | 0x40) << 16) == ((b | 0x0040) as u32) * 0x10000) by (bit_vector)
            requires
                wide == b as u32,
        ;
        assert((wide << 16) == (b as u32) * 0x10000) by (bit_vector)
            requires
                wide == b as u32,
        ;
        if b & 0x7fff > 0x7f80 {
            (wide | 0x40) << 16
        } else {
            wide << 16
        }
    }

    /// Converts from single precision (given by its bit pattern), rounding
    /// to the nearest bfloat16 with ties to even; NaN stays NaN. This is the
    /// bit computation of `half::bf16::from_f32`.
    pub fn from_f32_bits(x: u32) -> (r: Bf16)
        ensures
            r.bits == bf16_rounded(x),
    {
        assert((x & 0x7fff_ffff) == x % 0x8000_0000) by (bit_vector);
        assert((x >> 16) == x / 0x10000) by (bit_vector);
        if x & 0x7fff_ffff > 0x7f80_0000 {
            return Bf16 { bits: ((x >> 16) | 0x0040) as u16 };
        }
        let round_bit: u32 = 0x8000;
        assert(((x & 0x8000) != 0 && (x & 0x17fff) != 0) == (x % 0x10000 > 0x8000 || (x
            % 0x10000 == 0x8000 && (x / 0x10000) % 2 == 1))) by (bit_vector);
        if (x & round_bit) != 0 && (x & (3 * round_bit - 1)) != 0 {
            assert(x / 0x10000 < 0xffff) by (bit_vector)
                requires
                    x % 0x8000_0000 <= 0x7f80_0000,
            ;
            Bf16 { bits: (x >> 16) as u16 + 1 }
        } else {
            Bf16 { bits: (x >> 16) as u16 }
        }
    }

    /// The largest value in `data`, ignoring NaNs, as folding with `max`
    /// from negative infinity computes it: negative infinity when `data`
    /// holds no number, otherwise one of its entries, never a NaN, and no
    /// smaller than any entry that is a number.
    pub fn max_value(data: &[Bf16]) -> (r: Bf16)
        ensures
            !bf16_is_nan(r.bits),
            forall|i: int|
                0 <= i < data.len() && !bf16_is_nan(#[trigger] data@[i].bits) ==> bf16_order_key(
                    data@[i].bits,
                ) <= bf16_order_key(r.bits),
            r.bits == BF16_NEG_INFINITY_BITS || exists|i: int| 0 <= i < data.len() && data@[i] == r,
    {
        let mut best: Bf16 = Bf16 { bits: BF16_NEG_INFINITY_BITS };
        let mut i: usize = 0;
        while i < data.len()
            invariant
                i <= data.len(),
                !bf16_is_nan(best.bits),
                forall|t: int|
                    0 <= t < i && !bf16_is_nan(#[trigger] data@[t].bits) ==> bf16_order_key(
                        data@[t].bits,
                    ) <= bf16_order_key(best.bits),
                best.bits == BF16_NEG_INFINITY_BITS || exists|t: int| 0 <= t < i && data@[t] == best,
            decreases data.len() - i,
        {
            let x = data[i];
            let mx: u16 = x.bits % 0x8000;
            if mx <= 0x7f80 {
                let mb: u16 = best.bits % 0x8000;
                let x_neg = x.bits >= 0x8000;
                let b_neg = best.bits >= 0x8000;
                let greater = if x_neg {
                    b_neg && mx < mb
                } else {
                    b_neg && !(mx == 0 && mb == 0) || !b_neg && mx > mb
                };
                if greater {
                    best = x;
                }
            }
            i = i + 1;
        }
        best
    }
}

/// Widening and then narrowing gives back the pattern, made quiet when it
/// is a NaN: every bfloat16 value survives the round trip through `f32`.
pub proof fn lemma_widen_then_round(b: u16)
    ensures
        bf16_rounded(bf16_widened(b)) == bf16_quieted(b),
{
    let q: u16 = bf16_quieted(b);
    assert(q % 0x8000 > 0x7f80 <==> b % 0x8000 > 0x7f80) by (bit_vector)
        requires
            q == (if b % 0x8000 > 0x7f80 { b | 0x0040 } else { b }),
    ;
    let w: u32 = ((q as u32) * 0x10000) as u32;
    assert(w / 0x10000 == q as u32 && w % 0x10000 == 0 && (w % 0x8000_0000 > 0x7f80_0000
        <==> q % 0x8000 > 0x7f80)) by (bit_vector)
        requires
            w == ((q as u32) * 0x10000) as u32, q < 0x10000,
    ;
    assert((b | 0x0040) | 0x0040 == b | 0x0040) by (bit_vector);
    assert(bf16_widened(b) == w);
    assert(!rounds_up(w));
}

/// Narrowing yields a NaN exactly for a NaN, and a NaN it yields is quiet.
proof fn lemma_rounded_nan(x: u32)
    ensures
        bf16_is_nan(bf16_rounded(x)) == f32_is_nan(x),
        bf16_quieted(bf16_rounded(x)) == bf16_rounded(x),
{
    let h: u16 = (x / 0x10000) as u16;
    let r: u16 = bf16_rounded(x);
    assert(h as u32 == x / 0x10000);
    assert(x & 0x7fff_ffff == x % 0x8000_0000 && x & 0xffff == x % 0x10000) by (bit_vector);
    assert(r & 0x7fff == r % 0x8000) by (bit_vector);
    if f32_is_nan(x) {
        assert(r == h | 0x0040);
        assert((h | 0x0040) & 0x7fff > 0x7f80 && (h | 0x0040) | 0x0040 == h | 0x0040)
            by (bit_vector)
            requires
                h as u32 == x / 0x10000,
                x & 0x7fff_ffff > 0x7f80_0000,
        ;
    } else if rounds_up(x) {
        assert(h < 0xffff && h & 0x7fff < 0x7f80) by (bit_vector)
            requires
                h as u32 == x / 0x10000,
                x & 0x7fff_ffff <= 0x7f80_0000,
                x & 0xffff >= 0x8000,
        ;
        assert(h & 0x7fff == h % 0x8000) by (bit_vector);
        assert(r == h + 1);
    } else {
        assert(h & 0x7fff <= 0x7f80) by (bit_vector)
            requires
                h as u32 == x / 0x10000,
                x & 0x7fff_ffff <= 0x7f80_0000,
        ;
    }
}

/// Narrowing is stable: a value narrowed once, widened and narrowed again
/// does not change.
pub proof fn lemma_rounding_is_stable(x: u32)
    ensures
        bf16_rounded(bf16_widened(bf16_rounded(x))) == bf16_rounded(x),
{
    lemma_widen_then_round(bf16_rounded(x));
    lemma_rounded_nan(x);
}

/// Narrowing rounds to nearest: the result is not a NaN, keeps the sign,
/// lies within half a bfloat16 step (0x8000 in the magnitude of the
/// pattern; between two neighbouring bfloat16 values the value grows
/// linearly with the pattern) of the input, is even at an exact tie, and
/// is exact when the input is representable.
pub proof fn lemma_rounding_is_nearest(x: u32)
    requires
        !f32_is_nan(x),
    ensures
        !bf16_is_nan(bf16_rounded(x)),
        f32_is_negative(bf16_widened(bf16_rounded(x))) == f32_is_negative(x),
        f32_magnitude(bf16_widened(bf16_rounded(x))) <= f32_magnitude(x) + 0x8000,
        f32_magnitude(x) <= f32_magnitude(bf16_widened(bf16_rounded(x))) + 0x8000,
        f32_magnitude(bf16_widened(bf16_rounded(x))) == f32_magnitude(x) + 0x8000
            || f32_magnitude(x) == f32_magnitude(bf16_widened(bf16_rounded(x))) + 0x8000
            ==> bf16_rounded(x) % 2 == 0,
        x % 0x10000 == 0 ==> bf16_widened(bf16_rounded(x)) == x,
{
    lemma_rounded_nan(x);
    let r: u16 = bf16_rounded(x);
    let w: u32 = bf16_widened(r);
    let hx: u32 = x / 0x10000;
    assert(x & 0x7fff_ffff == x % 0x8000_0000 && x & 0xffff == x % 0x10000 && hx == x >> 16)
        by (bit_vector)
        requires
            hx == x / 0x10000,
    ;
    assert(hx & 1 == hx % 2) by (bit_vector);
    if rounds_up(x) {
        let rr: u32 = (hx + 1) as u32;
        assert(r as u32 == rr);
        let ww: u32 = (rr * 0x10000) as u32;
        assert(w == ww);
        assert(rr < 0x10000 && (ww >= 0x8000_0000) == (x >= 0x8000_0000) && ww & 0x7fff_ffff
            <= (x & 0x7fff_ffff) + 0x8000 && x & 0x7fff_ffff <= (ww & 0x7fff_ffff) + 0x8000 && ((
        ww & 0x7fff_ffff) == (x & 0x7fff_ffff) + 0x8000 ==> rr & 1 == 0) && x & 0xffff != 0)
            by (bit_vector)
            requires
                hx == x >> 16,
                rr == hx + 1,
                ww == rr * 0x10000,
                x & 0x7fff_ffff <= 0x7f80_0000,
                x & 0xffff > 0x8000 || (x & 0xffff == 0x8000 && hx & 1 == 1),
        ;
        assert(ww & 0x7fff_ffff == ww % 0x8000_0000 && rr & 1 == rr % 2) by (bit_vector);
    } else {
        let rr: u32 = hx;
        assert(r as u32 == rr);
        let ww: u32 = (rr * 0x10000) as u32;
        assert(w == ww);
        assert((ww >= 0x8000_0000) == (x >= 0x8000_0000) && ww & 0x7fff_ffff <= (x
            & 0x7fff_ffff) && x & 0x7fff_ffff <= (ww & 0x7fff_ffff) + 0x8000 && ((x & 0x7fff_ffff)
            == (ww & 0x7fff_ffff) + 0x8000 ==> rr & 1 == 0) && (x & 0xffff == 0 ==> ww == x))
            by (bit_vector)
            requires
                hx == x >> 16,
                rr == hx,
                ww == rr * 0x10000,
                !(x & 0xffff > 0x8000 || (x & 0xffff == 0x8000 && hx & 1 == 1)),
        ;
        assert(ww & 0x7fff_ffff == ww % 0x8000_0000 && rr & 1 == rr % 2) by (bit_vector);
    }
}

/// The rounding condition in the bit operations the bit-vector prover reads.
proof fn lemma_rounds_up_bits(x: u32)
    ensures
        rounds_up(x) == (x & 0xffff > 0x8000 || (x & 0xffff == 0x8000 && (x >> 16) & 1 == 1)),
        x / 0x10000 == x >> 16,
        f32_magnitude(x) == (x & 0x7fff_ffff) as int,
{
    assert(x & 0xffff == x % 0x10000 && x / 0x10000 == x >> 16 && (x >> 16) & 1 == (x / 0x10000)
        % 2 && x & 0x7fff_ffff == x % 0x8000_0000) by (bit_vector);
}

/// For a non-NaN input, the narrowed pattern read back as `f32` is the upper
/// half of the input, plus one when the dropped half rounds up.
proof fn lemma_widened_rounded(x: u32)
    requires
        !f32_is_nan(x),
    ensures
        bf16_widened(bf16_rounded(x)) as int == (if rounds_up(x) {
            x / 0x10000 + 1
        } else {
            (x / 0x10000) as int
        }) * 0x10000,
{
    lemma_rounded_nan(x);
    lemma_rounds_up_bits(x);
    let hx: u32 = x >> 16;
    if rounds_up(x) {
        assert(hx < 0xffff) by (bit_vector)
            requires
                hx == x >> 16,
                x & 0x7fff_ffff <= 0x7f80_0000,
                x & 0xffff >= 0x8000,
        ;
    }
}

/// Rounding a non-negative pattern never reverses the order of two inputs.
proof fn lemma_rounding_monotonic_on_magnitudes(x: u32, y: u32)
    requires
        x <= y <= 0x7f80_0000,
    ensures
        bf16_widened(bf16_rounded(x)) <= bf16_widened(bf16_rounded(y)),
{
    lemma_widened_rounded(x);
    lemma_widened_rounded(y);
    lemma_rounds_up_bits(x);
    lemma_rounds_up_bits(y);
    let hx: u32 = x >> 16;
    let hy: u32 = y >> 16;
    assert(hx <= hy) by (bit_vector)
        requires
            hx == x >> 16,
            hy == y >> 16,
            x <= y,
    ;
    if rounds_up(x) && !rounds_up(y) {
        assert(hx < hy) by (bit_vector)
            requires
                hx == x >> 16,
                hy == y >> 16,
                x <= y,
                x & 0xffff > 0x8000 || (x & 0xffff == 0x8000 && hx & 1 == 1),
                !(y & 0xffff > 0x8000 || (y & 0xffff == 0x8000 && hy & 1 == 1)),
        ;
    }
}

/// Narrowing is monotonic: it never reverses the value order of two
/// non-NaN inputs.
pub proof fn lemma_rounding_is_monotonic(x: u32, y: u32)
    requires
        !f32_is_nan(x),
        !f32_is_nan(y),
        f32_order_key(x) <= f32_order_key(y),
    ensures
        f32_order_key(bf16_widened(bf16_rounded(x))) <= f32_order_key(bf16_widened(bf16_rounded(y))),
{
    let mx: u32 = x & 0x7fff_ffff;
    let my: u32 = y & 0x7fff_ffff;
    lemma_rounds_up_bits(x);
    lemma_rounds_up_bits(y);
    lemma_rounds_up_bits(mx);
    lemma_rounds_up_bits(my);
    lemma_rounding_is_nearest(x);
    lemma_rounding_is_nearest(y);
    lemma_widened_rounded(x);
    lemma_widened_rounded(y);
    lemma_widened_rounded(mx);
    lemma_widened_rounded(my);
    assert(mx & 0xffff == x & 0xffff && (mx >> 16) & 1 == (x >> 16) & 1 && mx >> 16 == (x >> 16)
        & 0x7fff && mx & 0x7fff_ffff == mx) by (bit_vector)
        requires
            mx == x & 0x7fff_ffff,
    ;
    assert(my & 0xffff == y & 0xffff && (my >> 16) & 1 == (y >> 16) & 1 && my >> 16 == (y >> 16)
        & 0x7fff && my & 0x7fff_ffff == my) by (bit_vector)
        requires
            my == y & 0x7fff_ffff,
    ;
    assert((x >> 16) & 0x7fff == (x >> 16) % 0x8000 && (y >> 16) & 0x7fff == (y >> 16) % 0x8000)
        by (bit_vector);
    // the rounded magnitude depends on the magnitude alone
    assert(f32_magnitude(bf16_widened(bf16_rounded(x))) == bf16_widened(bf16_rounded(mx)));
    assert(f32_magnitude(bf16_widened(bf16_rounded(y))) == bf16_widened(bf16_rounded(my)));
    if mx <= my {
        lemma_rounding_monotonic_on_magnitudes(mx, my);
    }
    if my <= mx {
        lemma_rounding_monotonic_on_magnitudes(my, mx);
    }
}

} // verus!
