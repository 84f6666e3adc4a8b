//! Comparisons of `f32` values held as IEEE-754 bit patterns.
//!
//! A bit pattern with exponent bits all ones and a non-zero mantissa is a
//! NaN, which compares false with everything. Any other pattern orders by
//! its magnitude bits (the low 31), negated when the sign bit is set; both
//! zeros share the key 0, so `-0.0 < 0.0` is false as in IEEE-754.
use vstd::prelude::*;

verus! {

/// `f32::INFINITY` as bits.
pub const F32_INFINITY_BITS: u32 = 0x7f80_0000;

/// `f32::NEG_INFINITY` as bits.
pub const F32_NEG_INFINITY_BITS: u32 = 0xff80_0000;

/// Whether the bits are a NaN.
pub open spec fn f32_is_nan(b: u32) -> bool {
    b % 0x8000_0000 > 0x7f80_0000
}

/// Whether the bits are an infinity of either sign.
pub open spec fn f32_is_infinite(b: u32) -> bool {
    b % 0x8000_0000 == 0x7f80_0000
}

/// The numeric position of non-NaN bits: the magnitude, negated for a set
/// sign bit.
pub open spec fn f32_key(b: u32) -> int {
    if b >= 0x8000_0000 {
        0x8000_0000 - b
    } else {
        b as int
    }
}

/// `a < b` for `f32` values given as bits.
pub open spec fn f32_lt(a: u32, b: u32) -> bool {
    !f32_is_nan(a) && !f32_is_nan(b) && f32_key(a) < f32_key(b)
}

/// `a < b` for `f32` values given as bits.
pub fn f32_less(a: u32, b: u32) -> (r: bool)
    ensures
        r == f32_lt(a, b),
{
    let am = a % 0x8000_0000;
    let bm = b % 0x8000_0000;
    if am > 0x7f80_0000 || bm > 0x7f80_0000 {
        return false;
    }
    let a_neg = a >= 0x8000_0000;
    let b_neg = b >= 0x8000_0000;
    if a_neg && b_neg {
        bm < am
    } else if a_neg {
        !(am == 0 && bm == 0)
    } else if b_neg {
        false
    } else {
        am < bm
    }
}

/// `if a < b { a } else { b }` on bits: the smaller, or `b` when either is
/// a NaN.
pub open spec fn f32_min(a: u32, b: u32) -> u32 {
    if f32_lt(a, b) {
        a
    } else {
        b
    }
}

/// `if a > b { a } else { b }` on bits: the larger, or `b` when either is
/// a NaN.
pub open spec fn f32_max(a: u32, b: u32) -> u32 {
    if f32_lt(b, a) {
        a
    } else {
        b
    }
}

/// `f32::clamp(x, lo, hi)` on bits: `lo` when `x < lo`, then `hi` when the
/// value so far is above `hi`; a NaN comes back unchanged.
pub open spec fn f32_clamp(x: u32, lo: u32, hi: u32) -> u32 {
    let y = if f32_lt(x, lo) {
        lo
    } else {
        x
    };
    if f32_lt(hi, y) {
        hi
    } else {
        y
    }
}

/// `f32::clamp(x, lo, hi)` on bits, for bounds that are not NaN with
/// `lo <= hi` (the bounds `f32::clamp` accepts).
pub fn f32_clamp_bits(x: u32, lo: u32, hi: u32) -> (r: u32)
    requires
        !f32_is_nan(lo),
        !f32_is_nan(hi),
        !f32_lt(hi, lo),
    ensures
        r == f32_clamp(x, lo, hi),
{
    let mut y = x;
    if f32_less(x, lo) {
        y = lo;
    }
    if f32_less(hi, y) {
        y = hi;
    }
    y
}

} // verus!
