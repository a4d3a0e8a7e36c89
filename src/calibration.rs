//! Linear calibration of raw analog reads in exact integer arithmetic.
use vstd::prelude::*;

verus! {

/// A non-negative rational slope `num / den`.
#[derive(Clone, Copy, Debug, PartialEq, Eq, Structural, Hash)]
pub struct Scale {
    pub num: u32,
    pub den: u32,
}

/// The largest slope numerator: with it a scaled 16-bit read stays well
/// inside `i32`.
pub const MAX_SCALE_NUM: u32 = 32767;

impl Scale {
    pub open spec fn wf(self) -> bool {
        self.den > 0 && self.num <= MAX_SCALE_NUM
    }

    pub fn new(num: u32, den: u32) -> (r: Scale)
        ensures
            r == (Scale { num, den }),
    {
        Scale { num, den }
    }
}

/// `n / d` rounded to the nearest integer, halves upwards (`n >= 0`, `d > 0`).
pub open spec fn round_ratio(n: int, d: int) -> int {
    (2 * n + d) / (2 * d)
}

/// `v` saturated to the range of `i32`.
pub open spec fn clamp_i32(v: int) -> int {
    if v > i32::MAX {
        i32::MAX as int
    } else if v < i32::MIN {
        i32::MIN as int
    } else {
        v
    }
}

/// The calibrated value of a raw read: `round(m * read) + b`, saturated.
pub open spec fn linear(read: int, m: Scale, b: int) -> int {
    clamp_i32(round_ratio(m.num * read, m.den as int) + b)
}

/// Computes `linear(read, m, b)`.
pub fn linear_value(read: u16, m: Scale, b: i32) -> (r: i32)
    requires
        m.wf(),
    ensures
        r == linear(read as int, m, b as int),
{
    assert(m.num * read <= 32767 * 65535) by (nonlinear_arith)
        requires
            m.num <= 32767,
            read <= 65535,
    ;
    let n: u64 = m.num as u64 * read as u64;
    let d: u64 = m.den as u64;
    let q: u64 = (2 * n + d) / (2 * d);
    assert(q <= n + 1) by (nonlinear_arith)
        requires
            q == (2 * n + d) / (2 * d),
            d > 0,
    ;
    let v: i64 = q as i64 + b as i64;
    if v > i32::MAX as i64 {
        i32::MAX
    } else if v < i32::MIN as i64 {
        i32::MIN
    } else {
        v as i32
    }
}

/// `v` multiplied by `k`, saturated.
pub fn scaled_by(v: i32, k: i8) -> (r: i32)
    ensures
        r == clamp_i32(v * k),
{
    assert(-128 * 2147483648 <= v * k <= 128 * 2147483648) by (nonlinear_arith)
        requires
            -2147483648 <= v <= 2147483647,
            -128 <= k <= 127,
    ;
    let p: i64 = v as i64 * k as i64;
    if p > i32::MAX as i64 {
        i32::MAX
    } else if p < i32::MIN as i64 {
        i32::MIN
    } else {
        p as i32
    }
}

} // verus!
