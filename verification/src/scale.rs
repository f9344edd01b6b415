//! Thumbnail scale computation: the fit-to-box ratio from page dimensions to
//! a maximum thumbnail side, and the scaled integer thumbnail dimensions.
//!
//! The ratio `max_side / max(width, height)` is kept as an exact fraction, so
//! the scaled dimensions are the true mathematical floors of
//! `dimension * ratio`, with no rounding drift.

use vstd::prelude::*;
use vstd::arithmetic::div_mod::{lemma_fundamental_div_mod, lemma_div_multiples_vanish};
use vstd::arithmetic::mul::lemma_mul_upper_bound;

verus! {

/// A non-negative scale ratio `num / den`, kept exact. A zero ratio is
/// `num == 0`; the denominator is always positive, so the value is defined.
pub struct ScaleRatio {
    pub num: u32,
    pub den: u32,
}

impl ScaleRatio {
    /// Well-formedness: the denominator is positive.
    pub open spec fn wf(self) -> bool {
        self.den > 0
    }
}

/// The larger of the two page dimensions.
pub open spec fn spec_max_side(w: u32, h: u32) -> u32 {
    if w >= h { w } else { h }
}

/// One thumbnail dimension: `floor(d * ratio)`, saturated at `u32::MAX`.
pub open spec fn spec_scale_dim(d: u32, r: ScaleRatio) -> u32 {
    let q = (d as int * r.num as int) / (r.den as int);
    if q > u32::MAX { u32::MAX } else { q as u32 }
}

/// The uniform thumbnail scale ratio for a page of `w x h` and a maximum
/// thumbnail side `max_side`: `max_side / max(w, h)`, or zero when both
/// dimensions are zero.
pub fn scale_ratio(w: u32, h: u32, max_side: u32) -> (r: ScaleRatio)
    requires
        max_side > 0,
    ensures
        r.wf(),
        spec_max_side(w, h) > 0 ==> r.num == max_side && r.den == spec_max_side(w, h),
        spec_max_side(w, h) == 0 ==> r.num == 0,
{
    let side = if w >= h { w } else { h };
    if side == 0 {
        ScaleRatio { num: 0, den: 1 }
    } else {
        ScaleRatio { num: max_side, den: side }
    }
}

/// Both thumbnail dimensions: `floor(w * ratio)` and `floor(h * ratio)`,
/// each truncated independently, never rounded up.
pub fn scale_rect(w: u32, h: u32, r: &ScaleRatio) -> (out: (u32, u32))
    requires
        r.wf(),
    ensures
        out.0 == spec_scale_dim(w, *r),
        out.1 == spec_scale_dim(h, *r),
{
    (scale_dim(w, r), scale_dim(h, r))
}

fn scale_dim(d: u32, r: &ScaleRatio) -> (out: u32)
    requires
        r.wf(),
    ensures
        out == spec_scale_dim(d, *r),
{
    proof {
        lemma_mul_upper_bound(d as int, u32::MAX as int, r.num as int, u32::MAX as int);
    }
    let p: u64 = (d as u64) * (r.num as u64);
    let q: u64 = p / (r.den as u64);
    if q > u32::MAX as u64 {
        u32::MAX
    } else {
        q as u32
    }
}

/// Whether the computed thumbnail dimensions are a valid raster surface
/// allocation target: a zero-sized surface must be rejected as an error,
/// not silently turned into an empty output file.
pub fn surface_dims_valid(w: u32, h: u32) -> (b: bool)
    ensures
        b == (w > 0 && h > 0),
{
    w > 0 && h > 0
}

/// Scaling never rounds up: a scaled dimension times the denominator never
/// exceeds the exact product `d * num`, and a zero ratio scales every
/// dimension to zero.
pub proof fn lemma_scale_never_rounds_up(d: u32, r: ScaleRatio)
    requires
        r.wf(),
    ensures
        spec_scale_dim(d, r) * r.den <= d * r.num,
        r.num == 0 ==> spec_scale_dim(d, r) == 0,
{
    let p = (d * r.num) as int;
    let q = p / (r.den as int);
    lemma_fundamental_div_mod(p, r.den as int);
    assert(p == r.den * q + p % (r.den as int));
    lemma_mul_upper_bound(d as int, u32::MAX as int, r.num as int, u32::MAX as int);
    if q > u32::MAX {
        assert(spec_scale_dim(d, r) == u32::MAX);
        assert(u32::MAX * r.den <= q * r.den) by (nonlinear_arith)
            requires u32::MAX <= q, r.den >= 1;
    } else {
        assert(spec_scale_dim(d, r) * r.den == q * r.den);
    }
    assert(q * r.den <= p) by (nonlinear_arith)
        requires p == r.den * q + p % (r.den as int), p % (r.den as int) >= 0;
}

/// The larger page dimension scales exactly to the maximum thumbnail side:
/// with ratio `max_side / max(w, h)` the larger side lands on `max_side`,
/// with no truncation loss.
pub proof fn lemma_larger_side_hits_max(w: u32, h: u32, max_side: u32)
    requires
        max_side > 0,
        spec_max_side(w, h) > 0,
    ensures
        spec_scale_dim(
            spec_max_side(w, h),
            (ScaleRatio { num: max_side, den: spec_max_side(w, h) }),
        ) == max_side,
{
    let side = spec_max_side(w, h) as int;
    lemma_div_multiples_vanish(max_side as int, side);
    assert((side * max_side) / side == max_side);
    assert(side * max_side == spec_max_side(w, h) * max_side);
}

} // verus!
