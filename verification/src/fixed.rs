//! Fixed-point scalars: an `i64` counts `SCALE` units to one.
//!
//! Products are rescaled with truncation toward zero and saturate at
//! `FX_SAT`, so multiplication is total on well-formed operands.

use vstd::prelude::*;

verus! {

/// Number of fixed-point units in 1.0.
pub const SCALE: i64 = 1_000_000;

/// Largest magnitude a well-formed fixed-point scalar may have.
pub const FX_SAT: i64 = 2_000_000_000_000;

/// A scalar is well-formed when its magnitude stays within `FX_SAT`.
pub open spec fn fx_wf(v: i64) -> bool {
    -FX_SAT <= v <= FX_SAT
}

pub open spec fn abs_s(v: int) -> int {
    if v < 0 {
        -v
    } else {
        v
    }
}

/// Saturate a value into the well-formed range.
pub open spec fn clamp_s(v: int) -> int {
    if v > FX_SAT {
        FX_SAT as int
    } else if v < -FX_SAT {
        -FX_SAT as int
    } else {
        v
    }
}

/// Fixed-point product: magnitudes multiply, the result is rescaled by
/// `SCALE` with truncation toward zero.
pub open spec fn fx_mul_s(a: int, b: int) -> int {
    let p = abs_s(a) * abs_s(b) / (SCALE as int);
    if (a < 0) != (b < 0) {
        -p
    } else {
        p
    }
}

pub fn fx_clamp(v: i64) -> (r: i64)
    ensures
        r == clamp_s(v as int),
        fx_wf(r),
{
    if v > FX_SAT {
        FX_SAT
    } else if v < -FX_SAT {
        -FX_SAT
    } else {
        v
    }
}

pub fn fx_mul(a: i64, b: i64) -> (r: i64)
    requires
        fx_wf(a),
        fx_wf(b),
    ensures
        r == fx_mul_s(a as int, b as int),
        -4_000_000_000_000_000_000 <= r <= 4_000_000_000_000_000_000,
{
    let aa: u64 = if a < 0 {
        (-a) as u64
    } else {
        a as u64
    };
    let bb: u64 = if b < 0 {
        (-b) as u64
    } else {
        b as u64
    };
    assert((aa as u128) * (bb as u128) <= 4_000_000_000_000_000_000_000_000u128) by (nonlinear_arith)
        requires
            aa <= 2_000_000_000_000u64,
            bb <= 2_000_000_000_000u64,
    ;
    let p: u128 = (aa as u128) * (bb as u128) / 1_000_000;
    assert(p <= 4_000_000_000_000_000_000u128) by (nonlinear_arith)
        requires
            p == (aa as u128) * (bb as u128) / 1_000_000,
            (aa as u128) * (bb as u128) <= 4_000_000_000_000_000_000_000_000u128,
    ;
    let pi: i64 = p as i64;
    assert(pi == abs_s(a as int) * abs_s(b as int) / (SCALE as int));
    if (a < 0) != (b < 0) {
        -pi
    } else {
        pi
    }
}

} // verus!
