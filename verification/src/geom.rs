//! Affine transforms and rectangles over fixed-point scalars.
//!
//! A `Mat` maps `(x, y)` to `(sx*x + kx*y + tx, ky*x + sy*y + ty)`.
//! Composition rescales every product by `SCALE` (truncating toward zero)
//! and saturates each entry at `FX_SAT`, so it is total on well-formed
//! matrices.

use vstd::prelude::*;

use crate::fixed::{clamp_s, fx_clamp, fx_mul, fx_mul_s, fx_wf, FX_SAT, SCALE};

verus! {

/// An affine transform in row-major order: `[sx kx tx; ky sy ty]`.
#[derive(Clone, Copy, PartialEq, Eq, Structural, Debug)]
pub struct Mat {
    pub sx: i64,
    pub ky: i64,
    pub kx: i64,
    pub sy: i64,
    pub tx: i64,
    pub ty: i64,
}

/// An axis-aligned rectangle with a strictly positive extent.
#[derive(Clone, Copy, PartialEq, Eq, Structural, Debug)]
pub struct Rect {
    pub x: i64,
    pub y: i64,
    pub w: i64,
    pub h: i64,
}

pub open spec fn mat_wf(m: Mat) -> bool {
    &&& fx_wf(m.sx)
    &&& fx_wf(m.ky)
    &&& fx_wf(m.kx)
    &&& fx_wf(m.sy)
    &&& fx_wf(m.tx)
    &&& fx_wf(m.ty)
}

pub open spec fn rect_wf(r: Rect) -> bool {
    &&& 0 < r.w <= FX_SAT
    &&& 0 < r.h <= FX_SAT
    &&& fx_wf(r.x)
    &&& fx_wf(r.y)
}

/// The identity transform.
pub open spec fn mat_identity_s() -> Mat {
    Mat { sx: SCALE, ky: 0, kx: 0, sy: SCALE, tx: 0, ty: 0 }
}

/// `a ∘ b`: the transform that applies `b` first and `a` second.
pub open spec fn mat_concat_s(a: Mat, b: Mat) -> Mat {
    Mat {
        sx: clamp_s(fx_mul_s(a.sx as int, b.sx as int) + fx_mul_s(a.kx as int, b.ky as int)) as i64,
        ky: clamp_s(fx_mul_s(a.ky as int, b.sx as int) + fx_mul_s(a.sy as int, b.ky as int)) as i64,
        kx: clamp_s(fx_mul_s(a.sx as int, b.kx as int) + fx_mul_s(a.kx as int, b.sy as int)) as i64,
        sy: clamp_s(fx_mul_s(a.ky as int, b.kx as int) + fx_mul_s(a.sy as int, b.sy as int)) as i64,
        tx: clamp_s(
            fx_mul_s(a.sx as int, b.tx as int) + fx_mul_s(a.kx as int, b.ty as int) + a.tx,
        ) as i64,
        ty: clamp_s(
            fx_mul_s(a.ky as int, b.tx as int) + fx_mul_s(a.sy as int, b.ty as int) + a.ty,
        ) as i64,
    }
}

/// The transform that maps the unit square onto `r`: scale by the extent,
/// then translate to the origin corner.
pub open spec fn mat_from_rect_s(r: Rect) -> Mat {
    Mat { sx: r.w, ky: 0, kx: 0, sy: r.h, tx: r.x, ty: r.y }
}

pub open spec fn mat_concat_wf_auto(a: Mat, b: Mat) -> bool {
    mat_wf(mat_concat_s(a, b))
}

impl Mat {
    pub fn identity() -> (r: Mat)
        ensures
            r == mat_identity_s(),
            mat_wf(r),
    {
        Mat { sx: SCALE, ky: 0, kx: 0, sy: SCALE, tx: 0, ty: 0 }
    }

    pub fn from_rect(r: &Rect) -> (m: Mat)
        requires
            rect_wf(*r),
        ensures
            m == mat_from_rect_s(*r),
            mat_wf(m),
    {
        Mat { sx: r.w, ky: 0, kx: 0, sy: r.h, tx: r.x, ty: r.y }
    }

    /// Compose `self ∘ other`: the result applies `other` first.
    pub fn concat(&self, other: &Mat) -> (r: Mat)
        requires
            mat_wf(*self),
            mat_wf(*other),
        ensures
            r == mat_concat_s(*self, *other),
            mat_wf(r),
    {
        Mat {
            sx: fx_clamp(fx_mul(self.sx, other.sx) + fx_mul(self.kx, other.ky)),
            ky: fx_clamp(fx_mul(self.ky, other.sx) + fx_mul(self.sy, other.ky)),
            kx: fx_clamp(fx_mul(self.sx, other.kx) + fx_mul(self.kx, other.sy)),
            sy: fx_clamp(fx_mul(self.ky, other.kx) + fx_mul(self.sy, other.sy)),
            tx: fx_clamp(fx_mul(self.sx, other.tx) + fx_mul(self.kx, other.ty) + self.tx),
            ty: fx_clamp(fx_mul(self.ky, other.tx) + fx_mul(self.sy, other.ty) + self.ty),
        }
    }
}

impl Rect {
    /// The corner-form coordinates `[x1, y1, x2, y2]` of the rectangle.
    pub fn corners(&self) -> (r: [i64; 4])
        requires
            rect_wf(*self),
        ensures
            r@ == seq![self.x, self.y, (self.x + self.w) as i64, (self.y + self.h) as i64],
    {
        [self.x, self.y, self.x + self.w, self.y + self.h]
    }
}

} // verus!
