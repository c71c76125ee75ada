//! The output object model: resource names, content-stream operators, and
//! the auxiliary document objects the compiler produces.
//!
//! The compiler appends `PdfObject` values to a sink vector; turning them
//! into bytes is the surrounding code's concern.

use vstd::prelude::*;

use crate::geom::{Mat, Rect};
use crate::scene::{LineCap, LineJoin, Rgb};

verus! {

/// Resource categories a content stream can refer to by name.
#[derive(Clone, Copy, PartialEq, Eq, Structural, Debug)]
pub enum ResKind {
    Pattern,
    Shading,
    GraphicsState,
    XObject,
}

/// A symbolic resource name: a category plus the reference number the
/// name was minted for, which makes names globally distinct.
#[derive(Clone, Copy, PartialEq, Eq, Structural, Debug)]
pub struct ResName {
    pub kind: ResKind,
    pub index: u64,
}

/// One name-to-reference binding in a resource dictionary.
#[derive(Clone, Copy, PartialEq, Eq, Structural, Debug)]
pub struct ResEntry {
    pub name: ResName,
    pub target: u64,
}

/// A resource dictionary: the bindings a content stream's names resolve
/// through.
#[derive(Clone, Debug)]
pub struct ResourceDict {
    pub entries: Vec<ResEntry>,
}

/// One content-stream operator.
#[derive(Clone, Debug)]
pub enum Op {
    SaveState,
    RestoreState,
    ApplyTransform(Mat),
    SetFillColorSpaceSrgb,
    SetStrokeColorSpaceSrgb,
    SetFillColorSpacePattern,
    SetParameters(ResName),
    SetLineWidth(i64),
    SetMiterLimit(i64),
    SetLineCap(LineCap),
    SetLineJoin(LineJoin),
    SetDashPattern(Vec<i64>, i64),
    SetStrokeColor(Rgb),
    SetFillColor(Rgb),
    SetFillPattern(ResName),
    MoveTo(i64, i64),
    LineTo(i64, i64),
    CubicTo(i64, i64, i64, i64, i64, i64),
    ClosePath,
    FillNonZeroAndStroke,
    FillEvenOddAndStroke,
    FillNonZero,
    FillEvenOdd,
    StrokePath,
    EndPath,
    InvokeXObject(ResName),
    InvokeShading(ResName),
}

#[derive(Clone, Copy, PartialEq, Eq, Structural, Debug)]
pub enum ShadingKind {
    Axial,
    Radial,
}

#[derive(Clone, Copy, PartialEq, Eq, Structural, Debug)]
pub enum ColorSpace {
    Srgb,
    LuminosityGray,
}

/// The fields shared by a standalone shading and the shading inside a
/// shading pattern.
#[derive(Clone, Debug)]
pub struct ShadingData {
    pub kind: ShadingKind,
    pub color_space: ColorSpace,
    pub function: u64,
    pub coords: Vec<i64>,
    pub extend_start: bool,
    pub extend_end: bool,
}

/// An extended-graphics-state payload.
#[derive(Clone, Copy, PartialEq, Eq, Structural, Debug)]
pub enum GsData {
    SoftMaskLuminosity { group: u64 },
    Opacity { stroke: Option<i64>, fill: Option<i64> },
}

/// One auxiliary document object, carrying its own reference number.
#[derive(Clone, Debug)]
pub enum PdfObject {
    ExponentialFunction {
        id: u64,
        c0: Vec<i64>,
        c1: Vec<i64>,
        domain: Vec<i64>,
        range: Vec<i64>,
        n: i64,
    },
    StitchingFunction {
        id: u64,
        domain: Vec<i64>,
        range: Vec<i64>,
        functions: Vec<u64>,
        bounds: Vec<i64>,
        encode: Vec<i64>,
    },
    Shading { id: u64, data: ShadingData },
    ShadingPattern { id: u64, data: ShadingData, matrix: Mat },
    FormXObject {
        id: u64,
        content: Vec<Op>,
        resources: ResourceDict,
        bbox: Rect,
        luminosity_group: bool,
        compress: bool,
    },
    ExtGraphicsState { id: u64, state: GsData },
    TilingPattern {
        id: u64,
        content: Vec<Op>,
        resources: ResourceDict,
        bbox: Rect,
        x_step: i64,
        y_step: i64,
        matrix: Mat,
    },
}

} // verus!
