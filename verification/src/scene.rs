//! The input scene graph: groups, paths, strokes, fills and paints, with
//! every coordinate, offset and opacity a fixed-point scalar.
//!
//! Gradient and pattern definitions are immutable values owned by the
//! paint that uses them; the renderer only reads the tree.

use vstd::prelude::*;

use crate::fixed::{fx_wf, SCALE};
use crate::geom::{mat_wf, rect_wf, Mat, Rect};

verus! {

/// A solid color with one byte per channel.
#[derive(Clone, Copy, PartialEq, Eq, Structural, Debug)]
pub struct Rgb {
    pub r: u8,
    pub g: u8,
    pub b: u8,
}

#[derive(Clone, Copy, PartialEq, Eq, Structural, Debug)]
pub enum FillRule {
    NonZero,
    EvenOdd,
}

#[derive(Clone, Copy, PartialEq, Eq, Structural, Debug)]
pub enum LineCap {
    Butt,
    Round,
    Square,
}

#[derive(Clone, Copy, PartialEq, Eq, Structural, Debug)]
pub enum LineJoin {
    Miter,
    Round,
    Bevel,
}

/// The coordinate system a gradient's geometry is given in.
#[derive(Clone, Copy, PartialEq, Eq, Structural, Debug)]
pub enum Units {
    UserSpace,
    ObjectBoundingBox,
}

/// One gradient stop: a normalized offset, a color, and a normalized
/// opacity, both in `[0, SCALE]`.
#[derive(Clone, Copy, PartialEq, Eq, Structural, Debug)]
pub struct GradientStop {
    pub offset: i64,
    pub color: Rgb,
    pub opacity: i64,
}

#[derive(Clone, Debug)]
pub struct LinearGradientDef {
    pub x1: i64,
    pub y1: i64,
    pub x2: i64,
    pub y2: i64,
    pub stops: Vec<GradientStop>,
    pub transform: Mat,
    pub units: Units,
}

#[derive(Clone, Debug)]
pub struct RadialGradientDef {
    pub fx: i64,
    pub fy: i64,
    pub cx: i64,
    pub cy: i64,
    pub r: i64,
    pub stops: Vec<GradientStop>,
    pub transform: Mat,
    pub units: Units,
}

/// A tiling-pattern definition: a group-rooted content subtree rendered
/// into a repeatable cell of extent `rect`.
pub struct PatternDef {
    pub root: Group,
    pub rect: Rect,
    /// Maps the pattern's intrinsic viewbox onto the tile rectangle,
    /// where the pattern declares one.
    pub view_box_transform: Option<Mat>,
    pub transform: Mat,
}

pub enum Paint {
    Solid(Rgb),
    LinearGradient(LinearGradientDef),
    RadialGradient(RadialGradientDef),
    Tiling(PatternDef),
}

pub struct Stroke {
    pub paint: Paint,
    pub width: i64,
    pub miter_limit: i64,
    pub line_cap: LineCap,
    pub line_join: LineJoin,
    pub dash_array: Option<Vec<i64>>,
    pub dash_offset: i64,
    pub opacity: i64,
}

pub struct Fill {
    pub paint: Paint,
    pub opacity: i64,
    pub rule: FillRule,
}

#[derive(Clone, Copy, PartialEq, Eq, Structural, Debug)]
pub enum Segment {
    MoveTo(i64, i64),
    LineTo(i64, i64),
    CubicTo(i64, i64, i64, i64, i64, i64),
    Close,
}

pub struct Path {
    pub transform: Mat,
    pub visible: bool,
    pub segments: Vec<Segment>,
    pub stroke: Option<Stroke>,
    pub fill: Option<Fill>,
}

pub struct Group {
    pub transform: Mat,
    pub children: Vec<Node>,
}

pub enum Node {
    Group(Group),
    Path(Path),
}

pub open spec fn stop_wf(s: GradientStop) -> bool {
    &&& 0 <= s.offset <= SCALE
    &&& 0 <= s.opacity <= SCALE
}

/// At least two stops, every stop well-formed, offsets non-decreasing.
pub open spec fn stops_wf(s: Seq<GradientStop>) -> bool {
    &&& s.len() >= 2
    &&& forall|i: int| 0 <= i < s.len() ==> stop_wf(#[trigger] s[i])
    &&& forall|i: int, j: int| 0 <= i <= j < s.len() ==> s[i].offset <= s[j].offset
}

pub open spec fn linear_gradient_wf(g: LinearGradientDef) -> bool {
    &&& stops_wf(g.stops@)
    &&& mat_wf(g.transform)
    &&& fx_wf(g.x1) && fx_wf(g.y1) && fx_wf(g.x2) && fx_wf(g.y2)
}

pub open spec fn radial_gradient_wf(g: RadialGradientDef) -> bool {
    &&& stops_wf(g.stops@)
    &&& mat_wf(g.transform)
    &&& fx_wf(g.fx) && fx_wf(g.fy) && fx_wf(g.cx) && fx_wf(g.cy) && fx_wf(g.r)
}

pub open spec fn paint_wf(p: Paint) -> bool
    decreases p,
{
    match p {
        Paint::Solid(_) => true,
        Paint::LinearGradient(g) => linear_gradient_wf(g),
        Paint::RadialGradient(g) => radial_gradient_wf(g),
        Paint::Tiling(pd) => {
            &&& group_wf(pd.root)
            &&& rect_wf(pd.rect)
            &&& mat_wf(pd.transform)
            &&& (pd.view_box_transform matches Some(m) ==> mat_wf(m))
        },
    }
}

pub open spec fn stroke_wf(s: Stroke) -> bool
    decreases s,
{
    &&& paint_wf(s.paint)
    &&& fx_wf(s.width) && fx_wf(s.miter_limit) && fx_wf(s.dash_offset)
    &&& 0 <= s.opacity <= SCALE
    &&& (s.dash_array matches Some(d) ==> forall|i: int| 0 <= i < d@.len() ==> fx_wf(#[trigger] d@[i]))
}

pub open spec fn fill_wf(f: Fill) -> bool
    decreases f,
{
    &&& paint_wf(f.paint)
    &&& 0 <= f.opacity <= SCALE
}

pub open spec fn path_wf(p: Path) -> bool
    decreases p,
{
    &&& mat_wf(p.transform)
    &&& (p.stroke matches Some(s) ==> stroke_wf(s))
    &&& (p.fill matches Some(f) ==> fill_wf(f))
}

pub open spec fn group_wf(g: Group) -> bool
    decreases g,
{
    &&& mat_wf(g.transform)
    &&& nodes_wf(g.children@)
}

pub open spec fn nodes_wf(s: Seq<Node>) -> bool
    decreases s,
{
    forall|j: int| 0 <= j < s.len() ==> node_wf(#[trigger] s[j])
}

pub open spec fn node_wf(n: Node) -> bool
    decreases n,
{
    match n {
        Node::Group(g) => group_wf(g),
        Node::Path(p) => path_wf(p),
    }
}

/// Whether a paint's stroke use would be the unsupported combination:
/// a stroke painted with a tiling pattern.
pub open spec fn is_tiling(p: Paint) -> bool {
    p matches Paint::Tiling(_)
}

/// A visible path whose stroke is painted with a tiling pattern occurs
/// somewhere in the subtree, including inside tiling-pattern content.
pub open spec fn node_has_pattern_stroke(n: Node) -> bool
    decreases n,
{
    match n {
        Node::Group(g) => nodes_have_pattern_stroke(g.children@),
        Node::Path(p) => path_has_pattern_stroke(p),
    }
}

pub open spec fn nodes_have_pattern_stroke(s: Seq<Node>) -> bool
    decreases s,
{
    exists|j: int| 0 <= j < s.len() && node_has_pattern_stroke(#[trigger] s[j])
}

pub open spec fn path_has_pattern_stroke(p: Path) -> bool
    decreases p,
{
    p.visible && ((p.stroke matches Some(s) && is_tiling(s.paint)) || (p.fill matches Some(f)
        && f.paint matches Paint::Tiling(pd) && nodes_have_pattern_stroke(pd.root.children@)))
}

/// Upper bound on the number of references the renderer may allocate for
/// one node, counted generously.
pub open spec fn node_cost(n: Node) -> nat
    decreases n,
{
    match n {
        Node::Group(g) => 4 + nodes_cost(g.children@),
        Node::Path(p) => 4 + path_cost(p),
    }
}

pub open spec fn nodes_cost(s: Seq<Node>) -> nat
    decreases s,
{
    if s.len() == 0 {
        0
    } else {
        node_cost(s[0]) + nodes_cost(s.drop_first())
    }
}

pub open spec fn path_cost(p: Path) -> nat
    decreases p,
{
    match p.fill {
        Some(f) => paint_cost(f.paint),
        None => 0,
    }
}

pub open spec fn paint_cost(p: Paint) -> nat
    decreases p,
{
    match p {
        Paint::Solid(_) => 0,
        Paint::LinearGradient(g) => 2 * g.stops@.len() + 16,
        Paint::RadialGradient(g) => 2 * g.stops@.len() + 16,
        Paint::Tiling(pd) => 8 + nodes_cost(pd.root.children@),
    }
}

/// The cost of a node list splits off its head at any index.
pub proof fn lemma_nodes_cost_skip(s: Seq<Node>, i: int)
    requires
        0 <= i < s.len(),
    ensures
        nodes_cost(s.skip(i)) == node_cost(s[i]) + nodes_cost(s.skip(i + 1)),
{
    let t = s.skip(i);
    assert(t[0] == s[i]);
    assert(t.drop_first() =~= s.skip(i + 1));
}

} // verus!
