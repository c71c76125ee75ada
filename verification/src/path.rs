//! The path renderer: emits the content-stream operators for one path —
//! state save, local transform, color spaces, combined opacity state,
//! stroke style and paint, fill paint (dispatching to the gradient or
//! pattern compiler), the geometry, and the terminal painting operator —
//! and the tiling-pattern compiler it dispatches pattern fills to.

use vstd::prelude::*;

use crate::context::{ctx_wf, Context};
use crate::deferrer::{
    entries_below, lemma_extend_push, lemma_extend_refl, lemma_extend_trans, scope_has_index,
    scopes_extended_ge, scopes_view,
};
use crate::fixed::SCALE;
use crate::geom::{mat_concat_s, mat_wf, rect_wf, Mat, Rect};
use crate::group::create_x_object;
use crate::gradient::{
    create, gs_entry, has_low_opacity, icount_of, pattern_entry, shading_allocs,
    shading_pattern_output,
};
use crate::object::{GsData, Op, PdfObject, ResKind, ResName, ResourceDict, ShadingKind};
use crate::scene::{
    fill_wf, is_tiling, nodes_cost, nodes_have_pattern_stroke, paint_cost,
    path_has_pattern_stroke, path_wf, stroke_wf, Fill, FillRule, Paint, Path, PatternDef, Segment,
    Stroke,
};

verus! {

/// The loud failures of the renderer: combinations the target format does
/// not support and that must not be dropped silently.
#[derive(Clone, Copy, PartialEq, Eq, Structural, Debug)]
pub enum RenderError {
    /// A stroke painted with a tiling pattern.
    UnsupportedStrokePattern,
}

/// The content-stream operator a path segment maps to.
pub open spec fn op_of_segment(s: Segment) -> Op {
    match s {
        Segment::MoveTo(x, y) => Op::MoveTo(x, y),
        Segment::LineTo(x, y) => Op::LineTo(x, y),
        Segment::CubicTo(x1, y1, x2, y2, x, y) => Op::CubicTo(x1, y1, x2, y2, x, y),
        Segment::Close => Op::ClosePath,
    }
}

pub open spec fn segment_ops(s: Seq<Segment>) -> Seq<Op> {
    Seq::new(s.len(), |i: int| op_of_segment(s[i]))
}

/// The terminal painting operator, chosen by stroke presence and fill
/// rule: fill-and-stroke, fill only, stroke only, or the no-op end.
pub open spec fn finish_op_s(has_stroke: bool, rule: Option<FillRule>) -> Op {
    match rule {
        Some(FillRule::NonZero) => if has_stroke {
            Op::FillNonZeroAndStroke
        } else {
            Op::FillNonZero
        },
        Some(FillRule::EvenOdd) => if has_stroke {
            Op::FillEvenOddAndStroke
        } else {
            Op::FillEvenOdd
        },
        None => if has_stroke {
            Op::StrokePath
        } else {
            Op::EndPath
        },
    }
}

pub open spec fn rule_of(fill: Option<Fill>) -> Option<FillRule> {
    match fill {
        Some(f) => Some(f.rule),
        None => None,
    }
}

/// How many operators the stroke style and paint take.
pub open spec fn stroke_ops_len(s: Stroke) -> nat {
    4 + (if s.dash_array is Some {
        1nat
    } else {
        0nat
    }) + (if s.paint is Solid {
        1nat
    } else {
        0nat
    })
}

/// The operators one stroke emits: width, miter limit, cap, join, the
/// dash pattern where one is set, and the stroke color for a solid paint.
/// A gradient stroke paint sets no color operator.
pub open spec fn stroke_ops_match(ops: Seq<Op>, s: Stroke) -> bool {
    &&& ops.len() == stroke_ops_len(s)
    &&& ops[0] == Op::SetLineWidth(s.width)
    &&& ops[1] == Op::SetMiterLimit(s.miter_limit)
    &&& ops[2] == Op::SetLineCap(s.line_cap)
    &&& ops[3] == Op::SetLineJoin(s.line_join)
    &&& (s.dash_array matches Some(d) ==> ops[4] matches Op::SetDashPattern(a, p) && a@ == d@ && p
        == s.dash_offset)
    &&& (s.paint matches Paint::Solid(c) ==> ops.last() == Op::SetStrokeColor(c))
}

/// How many operators the fill paint takes.
pub open spec fn fill_ops_len(f: Fill) -> nat {
    match f.paint {
        Paint::Solid(_) => 1,
        Paint::LinearGradient(g) => 2 + (if has_low_opacity(g.stops@) {
            1nat
        } else {
            0nat
        }),
        Paint::RadialGradient(g) => 2 + (if has_low_opacity(g.stops@) {
            1nat
        } else {
            0nat
        }),
        Paint::Tiling(_) => 2,
    }
}

/// The operators one fill emits, the paint compilers having minted their
/// names from `base` on: a solid color directly; a gradient through its
/// shading-pattern name, preceded by its soft-mask graphics state when one
/// was owed; a tiling pattern through its pattern name.
pub open spec fn fill_ops_match(ops: Seq<Op>, f: Fill, base: int) -> bool {
    &&& ops.len() == fill_ops_len(f)
    &&& (f.paint matches Paint::Solid(c) ==> ops == seq![Op::SetFillColor(c)])
    &&& (f.paint matches Paint::LinearGradient(g) ==> gradient_fill_ops(ops, g.stops@, base))
    &&& (f.paint matches Paint::RadialGradient(g) ==> gradient_fill_ops(ops, g.stops@, base))
    &&& (f.paint matches Paint::Tiling(_) ==> ops == seq![
        Op::SetFillColorSpacePattern,
        Op::SetFillPattern(ResName { kind: ResKind::Pattern, index: base as u64 }),
    ])
}

pub open spec fn gradient_fill_ops(ops: Seq<Op>, stops: Seq<crate::scene::GradientStop>, base: int) -> bool {
    &&& (has_low_opacity(stops) ==> ops[0] == Op::SetParameters(
        ResName {
            kind: ResKind::GraphicsState,
            index: (base + 3 + icount_of(stops)) as u64,
        },
    ))
    &&& ops[ops.len() - 2] == Op::SetFillColorSpacePattern
    &&& ops.last() == Op::SetFillPattern(ResName { kind: ResKind::Pattern, index: base as u64 })
}

/// Whether the path needs a combined stroke/fill opacity graphics state.
pub open spec fn needs_opacity_gs(p: Path) -> bool {
    ||| (p.stroke matches Some(s) && s.opacity != SCALE)
    ||| (p.fill matches Some(f) && f.opacity != SCALE)
}

pub open spec fn og_of(p: Path) -> nat {
    if needs_opacity_gs(p) {
        1
    } else {
        0
    }
}

pub open spec fn sl_of(p: Path) -> nat {
    match p.stroke {
        Some(s) => stroke_ops_len(s),
        None => 0,
    }
}

pub open spec fn fl_of(p: Path) -> nat {
    match p.fill {
        Some(f) => fill_ops_len(f),
        None => 0,
    }
}

/// Emit the geometry of a path: one operator per segment, mirroring the
/// segment sequence exactly in order.
pub fn draw_path(path_data: &Vec<Segment>, content: &mut Vec<Op>)
    ensures
        final(content)@ == old(content)@ + segment_ops(path_data@),
{
    let n = path_data.len();
    let mut i: usize = 0;
    while i < n
        invariant
            n == path_data@.len(),
            i <= n,
            content@ == old(content)@ + segment_ops(path_data@.subrange(0, i as int)),
        decreases n - i,
    {
        match path_data[i] {
            Segment::MoveTo(x, y) => content.push(Op::MoveTo(x, y)),
            Segment::LineTo(x, y) => content.push(Op::LineTo(x, y)),
            Segment::CubicTo(x1, y1, x2, y2, x, y) => content.push(
                Op::CubicTo(x1, y1, x2, y2, x, y),
            ),
            Segment::Close => content.push(Op::ClosePath),
        }
        proof {
            assert(content@ =~= old(content)@ + segment_ops(
                path_data@.subrange(0, (i + 1) as int),
            ));
        }
        i = i + 1;
    }
    proof {
        assert(path_data@.subrange(0, n as int) =~= path_data@);
        assert(segment_ops(path_data@.subrange(0, n as int)) =~= segment_ops(path_data@));
    }
}

/// Emit the terminal painting operator for the stroke/fill combination.
fn finish_path(stroke: Option<&Stroke>, fill: Option<&Fill>, content: &mut Vec<Op>)
    ensures
        final(content)@ == old(content)@.push(
            finish_op_s(
                stroke is Some,
                match fill {
                    Some(f) => Some(f.rule),
                    None => None,
                },
            ),
        ),
{
    match (stroke, fill) {
        (Some(_), Some(f)) => match f.rule {
            FillRule::NonZero => content.push(Op::FillNonZeroAndStroke),
            FillRule::EvenOdd => content.push(Op::FillEvenOddAndStroke),
        },
        (None, Some(f)) => match f.rule {
            FillRule::NonZero => content.push(Op::FillNonZero),
            FillRule::EvenOdd => content.push(Op::FillEvenOdd),
        },
        (Some(_), None) => content.push(Op::StrokePath),
        (None, None) => content.push(Op::EndPath),
    }
}

/// Emit the stroke style and stroke paint. A pattern stroke paint is
/// refused upstream; a gradient stroke paint sets no color.
fn set_stroke(stroke: &Stroke, content: &mut Vec<Op>)
    requires
        stroke_wf(*stroke),
        !is_tiling(stroke.paint),
    ensures
        final(content)@.len() == old(content)@.len() + stroke_ops_len(*stroke),
        final(content)@.subrange(0, old(content)@.len() as int) == old(content)@,
        stroke_ops_match(
            final(content)@.skip(old(content)@.len() as int),
            *stroke,
        ),
{
    content.push(Op::SetLineWidth(stroke.width));
    content.push(Op::SetMiterLimit(stroke.miter_limit));
    content.push(Op::SetLineCap(stroke.line_cap));
    content.push(Op::SetLineJoin(stroke.line_join));
    if let Some(d) = &stroke.dash_array {
        let arr = crate::gradient::copy_i64_vec(d);
        content.push(Op::SetDashPattern(arr, stroke.dash_offset));
    }
    match &stroke.paint {
        Paint::Solid(c) => {
            content.push(Op::SetStrokeColor(*c));
        },
        _ => {},
    }
    proof {
        assert(content@.subrange(0, old(content)@.len() as int) =~= old(content)@);
    }
}

/// The tiling-pattern object a pattern compilation leaves last in the
/// sink: its cell re-rendered through one form XObject, stepped by the
/// tile extent without overlap, placed by the parent transform composed
/// with the pattern's own.
pub open spec fn tiling_pattern_matches(o: PdfObject, n0: int, rect: Rect, matrix: Mat) -> bool {
    &&& o matches PdfObject::TilingPattern {
        id,
        content,
        resources,
        bbox,
        x_step,
        y_step,
        matrix: m,
    }
    &&& id == n0
    &&& content@ == seq![
        Op::InvokeXObject(ResName { kind: ResKind::XObject, index: (n0 + 1) as u64 }),
    ]
    &&& resources.entries@ == seq![crate::gradient::xobject_entry(n0 + 1)]
    &&& bbox == rect
    &&& x_step == rect.w
    &&& y_step == rect.h
    &&& m == matrix
}

/// Compile a tiling-pattern paint into a repeatable-cell object: a fresh
/// resource scope and an independent coordinate frame (reset to the
/// identity, pre-composed with the viewbox-fitting transform where the
/// pattern declares one) around a re-render of the pattern's content
/// group.
pub fn create_pattern(
    pattern: &PatternDef,
    writer: &mut Vec<PdfObject>,
    ctx: &mut Context,
) -> (r: Result<ResName, RenderError>)
    requires
        ctx_wf(*old(ctx)),
        crate::scene::group_wf(pattern.root),
        rect_wf(pattern.rect),
        mat_wf(pattern.transform),
        pattern.view_box_transform matches Some(m) ==> mat_wf(m),
        old(ctx).deferrer.next_ref + 8 + nodes_cost(pattern.root.children@) <= u64::MAX,
    ensures
        ctx_wf(*final(ctx)),
        crate::frame::frame_eq(final(ctx).frame, old(ctx).frame),
        final(ctx).canvas == old(ctx).canvas,
        final(ctx).compress == old(ctx).compress,
        old(ctx).deferrer.next_ref <= final(ctx).deferrer.next_ref <= old(ctx).deferrer.next_ref + 8 + nodes_cost(pattern.root.children@),
        scopes_extended_ge(
            scopes_view(old(ctx).deferrer),
            scopes_view(final(ctx).deferrer),
            old(ctx).deferrer.next_ref,
        ),
        final(writer)@.len() >= old(writer)@.len(),
        final(writer)@.subrange(0, old(writer)@.len() as int) == old(writer)@,
        scopes_view(final(ctx).deferrer) == scopes_view(old(ctx).deferrer).update(
            scopes_view(old(ctx).deferrer).len() - 1,
            scopes_view(old(ctx).deferrer).last().push(
                pattern_entry(old(ctx).deferrer.next_ref as int),
            ),
        ),
        r is Err <==> nodes_have_pattern_stroke(pattern.root.children@),
        r matches Ok(name) ==> name == (ResName {
            kind: ResKind::Pattern,
            index: old(ctx).deferrer.next_ref,
        }) && tiling_output(
            final(writer)@.skip(old(writer)@.len() as int),
            old(ctx).deferrer.next_ref as int,
            *pattern,
            old(ctx).frame.current,
            old(ctx).canvas,
            old(ctx).compress,
        ),
    decreases *pattern, 0int,
{
    let ghost on = old(ctx).deferrer.next_ref;
    let ghost ov = scopes_view(old(ctx).deferrer);
    let pattern_id = ctx.alloc_ref();
    proof {
        assert(entries_below(ov.last(), on));
        assert(!scope_has_index(scopes_view(ctx.deferrer).last(), pattern_id)) by {
            if scope_has_index(scopes_view(ctx.deferrer).last(), pattern_id) {
                let ii = choose|ii: int|
                    0 <= ii < scopes_view(ctx.deferrer).last().len() && (#[trigger] scopes_view(
                        ctx.deferrer,
                    ).last()[ii]).name.index == pattern_id;
                assert(scopes_view(ctx.deferrer).last()[ii].name.index < on);
            }
        }
    }
    let name = ctx.deferrer.add_pattern(pattern_id);
    let parent_transform = ctx.frame.transform().concat(&pattern.transform);
    ctx.deferrer.push();
    ctx.frame.push();
    let ident = Mat::identity();
    ctx.frame.set_transform(&ident);
    if let Some(vb) = &pattern.view_box_transform {
        ctx.frame.append_transform(vb);
    }
    let ghost cell_eff = ctx.frame.current;
    let xres = create_x_object(&pattern.root, &pattern.rect, writer, ctx);
    match xres {
        Err(e) => {
            let mut dump = ResourceDict { entries: Vec::new() };
            ctx.deferrer.pop(&mut dump);
            ctx.frame.pop();
            proof {
                assert(ctx.frame.saved@ == old(ctx).frame.saved@);
                assert(scopes_view(ctx.deferrer) =~= ov.update(
                    ov.len() - 1,
                    ov.last().push(pattern_entry(on as int)),
                ));
                lemma_extend_push(ov, pattern_entry(on as int), on);
            }
            Err(e)
        },
        Ok((x_name, _x_id)) => {
            let mut pattern_content: Vec<Op> = Vec::new();
            pattern_content.push(Op::InvokeXObject(x_name));
            let mut resources = ResourceDict { entries: Vec::new() };
            ctx.deferrer.pop(&mut resources);
            let bbox = pattern.rect;
            proof {
                assert(pattern_content@ =~= seq![
                    Op::InvokeXObject(
                        ResName { kind: ResKind::XObject, index: (on + 1) as u64 },
                    ),
                ]);
                assert(resources.entries@ =~= seq![
                    crate::gradient::xobject_entry(on as int + 1),
                ]);
                assert(scopes_view(ctx.deferrer) =~= ov.update(
                    ov.len() - 1,
                    ov.last().push(pattern_entry(on as int)),
                ));
                lemma_extend_push(ov, pattern_entry(on as int), on);
            }
            let ghost w_pre = writer@;
            writer.push(
                PdfObject::TilingPattern {
                    id: pattern_id,
                    content: pattern_content,
                    resources,
                    bbox,
                    x_step: bbox.w,
                    y_step: bbox.h,
                    matrix: parent_transform,
                },
            );
            ctx.frame.pop();
            proof {
                assert(ctx.frame.saved@ == old(ctx).frame.saved@);
                assert(writer@.subrange(0, old(writer)@.len() as int) =~= old(writer)@);
                let wd = writer@.skip(old(writer)@.len() as int);
                assert(wd.last() == writer@.last());
                assert(tiling_pattern_matches(
                    wd.last(),
                    on as int,
                    pattern.rect,
                    mat_concat_s(old(ctx).frame.current, pattern.transform),
                ));
                assert forall|m: int| 0 <= m < w_pre.len() implies writer@[m] == w_pre[m] by {}
                assert(wd[wd.len() - 2] == w_pre.last());
                assert(wd.subrange(0, wd.len() - 2) =~= w_pre.subrange(
                    old(writer)@.len() as int,
                    w_pre.len() - 1,
                ));
                assert(crate::group::pattern_cell_eff(*pattern) == cell_eff);
                assert(crate::group::group_rendered(
                    w_pre.last()->FormXObject_content@,
                    wd.subrange(0, wd.len() - 2),
                    pattern.root,
                    crate::group::pattern_cell_eff(*pattern),
                    pattern.rect,
                    old(ctx).canvas,
                    old(ctx).compress,
                ));
            }
            Ok(name)
        },
    }
}

/// The one fill that can fail: a tiling pattern whose content holds a
/// pattern-painted stroke.
pub open spec fn fill_errs(f: Fill) -> bool {
    f.paint matches Paint::Tiling(pd) && nodes_have_pattern_stroke(pd.root.children@)
}

/// Emit the fill paint: a solid color directly, a gradient through the
/// gradient compiler (installing its soft-mask graphics state first when
/// one was produced), a tiling pattern through the pattern compiler.
fn set_fill(
    fill: &Fill,
    parent_bbox: &Rect,
    writer: &mut Vec<PdfObject>,
    content: &mut Vec<Op>,
    ctx: &mut Context,
) -> (r: Result<(), RenderError>)
    requires
        ctx_wf(*old(ctx)),
        fill_wf(*fill),
        rect_wf(*parent_bbox),
        old(ctx).deferrer.next_ref + paint_cost(fill.paint) <= u64::MAX,
    ensures
        ctx_wf(*final(ctx)),
        crate::frame::frame_eq(final(ctx).frame, old(ctx).frame),
        final(ctx).canvas == old(ctx).canvas,
        final(ctx).compress == old(ctx).compress,
        old(ctx).deferrer.next_ref <= final(ctx).deferrer.next_ref <= old(ctx).deferrer.next_ref + paint_cost(fill.paint),
        scopes_extended_ge(
            scopes_view(old(ctx).deferrer),
            scopes_view(final(ctx).deferrer),
            old(ctx).deferrer.next_ref,
        ),
        final(writer)@.len() >= old(writer)@.len(),
        final(content)@.len() >= old(content)@.len(),
        final(writer)@.subrange(0, old(writer)@.len() as int) == old(writer)@,
        final(content)@.subrange(0, old(content)@.len() as int) == old(content)@,
        r is Err <==> fill_errs(*fill),
        fill.paint matches Paint::Solid(_) ==> final(writer)@ == old(writer)@
            && final(ctx).deferrer == old(ctx).deferrer,
        r is Ok ==> final(content)@.len() == old(content)@.len() + fill_ops_len(*fill) && final(content)@.subrange(0, old(content)@.len() as int) == old(content)@ && fill_ops_match(
            final(content)@.skip(old(content)@.len() as int),
            *fill,
            old(ctx).deferrer.next_ref as int,
        ),
        fill.paint matches Paint::LinearGradient(g) ==> shading_pattern_output(
            final(writer)@.skip(old(writer)@.len() as int),
            old(ctx).deferrer.next_ref as int,
            ShadingKind::Axial,
            seq![g.x1, g.y1, g.x2, g.y2],
            g.stops@,
            g.transform,
            g.units,
            old(ctx).frame.current,
            *parent_bbox,
            old(ctx).canvas,
            old(ctx).compress,
            (ResName { kind: ResKind::Pattern, index: old(ctx).deferrer.next_ref }),
            crate::gradient::mask_name_opt(g.stops@, old(ctx).deferrer.next_ref as int),
        ),
        fill.paint matches Paint::RadialGradient(g) ==> shading_pattern_output(
            final(writer)@.skip(old(writer)@.len() as int),
            old(ctx).deferrer.next_ref as int,
            ShadingKind::Radial,
            seq![g.fx, g.fy, 0i64, g.cx, g.cy, g.r],
            g.stops@,
            g.transform,
            g.units,
            old(ctx).frame.current,
            *parent_bbox,
            old(ctx).canvas,
            old(ctx).compress,
            (ResName { kind: ResKind::Pattern, index: old(ctx).deferrer.next_ref }),
            crate::gradient::mask_name_opt(g.stops@, old(ctx).deferrer.next_ref as int),
        ),
        fill.paint matches Paint::Tiling(pd) ==> (r is Ok ==> tiling_output(
            final(writer)@.skip(old(writer)@.len() as int),
            old(ctx).deferrer.next_ref as int,
            pd,
            old(ctx).frame.current,
            old(ctx).canvas,
            old(ctx).compress,
        )),
    decreases *fill, 0int,
{
    let ghost on = old(ctx).deferrer.next_ref;
    let ghost ov = scopes_view(old(ctx).deferrer);
    match &fill.paint {
        Paint::Solid(c) => {
            content.push(Op::SetFillColor(*c));
            proof {
                lemma_extend_refl(ov, on);
                assert(content@.subrange(0, old(content)@.len() as int) =~= old(content)@);
                assert(content@.skip(old(content)@.len() as int) =~= seq![
                    Op::SetFillColor(*c),
                ]);
                assert(writer@.subrange(0, writer@.len() as int) =~= writer@);
            }
            Ok(())
        },
        Paint::Tiling(pd) => {
            match create_pattern(pd, writer, ctx) {
                Err(e) => {
                    proof {
                        assert(content@.subrange(0, content@.len() as int) =~= content@);
                    }
                    Err(e)
                },
                Ok(pname) => {
                    content.push(Op::SetFillColorSpacePattern);
                    content.push(Op::SetFillPattern(pname));
                    proof {
                        assert(content@.subrange(0, old(content)@.len() as int) =~= old(content)@);
                        assert(content@.skip(old(content)@.len() as int) =~= seq![
                            Op::SetFillColorSpacePattern,
                            Op::SetFillPattern(
                                ResName { kind: ResKind::Pattern, index: on },
                            ),
                        ]);
                    }
                    Ok(())
                },
            }
        },
        _ => {
            let acc = ctx.frame.transform();
            let res = create(&fill.paint, parent_bbox, writer, ctx, &acc);
            if let Some((pname, mask)) = res {
                if let Some(m) = &mask {
                    content.push(Op::SetParameters(*m));
                }
                content.push(Op::SetFillColorSpacePattern);
                content.push(Op::SetFillPattern(pname));
                proof {
                    assert(content@.subrange(0, old(content)@.len() as int) =~= old(content)@);
                    let ops = content@.skip(old(content)@.len() as int);
                    assert(ops.last() == Op::SetFillPattern(pname));
                    assert(ops[ops.len() - 2] == Op::SetFillColorSpacePattern);
                }
                Ok(())
            } else {
                proof {
                    assert(false);
                }
                Err(RenderError::UnsupportedStrokePattern)
            }
        },
    }
}

/// The stroke opacity a path records in its combined opacity state.
pub open spec fn stroke_opacity_of(p: Path) -> Option<i64> {
    match p.stroke {
        Some(s) => Some(s.opacity),
        None => None,
    }
}

/// The fill opacity a path records in its combined opacity state.
pub open spec fn fill_opacity_of(p: Path) -> Option<i64> {
    match p.fill {
        Some(f) => Some(f.opacity),
        None => None,
    }
}

/// Everything one whole pattern compilation appends to the sink: the
/// cell's own objects, then the form XObject whose content is the
/// re-rendered cell under the reset frame, then the tiling pattern.
pub open spec fn tiling_output(
    wd: Seq<PdfObject>,
    n0: int,
    pd: PatternDef,
    parent: Mat,
    canvas: Rect,
    compress: bool,
) -> bool
    decreases pd,
{
    &&& wd.len() >= 2
    &&& tiling_pattern_matches(wd.last(), n0, pd.rect, mat_concat_s(parent, pd.transform))
    &&& wd[wd.len() - 2] matches PdfObject::FormXObject { id, content, resources, .. } && id == (
    n0 + 1) as u64 && crate::group::group_rendered(
        content@,
        wd.subrange(0, wd.len() - 2),
        pd.root,
        crate::group::pattern_cell_eff(pd),
        pd.rect,
        canvas,
        compress,
    ) && crate::deferrer::entries_distinct(resources.entries@)
}

/// The objects one path's rendering owes the sink, its references minted
/// from `base` on and `eff` the effective transform outside the path: the
/// combined opacity graphics state where one is needed, then exactly the
/// fill paint's objects — none for a solid or absent fill, the complete
/// gradient output, or the complete tiling-pattern output.
pub open spec fn path_objects(
    wd: Seq<PdfObject>,
    p: Path,
    base: int,
    eff: Mat,
    bbox: Rect,
    canvas: Rect,
    compress: bool,
) -> bool
    decreases p,
{
    let og = og_of(p) as int;
    &&& (needs_opacity_gs(p) ==> wd.len() >= 1 && wd[0] == (PdfObject::ExtGraphicsState {
        id: base as u64,
        state: GsData::Opacity { stroke: stroke_opacity_of(p), fill: fill_opacity_of(p) },
    }))
    &&& match p.fill {
        None => wd.len() == og,
        Some(f) => match f.paint {
            Paint::Solid(_) => wd.len() == og,
            Paint::LinearGradient(g) => wd.len() == og + shading_allocs(g.stops@)
                && shading_pattern_output(
                wd.skip(og),
                base + og,
                ShadingKind::Axial,
                seq![g.x1, g.y1, g.x2, g.y2],
                g.stops@,
                g.transform,
                g.units,
                mat_concat_s(eff, p.transform),
                bbox,
                canvas,
                compress,
                (ResName { kind: ResKind::Pattern, index: (base + og) as u64 }),
                crate::gradient::mask_name_opt(g.stops@, base + og),
            ),
            Paint::RadialGradient(g) => wd.len() == og + shading_allocs(g.stops@)
                && shading_pattern_output(
                wd.skip(og),
                base + og,
                ShadingKind::Radial,
                seq![g.fx, g.fy, 0i64, g.cx, g.cy, g.r],
                g.stops@,
                g.transform,
                g.units,
                mat_concat_s(eff, p.transform),
                bbox,
                canvas,
                compress,
                (ResName { kind: ResKind::Pattern, index: (base + og) as u64 }),
                crate::gradient::mask_name_opt(g.stops@, base + og),
            ),
            Paint::Tiling(pd) => tiling_output(
                wd.skip(og),
                base + og,
                pd,
                mat_concat_s(eff, p.transform),
                canvas,
                compress,
            ),
        },
    }
}

/// Assembling a path's object-sink delta: the opacity graphics state the
/// path registered (when one is owed) followed by exactly the fill
/// paint's objects.
proof fn lemma_path_objects_assemble(
    ow: Seq<PdfObject>,
    w2: Seq<PdfObject>,
    wf: Seq<PdfObject>,
    p: Path,
    on: u64,
    n2: u64,
    eff: Mat,
    bbox: Rect,
    canvas: Rect,
    compress: bool,
)
    requires
        w2.len() == ow.len() + og_of(p),
        n2 == on + og_of(p),
        wf.len() >= w2.len(),
        wf.subrange(0, w2.len() as int) == w2,
        needs_opacity_gs(p) ==> w2 == ow.push(
            PdfObject::ExtGraphicsState {
                id: on,
                state: GsData::Opacity {
                    stroke: stroke_opacity_of(p),
                    fill: fill_opacity_of(p),
                },
            },
        ),
        p.fill is None ==> wf == w2,
        p.fill matches Some(f) ==> (f.paint matches Paint::Solid(_) ==> wf == w2),
        p.fill matches Some(f) ==> (f.paint matches Paint::LinearGradient(g)
            ==> shading_pattern_output(
            wf.skip(w2.len() as int),
            n2 as int,
            ShadingKind::Axial,
            seq![g.x1, g.y1, g.x2, g.y2],
            g.stops@,
            g.transform,
            g.units,
            mat_concat_s(eff, p.transform),
            bbox,
            canvas,
            compress,
            (ResName { kind: ResKind::Pattern, index: n2 }),
            crate::gradient::mask_name_opt(g.stops@, n2 as int),
        )),
        p.fill matches Some(f) ==> (f.paint matches Paint::RadialGradient(g)
            ==> shading_pattern_output(
            wf.skip(w2.len() as int),
            n2 as int,
            ShadingKind::Radial,
            seq![g.fx, g.fy, 0i64, g.cx, g.cy, g.r],
            g.stops@,
            g.transform,
            g.units,
            mat_concat_s(eff, p.transform),
            bbox,
            canvas,
            compress,
            (ResName { kind: ResKind::Pattern, index: n2 }),
            crate::gradient::mask_name_opt(g.stops@, n2 as int),
        )),
        p.fill matches Some(f) ==> (f.paint matches Paint::Tiling(pd) ==> tiling_output(
            wf.skip(w2.len() as int),
            n2 as int,
            pd,
            mat_concat_s(eff, p.transform),
            canvas,
            compress,
        )),
    ensures
        path_objects(wf.skip(ow.len() as int), p, on as int, eff, bbox, canvas, compress),
{
    let og = og_of(p) as int;
    let wd = wf.skip(ow.len() as int);
    if needs_opacity_gs(p) {
        assert(wd[0] == wf[ow.len() as int]);
        assert(wf[ow.len() as int] == wf.subrange(0, w2.len() as int)[ow.len() as int]);
    }
    assert(wd.skip(og) =~= wf.skip(w2.len() as int));
    assert((on as int + og) as u64 == n2);
    if p.fill is Some {
        let f = p.fill->0;
        match f.paint {
            Paint::Solid(_) => {
                assert(wd.len() == og);
            },
            Paint::LinearGradient(g) => {
                assert(wd.len() == og + shading_allocs(g.stops@));
            },
            Paint::RadialGradient(g) => {
                assert(wd.len() == og + shading_allocs(g.stops@));
            },
            Paint::Tiling(_) => {},
        }
    } else {
        assert(wd.len() == og);
    }
}

/// The operators one visible path emits, its resources minted from `n0`
/// on: save-state, the local transform, the sRGB color spaces, the
/// combined opacity graphics state where one is needed, the stroke style
/// and paint, the fill paint, the geometry mirroring the segment sequence
/// exactly, the terminal painting operator, and restore-state.
pub open spec fn render_ops_match(delta: Seq<Op>, p: Path, n0: int) -> bool {
    let og = og_of(p) as int;
    let sl = sl_of(p) as int;
    let fl = fl_of(p) as int;
    let ns = p.segments@.len() as int;
    &&& delta.len() == 6 + og + sl + fl + ns
    &&& delta[0] == Op::SaveState
    &&& delta[1] == (Op::ApplyTransform(p.transform))
    &&& delta[2] == Op::SetFillColorSpaceSrgb
    &&& delta[3] == Op::SetStrokeColorSpaceSrgb
    &&& (needs_opacity_gs(p) ==> delta[4] == (Op::SetParameters(
        ResName { kind: ResKind::GraphicsState, index: n0 as u64 },
    )))
    &&& (p.stroke matches Some(s) ==> stroke_ops_match(delta.subrange(4 + og, 4 + og + sl), s))
    &&& (p.fill matches Some(f) ==> fill_ops_match(
        delta.subrange(4 + og + sl, 4 + og + sl + fl),
        f,
        n0 + og,
    ))
    &&& delta.subrange(4 + og + sl + fl, 4 + og + sl + fl + ns) == segment_ops(p.segments@)
    &&& delta[delta.len() - 2] == finish_op_s(p.stroke is Some, rule_of(p.fill))
    &&& delta.last() == Op::RestoreState
}

/// Render one path, or nothing for an invisible one. A stroke painted
/// with a tiling pattern fails loudly before anything is emitted.
#[verifier::rlimit(100)]
pub fn render(
    path: &Path,
    parent_bbox: &Rect,
    writer: &mut Vec<PdfObject>,
    content: &mut Vec<Op>,
    ctx: &mut Context,
) -> (r: Result<(), RenderError>)
    requires
        ctx_wf(*old(ctx)),
        path_wf(*path),
        rect_wf(*parent_bbox),
        old(ctx).deferrer.next_ref + 4 + crate::scene::path_cost(*path) <= u64::MAX,
    ensures
        ctx_wf(*final(ctx)),
        crate::frame::frame_eq(final(ctx).frame, old(ctx).frame),
        final(ctx).canvas == old(ctx).canvas,
        final(ctx).compress == old(ctx).compress,
        old(ctx).deferrer.next_ref <= final(ctx).deferrer.next_ref <= old(ctx).deferrer.next_ref + 4 + crate::scene::path_cost(*path),
        scopes_extended_ge(
            scopes_view(old(ctx).deferrer),
            scopes_view(final(ctx).deferrer),
            old(ctx).deferrer.next_ref,
        ),
        final(writer)@.len() >= old(writer)@.len(),
        final(content)@.len() >= old(content)@.len(),
        final(writer)@.subrange(0, old(writer)@.len() as int) == old(writer)@,
        final(content)@.subrange(0, old(content)@.len() as int) == old(content)@,
        r is Err <==> path_has_pattern_stroke(*path),
        !path.visible ==> final(content)@ == old(content)@ && final(writer)@ == old(writer)@
            && *final(ctx) == *old(ctx),
        (r is Ok && path.visible) ==> render_ops_match(
            final(content)@.skip(old(content)@.len() as int),
            *path,
            old(ctx).deferrer.next_ref as int,
        ),
        (r is Ok && path.visible) ==> path_objects(
            final(writer)@.skip(old(writer)@.len() as int),
            *path,
            old(ctx).deferrer.next_ref as int,
            old(ctx).frame.current,
            *parent_bbox,
            old(ctx).canvas,
            old(ctx).compress,
        ),
    decreases *path, 0int,
{
    let ghost on = old(ctx).deferrer.next_ref;
    let ghost ov = scopes_view(old(ctx).deferrer);
    let ghost l0 = old(content)@.len() as int;
    if !path.visible {
        proof {
            lemma_extend_refl(ov, on);
            assert(content@.subrange(0, l0) =~= old(content)@);
            assert(writer@.subrange(0, writer@.len() as int) =~= writer@);
        }
        return Ok(());
    }
    let mut bad = false;
    if let Some(s) = &path.stroke {
        if let Paint::Tiling(_) = &s.paint {
            bad = true;
        }
    }
    if bad {
        proof {
            lemma_extend_refl(ov, on);
            assert(content@.subrange(0, l0) =~= old(content)@);
            assert(writer@.subrange(0, writer@.len() as int) =~= writer@);
            assert(path_has_pattern_stroke(*path));
        }
        return Err(RenderError::UnsupportedStrokePattern);
    }
    ctx.frame.push();
    ctx.frame.append_transform(&path.transform);
    content.push(Op::SaveState);
    content.push(Op::ApplyTransform(path.transform));
    content.push(Op::SetFillColorSpaceSrgb);
    content.push(Op::SetStrokeColorSpaceSrgb);
    let ghost s4 = seq![
        Op::SaveState,
        Op::ApplyTransform(path.transform),
        Op::SetFillColorSpaceSrgb,
        Op::SetStrokeColorSpaceSrgb,
    ];
    proof {
        assert(content@ =~= old(content)@ + s4);
    }
    let ghost c1 = content@;
    let stroke_opacity: Option<i64> = match &path.stroke {
        Some(s) => Some(s.opacity),
        None => None,
    };
    let fill_opacity: Option<i64> = match &path.fill {
        Some(f) => Some(f.opacity),
        None => None,
    };
    let so_low = match stroke_opacity {
        Some(v) => v != SCALE,
        None => false,
    };
    let fo_low = match fill_opacity {
        Some(v) => v != SCALE,
        None => false,
    };
    proof {
        assert((so_low || fo_low) == needs_opacity_gs(*path));
    }
    if so_low || fo_low {
        let gs_ref = ctx.alloc_ref();
        writer.push(
            PdfObject::ExtGraphicsState {
                id: gs_ref,
                state: GsData::Opacity { stroke: stroke_opacity, fill: fill_opacity },
            },
        );
        proof {
            assert(entries_below(ov.last(), on));
            assert(!scope_has_index(scopes_view(ctx.deferrer).last(), gs_ref)) by {
                if scope_has_index(scopes_view(ctx.deferrer).last(), gs_ref) {
                    let ii = choose|ii: int|
                        0 <= ii < scopes_view(ctx.deferrer).last().len() && (
                        #[trigger] scopes_view(ctx.deferrer).last()[ii]).name.index == gs_ref;
                    assert(scopes_view(ctx.deferrer).last()[ii].name.index < on);
                }
            }
        }
        let gname = ctx.deferrer.add_graphics_state(gs_ref);
        content.push(Op::SetParameters(gname));
        proof {
            lemma_extend_push(ov, gs_entry(on as int), on);
            assert(scopes_view(ctx.deferrer) =~= ov.update(
                ov.len() - 1,
                ov.last().push(gs_entry(on as int)),
            ));
        }
    } else {
        proof {
            lemma_extend_refl(ov, on);
        }
    }
    let ghost c2 = content@;
    let ghost n2 = ctx.deferrer.next_ref;
    let ghost v2 = scopes_view(ctx.deferrer);
    let ghost w2 = writer@;
    match &path.stroke {
        Some(s) => {
            set_stroke(s, content);
            proof {
                assert forall|m: int| 0 <= m < c2.len() implies content@[m] == c2[m] by {
                    assert(content@.subrange(0, c2.len() as int)[m] == c2[m]);
                }
                assert(content@.len() == c2.len() + sl_of(*path));
                assert(stroke_ops_match(content@.skip(c2.len() as int), path.stroke->0));
            }
        },
        None => {
            proof {
                assert(sl_of(*path) == 0);
            }
        },
    }
    let ghost c3 = content@;
    if let Some(f) = &path.fill {
        let res = set_fill(f, parent_bbox, writer, content, ctx);
        if let Err(e) = res {
            ctx.frame.pop();
            proof {
                assert(ctx.frame.saved@ == old(ctx).frame.saved@);
                lemma_extend_trans(ov, v2, scopes_view(ctx.deferrer), on, n2);
                assert forall|m: int| 0 <= m < w2.len() implies writer@[m] == w2[m] by {
                    assert(writer@.subrange(0, w2.len() as int)[m] == w2[m]);
                }
                assert(writer@.subrange(0, old(writer)@.len() as int) =~= old(writer)@);
                assert forall|m: int| 0 <= m < c3.len() implies content@[m] == c3[m] by {
                    assert(content@.subrange(0, c3.len() as int)[m] == c3[m]);
                }
                assert forall|m: int| 0 <= m < l0 implies content@.subrange(0, l0)[m] == old(
                    content,
                )@[m] by {
                    assert(content@[m] == c3[m]);
                    if path.stroke is Some {
                        assert(c3.subrange(0, c2.len() as int)[m] == c2[m]);
                    }
                    assert(c3[m] == c2[m]);
                    assert(c2[m] == c1[m]);
                    assert(c1[m] == (old(content)@ + s4)[m]);
                }
                assert(content@.subrange(0, l0) =~= old(content)@);
                assert(path_has_pattern_stroke(*path));
            }
            return Err(e);
        }
        proof {
            lemma_extend_trans(ov, v2, scopes_view(ctx.deferrer), on, n2);
            assert forall|m: int| 0 <= m < c3.len() implies content@[m] == c3[m] by {
                assert(content@.subrange(0, c3.len() as int)[m] == c3[m]);
            }
            assert forall|m: int| 0 <= m < w2.len() implies writer@[m] == w2[m] by {
                assert(writer@.subrange(0, w2.len() as int)[m] == w2[m]);
            }
            assert(content@.len() == c3.len() + fl_of(*path));
            assert(fill_ops_match(content@.skip(c3.len() as int), path.fill->0, n2 as int));
        }
    } else {
        proof {
            assert(fl_of(*path) == 0);
        }
    }
    let ghost c4 = content@;
    draw_path(&path.segments, content);
    let sref: Option<&Stroke> = match &path.stroke {
        Some(s) => Some(s),
        None => None,
    };
    let fref: Option<&Fill> = match &path.fill {
        Some(f) => Some(f),
        None => None,
    };
    finish_path(sref, fref, content);
    content.push(Op::RestoreState);
    ctx.frame.pop();
    proof {
        assert(ctx.frame.saved@ == old(ctx).frame.saved@);
        assert(writer@.subrange(0, old(writer)@.len() as int) =~= old(writer)@);
        let og = og_of(*path) as int;
        let sl = sl_of(*path) as int;
        let fl = fl_of(*path) as int;
        let ns = path.segments@.len() as int;
        assert(c2.len() == l0 + 4 + og);
        assert(c3.len() == c2.len() + sl);
        assert(c4.len() == c3.len() + fl);
        let c5 = c4 + segment_ops(path.segments@);
        assert(content@ == c5.push(
            finish_op_s(path.stroke is Some, rule_of(path.fill)),
        ).push(Op::RestoreState));
        assert forall|m: int| 0 <= m < c4.len() implies content@[m] == c4[m] by {
            assert(c5[m] == c4[m]);
        }
        assert forall|m: int| 0 <= m < c2.len() implies content@[m] == c2[m] by {
            assert(content@[m] == c4[m]);
            if path.fill is Some {
                assert(c4.subrange(0, c3.len() as int)[m] == c3[m]);
            }
            assert(c4[m] == c3[m]);
            if path.stroke is Some {
                assert(c3.subrange(0, c2.len() as int)[m] == c2[m]);
            }
            assert(c3[m] == c2[m]);
        }
        assert forall|m: int| 0 <= m < l0 implies content@.subrange(0, l0)[m] == old(
            content,
        )@[m] by {
            assert(content@[m] == c2[m]);
            assert(c2[m] == c1[m]);
            assert(c1[m] == (old(content)@ + s4)[m]);
        }
        assert(content@.subrange(0, l0) =~= old(content)@);
        let delta = content@.skip(l0);
        assert forall|j: int| 0 <= j < 4 implies delta[j] == s4[j] by {
            assert(delta[j] == content@[l0 + j]);
            assert(content@[l0 + j] == c2[l0 + j]);
            assert(c2[l0 + j] == c1[l0 + j]);
            assert(c1[l0 + j] == (old(content)@ + s4)[l0 + j]);
        }
        assert(delta.len() == 6 + og + sl + fl + ns);
        assert(delta[0] == Op::SaveState);
        assert(delta[1] == (Op::ApplyTransform(path.transform)));
        assert(delta[2] == Op::SetFillColorSpaceSrgb);
        assert(delta[3] == Op::SetStrokeColorSpaceSrgb);
        if needs_opacity_gs(*path) {
            assert(delta[4] == content@[l0 + 4]);
            assert(content@[l0 + 4] == c2[l0 + 4]);
            assert(c2[c1.len() as int] == c2.last());
        }
        assert forall|m: int| 0 <= m < sl implies delta[4 + og + m] == c3.skip(
            c2.len() as int,
        )[m] by {
            assert(delta[4 + og + m] == content@[l0 + 4 + og + m]);
            assert(content@[l0 + 4 + og + m] == c4[l0 + 4 + og + m]);
            assert(c4.subrange(0, c3.len() as int)[l0 + 4 + og + m] == c3[l0 + 4 + og + m]);
        }
        if path.stroke is Some {
            assert(delta.subrange(4 + og, 4 + og + sl) =~= c3.skip(c2.len() as int));
        }
        assert forall|m: int| 0 <= m < fl implies delta[4 + og + sl + m] == c4.skip(
            c3.len() as int,
        )[m] by {
            assert(delta[4 + og + sl + m] == content@[l0 + 4 + og + sl + m]);
            assert(content@[l0 + 4 + og + sl + m] == c4[l0 + 4 + og + sl + m]);
        }
        if path.fill is Some {
            assert(delta.subrange(4 + og + sl, 4 + og + sl + fl) =~= c4.skip(c3.len() as int));
        }
        assert forall|m: int| 0 <= m < ns implies delta[4 + og + sl + fl + m] == segment_ops(
            path.segments@,
        )[m] by {
            assert(delta[4 + og + sl + fl + m] == content@[c4.len() + m]);
            assert(content@[c4.len() + m] == c5[c4.len() + m]);
            assert(c5[c4.len() + m] == segment_ops(path.segments@)[m]);
        }
        assert(delta.subrange(4 + og + sl + fl, 4 + og + sl + fl + ns) =~= segment_ops(
            path.segments@,
        ));
        assert(content@[c5.len() as int] == finish_op_s(path.stroke is Some, rule_of(path.fill)));
        assert(delta[delta.len() - 2] == content@[content@.len() - 2]);
        assert(delta.last() == content@.last());
        assert(!path_has_pattern_stroke(*path));
        // the object sink: the opacity state, then exactly the fill's objects
        assert(n2 == on + og);
        assert(w2.len() == old(writer)@.len() + og);
        assert forall|m: int| 0 <= m < w2.len() implies writer@[m] == w2[m] by {
            assert(writer@.subrange(0, w2.len() as int)[m] == w2[m]);
        }
        assert(writer@.subrange(0, w2.len() as int) =~= w2);
        lemma_path_objects_assemble(
            old(writer)@,
            w2,
            writer@,
            *path,
            on,
            n2,
            old(ctx).frame.current,
            *parent_bbox,
            old(ctx).canvas,
            old(ctx).compress,
        );
    }
    Ok(())
}

} // verus!
