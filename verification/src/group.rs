//! The node renderer: walks a scene-graph node recursively, accumulating
//! transforms through the frame stack exactly as deep as the recursion and
//! restoring them symmetrically, so siblings never observe each other's
//! state; and the form-XObject builder the pattern compiler re-renders a
//! sub-scene through.

use vstd::prelude::*;

use crate::context::{ctx_wf, Context};
use crate::deferrer::{
    entries_below, lemma_extend_push, lemma_extend_refl, lemma_extend_trans, scope_has_index,
    scopes_extended_ge, scopes_view,
};
use crate::frame::frame_eq;
use crate::geom::{rect_wf, Rect};
use crate::gradient::xobject_entry;
use crate::object::{Op, PdfObject, ResEntry, ResKind, ResName, ResourceDict};
use crate::path::{render, RenderError};
use crate::scene::{
    group_wf, lemma_nodes_cost_skip, node_cost, node_has_pattern_stroke, node_wf, nodes_cost,
    nodes_have_pattern_stroke, Group, Node,
};

verus! {

/// The effective transform a pattern cell is rendered under: the frame
/// reset to the identity, pre-composed with the viewbox-fitting transform
/// where the pattern declares one.
pub open spec fn pattern_cell_eff(pd: crate::scene::PatternDef) -> crate::geom::Mat {
    match pd.view_box_transform {
        Some(vb) => crate::geom::mat_concat_s(crate::geom::mat_identity_s(), vb),
        None => crate::geom::mat_identity_s(),
    }
}

/// One node's rendering: the operator delta and object delta it owes,
/// its references minted from `base` on, under the effective transform
/// `eff`. An invisible path owes nothing.
pub open spec fn node_rendered(
    cd: Seq<Op>,
    wd: Seq<PdfObject>,
    n: Node,
    base: int,
    eff: crate::geom::Mat,
    bbox: Rect,
    canvas: Rect,
    compress: bool,
) -> bool
    decreases n, 2int,
{
    match n {
        Node::Group(g) => group_rendered(cd, wd, g, eff, bbox, canvas, compress),
        Node::Path(p) => if p.visible {
            crate::path::render_ops_match(cd, p, base) && crate::path::path_objects(
                wd,
                p,
                base,
                eff,
                bbox,
                canvas,
                compress,
            )
        } else {
            cd.len() == 0 && wd.len() == 0
        },
    }
}

/// One group's rendering: save-state, the local transform, every child's
/// rendering in document order, restore-state; the children rendered
/// under the composed effective transform.
pub open spec fn group_rendered(
    cd: Seq<Op>,
    wd: Seq<PdfObject>,
    g: Group,
    eff: crate::geom::Mat,
    bbox: Rect,
    canvas: Rect,
    compress: bool,
) -> bool
    decreases g, 2int,
{
    &&& cd.len() >= 3
    &&& cd[0] == Op::SaveState
    &&& cd[1] == (Op::ApplyTransform(g.transform))
    &&& cd.last() == Op::RestoreState
    &&& nodes_rendered(
        cd.subrange(2, cd.len() - 1),
        wd,
        g.children@,
        crate::geom::mat_concat_s(eff, g.transform),
        bbox,
        canvas,
        compress,
    )
}

/// A node list's rendering: the deltas split into one consecutive piece
/// per node, in document order, each piece a rendering of its node from
/// some reference base.
pub open spec fn nodes_rendered(
    cd: Seq<Op>,
    wd: Seq<PdfObject>,
    s: Seq<Node>,
    eff: crate::geom::Mat,
    bbox: Rect,
    canvas: Rect,
    compress: bool,
) -> bool
    decreases s, 1int,
{
    exists|splits: Seq<(int, int, int)>|
        #![trigger splits.len()]
        nodes_rendered_with(cd, wd, s, splits, eff, bbox, canvas, compress)
}

/// The split-list form of a node list's rendering: `splits` gives, per
/// node, the lengths of its operator and object pieces and its reference
/// base.
pub open spec fn nodes_rendered_with(
    cd: Seq<Op>,
    wd: Seq<PdfObject>,
    s: Seq<Node>,
    splits: Seq<(int, int, int)>,
    eff: crate::geom::Mat,
    bbox: Rect,
    canvas: Rect,
    compress: bool,
) -> bool
    decreases s, 0int,
{
    if s.len() == 0 {
        cd.len() == 0 && wd.len() == 0 && splits.len() == 0
    } else {
        &&& splits.len() == s.len()
        &&& 0 <= splits[0].0 <= cd.len()
        &&& 0 <= splits[0].1 <= wd.len()
        &&& node_rendered(
            cd.subrange(0, splits[0].0),
            wd.subrange(0, splits[0].1),
            s[0],
            splits[0].2,
            eff,
            bbox,
            canvas,
            compress,
        )
        &&& nodes_rendered_with(
            cd.skip(splits[0].0),
            wd.skip(splits[0].1),
            s.drop_first(),
            splits.drop_first(),
            eff,
            bbox,
            canvas,
            compress,
        )
    }
}

/// Appending one more node's rendering extends a node list's rendering.
proof fn lemma_nodes_rendered_snoc(
    cd1: Seq<Op>,
    wd1: Seq<PdfObject>,
    cd2: Seq<Op>,
    wd2: Seq<PdfObject>,
    s: Seq<Node>,
    n: Node,
    splits: Seq<(int, int, int)>,
    base: int,
    eff: crate::geom::Mat,
    bbox: Rect,
    canvas: Rect,
    compress: bool,
)
    requires
        nodes_rendered_with(cd1, wd1, s, splits, eff, bbox, canvas, compress),
        node_rendered(cd2, wd2, n, base, eff, bbox, canvas, compress),
    ensures
        nodes_rendered_with(
            cd1 + cd2,
            wd1 + wd2,
            s.push(n),
            splits.push((cd2.len() as int, wd2.len() as int, base)),
            eff,
            bbox,
            canvas,
            compress,
        ),
    decreases s.len(),
{
    let cc = cd1 + cd2;
    let ww = wd1 + wd2;
    let t = s.push(n);
    let sp = splits.push((cd2.len() as int, wd2.len() as int, base));
    if s.len() == 0 {
        assert(t[0] == n);
        assert(sp[0] == (cd2.len() as int, wd2.len() as int, base));
        assert(cc.subrange(0, cd2.len() as int) =~= cd2);
        assert(ww.subrange(0, wd2.len() as int) =~= wd2);
        assert(cc.skip(cd2.len() as int) =~= Seq::<Op>::empty());
        assert(ww.skip(wd2.len() as int) =~= Seq::<PdfObject>::empty());
        assert(t.drop_first() =~= Seq::<Node>::empty());
        assert(sp.drop_first() =~= Seq::<(int, int, int)>::empty());
        assert(nodes_rendered_with(
            cc.skip(cd2.len() as int),
            ww.skip(wd2.len() as int),
            t.drop_first(),
            sp.drop_first(),
            eff,
            bbox,
            canvas,
            compress,
        ));
        assert(node_rendered(
            cc.subrange(0, cd2.len() as int),
            ww.subrange(0, wd2.len() as int),
            t[0],
            base,
            eff,
            bbox,
            canvas,
            compress,
        ));
    } else {
        let k = splits[0].0;
        let j = splits[0].1;
        lemma_nodes_rendered_snoc(
            cd1.skip(k),
            wd1.skip(j),
            cd2,
            wd2,
            s.drop_first(),
            n,
            splits.drop_first(),
            base,
            eff,
            bbox,
            canvas,
            compress,
        );
        assert(cc.subrange(0, k) =~= cd1.subrange(0, k));
        assert(ww.subrange(0, j) =~= wd1.subrange(0, j));
        assert(cc.skip(k) =~= cd1.skip(k) + cd2);
        assert(ww.skip(j) =~= wd1.skip(j) + wd2);
        assert(t.drop_first() =~= s.drop_first().push(n));
        assert(sp.drop_first() =~= splits.drop_first().push(
            (cd2.len() as int, wd2.len() as int, base),
        ));
        assert(t[0] == s[0]);
        assert(sp[0] == splits[0]);
        assert(nodes_rendered_with(
            cc.skip(k),
            ww.skip(j),
            t.drop_first(),
            sp.drop_first(),
            eff,
            bbox,
            canvas,
            compress,
        ));
        assert(node_rendered(
            cc.subrange(0, k),
            ww.subrange(0, j),
            t[0],
            splits[0].2,
            eff,
            bbox,
            canvas,
            compress,
        ));
    }
}

/// Render one node: a group recurses into its children inside a saved
/// state; a path is handed to the path renderer.
pub fn render_node(
    node: &Node,
    parent_bbox: &Rect,
    writer: &mut Vec<PdfObject>,
    content: &mut Vec<Op>,
    ctx: &mut Context,
) -> (r: Result<(), RenderError>)
    requires
        ctx_wf(*old(ctx)),
        node_wf(*node),
        rect_wf(*parent_bbox),
        old(ctx).deferrer.next_ref + node_cost(*node) <= u64::MAX,
    ensures
        ctx_wf(*final(ctx)),
        frame_eq(final(ctx).frame, old(ctx).frame),
        final(ctx).canvas == old(ctx).canvas,
        final(ctx).compress == old(ctx).compress,
        old(ctx).deferrer.next_ref <= final(ctx).deferrer.next_ref <= old(ctx).deferrer.next_ref + node_cost(*node),
        scopes_extended_ge(
            scopes_view(old(ctx).deferrer),
            scopes_view(final(ctx).deferrer),
            old(ctx).deferrer.next_ref,
        ),
        final(writer)@.len() >= old(writer)@.len(),
        final(content)@.len() >= old(content)@.len(),
        final(writer)@.subrange(0, old(writer)@.len() as int) == old(writer)@,
        final(content)@.subrange(0, old(content)@.len() as int) == old(content)@,
        r is Err <==> node_has_pattern_stroke(*node),
        r is Ok ==> node_rendered(
            final(content)@.skip(old(content)@.len() as int),
            final(writer)@.skip(old(writer)@.len() as int),
            *node,
            old(ctx).deferrer.next_ref as int,
            old(ctx).frame.current,
            *parent_bbox,
            old(ctx).canvas,
            old(ctx).compress,
        ),
    decreases *node, 0int,
{
    match node {
        Node::Group(g) => {
            let r = render_group(g, parent_bbox, writer, content, ctx);
            proof {
                if r is Ok {
                    assert(group_rendered(
                        content@.skip(old(content)@.len() as int),
                        writer@.skip(old(writer)@.len() as int),
                        *g,
                        old(ctx).frame.current,
                        *parent_bbox,
                        old(ctx).canvas,
                        old(ctx).compress,
                    ));
                }
            }
            r
        },
        Node::Path(p) => {
            let r = render(p, parent_bbox, writer, content, ctx);
            proof {
                if r is Ok && !p.visible {
                    assert(content@.skip(old(content)@.len() as int) =~= Seq::<Op>::empty());
                    assert(writer@.skip(old(writer)@.len() as int) =~= Seq::<
                        PdfObject,
                    >::empty());
                }
                if r is Ok && p.visible {
                    assert(crate::path::render_ops_match(
                        content@.skip(old(content)@.len() as int),
                        *p,
                        old(ctx).deferrer.next_ref as int,
                    ));
                    assert(crate::path::path_objects(
                        writer@.skip(old(writer)@.len() as int),
                        *p,
                        old(ctx).deferrer.next_ref as int,
                        old(ctx).frame.current,
                        *parent_bbox,
                        old(ctx).canvas,
                        old(ctx).compress,
                    ));
                }
            }
            r
        },
    }
}

/// Render a group: save state, apply its local transform, render every
/// child in document order, restore state — with the frame pushed and
/// popped around it.
pub fn render_group(
    group: &Group,
    parent_bbox: &Rect,
    writer: &mut Vec<PdfObject>,
    content: &mut Vec<Op>,
    ctx: &mut Context,
) -> (r: Result<(), RenderError>)
    requires
        ctx_wf(*old(ctx)),
        group_wf(*group),
        rect_wf(*parent_bbox),
        old(ctx).deferrer.next_ref + nodes_cost(group.children@) <= u64::MAX,
    ensures
        ctx_wf(*final(ctx)),
        frame_eq(final(ctx).frame, old(ctx).frame),
        final(ctx).canvas == old(ctx).canvas,
        final(ctx).compress == old(ctx).compress,
        old(ctx).deferrer.next_ref <= final(ctx).deferrer.next_ref <= old(ctx).deferrer.next_ref + nodes_cost(group.children@),
        scopes_extended_ge(
            scopes_view(old(ctx).deferrer),
            scopes_view(final(ctx).deferrer),
            old(ctx).deferrer.next_ref,
        ),
        final(writer)@.len() >= old(writer)@.len(),
        final(content)@.len() >= old(content)@.len(),
        final(writer)@.subrange(0, old(writer)@.len() as int) == old(writer)@,
        final(content)@.subrange(0, old(content)@.len() as int) == old(content)@,
        r is Err <==> nodes_have_pattern_stroke(group.children@),
        r is Ok ==> group_rendered(
            final(content)@.skip(old(content)@.len() as int),
            final(writer)@.skip(old(writer)@.len() as int),
            *group,
            old(ctx).frame.current,
            *parent_bbox,
            old(ctx).canvas,
            old(ctx).compress,
        ),
    decreases *group, 0int,
{
    ctx.frame.push();
    ctx.frame.append_transform(&group.transform);
    content.push(Op::SaveState);
    content.push(Op::ApplyTransform(group.transform));
    let ghost oc = old(content)@;
    let ghost ow = old(writer)@;
    let ghost on = old(ctx).deferrer.next_ref;
    let ghost ov = scopes_view(old(ctx).deferrer);
    let n = group.children.len();
    let mut i: usize = 0;
    let ghost eff_in = crate::geom::mat_concat_s(old(ctx).frame.current, group.transform);
    let ghost mut splits: Seq<(int, int, int)> = Seq::empty();
    proof {
        lemma_extend_refl(ov, on);
        assert(content@.subrange(0, oc.len() as int) =~= oc);
        assert(group.children@.skip(0) =~= group.children@);
        assert(content@.skip(oc.len() as int + 2) =~= Seq::<Op>::empty());
        assert(writer@.skip(ow.len() as int) =~= Seq::<PdfObject>::empty());
        assert(group.children@.subrange(0, 0) =~= Seq::<Node>::empty());
        assert(nodes_rendered_with(
            content@.skip(oc.len() as int + 2),
            writer@.skip(ow.len() as int),
            group.children@.subrange(0, 0),
            splits,
            eff_in,
            *parent_bbox,
            old(ctx).canvas,
            old(ctx).compress,
        ));
    }
    while i < n
        invariant
            ctx_wf(*ctx),
            n == group.children@.len(),
            i <= n,
            group_wf(*group),
            rect_wf(*parent_bbox),
            oc == old(content)@,
            ow == old(writer)@,
            on == old(ctx).deferrer.next_ref,
            ov == scopes_view(old(ctx).deferrer),
            ctx.frame.current == crate::geom::mat_concat_s(
                old(ctx).frame.current,
                group.transform,
            ),
            ctx.frame.saved@ == old(ctx).frame.saved@.push(old(ctx).frame.current),
            ctx.canvas == old(ctx).canvas,
            ctx.compress == old(ctx).compress,
            on <= ctx.deferrer.next_ref,
            ctx.deferrer.next_ref + nodes_cost(group.children@.skip(i as int)) <= on
                + nodes_cost(group.children@),
            on + nodes_cost(group.children@) <= u64::MAX,
            scopes_extended_ge(ov, scopes_view(ctx.deferrer), on),
            writer@.len() >= ow.len(),
            writer@.subrange(0, ow.len() as int) == ow,
            content@.subrange(0, oc.len() as int) == oc,
            content@.len() >= oc.len() + 2,
            content@[oc.len() as int] == Op::SaveState,
            content@[oc.len() + 1int] == (Op::ApplyTransform(group.transform)),
            forall|j: int| 0 <= j < i ==> !node_has_pattern_stroke(#[trigger] group.children@[j]),
            eff_in == crate::geom::mat_concat_s(old(ctx).frame.current, group.transform),
            nodes_rendered_with(
                content@.skip(oc.len() as int + 2),
                writer@.skip(ow.len() as int),
                group.children@.subrange(0, i as int),
                splits,
                eff_in,
                *parent_bbox,
                old(ctx).canvas,
                old(ctx).compress,
            ),
        decreases n - i,
    {
        proof {
            lemma_nodes_cost_skip(group.children@, i as int);
            assert(node_wf(group.children@[i as int]));
        }
        let ghost mid_n = ctx.deferrer.next_ref;
        let ghost mid_v = scopes_view(ctx.deferrer);
        let ghost mid_w = writer@;
        let ghost mid_c = content@;
        let res = render_node(&group.children[i], parent_bbox, writer, content, ctx);
        proof {
            lemma_extend_trans(ov, mid_v, scopes_view(ctx.deferrer), on, mid_n);
            assert forall|m: int| 0 <= m < mid_w.len() implies writer@[m] == mid_w[m] by {
                assert(writer@.subrange(0, mid_w.len() as int)[m] == mid_w[m]);
            }
            assert(writer@.subrange(0, ow.len() as int) =~= ow);
            assert forall|m: int| 0 <= m < mid_c.len() implies content@[m] == mid_c[m] by {
                assert(content@.subrange(0, mid_c.len() as int)[m] == mid_c[m]);
            }
            assert(content@.subrange(0, oc.len() as int) =~= oc);
        }
        if let Err(e) = res {
            proof {
                assert(node_has_pattern_stroke(group.children@[i as int]));
            }
            ctx.frame.pop();
            proof {
                assert(ctx.frame.saved@ == old(ctx).frame.saved@);
            }
            return Err(e);
        }
        proof {
            let cd_i = content@.skip(mid_c.len() as int);
            let wd_i = writer@.skip(mid_w.len() as int);
            let prev_cd = mid_c.skip(oc.len() as int + 2);
            let prev_wd = mid_w.skip(ow.len() as int);
            assert(node_rendered(
                cd_i,
                wd_i,
                group.children@[i as int],
                mid_n as int,
                eff_in,
                *parent_bbox,
                old(ctx).canvas,
                old(ctx).compress,
            ));
            lemma_nodes_rendered_snoc(
                prev_cd,
                prev_wd,
                cd_i,
                wd_i,
                group.children@.subrange(0, i as int),
                group.children@[i as int],
                splits,
                mid_n as int,
                eff_in,
                *parent_bbox,
                old(ctx).canvas,
                old(ctx).compress,
            );
            assert(content@.skip(oc.len() as int + 2) =~= prev_cd + cd_i);
            assert(writer@.skip(ow.len() as int) =~= prev_wd + wd_i);
            assert(group.children@.subrange(0, i as int).push(group.children@[i as int])
                =~= group.children@.subrange(0, i as int + 1));
            splits = splits.push((cd_i.len() as int, wd_i.len() as int, mid_n as int));
        }
        i = i + 1;
    }
    let ghost c_pre = content@;
    content.push(Op::RestoreState);
    ctx.frame.pop();
    proof {
        assert(ctx.frame.saved@ == old(ctx).frame.saved@);
        assert(content@.subrange(0, oc.len() as int) =~= oc);
        assert(!nodes_have_pattern_stroke(group.children@));
        assert(group.children@.subrange(0, n as int) =~= group.children@);
        let delta = content@.skip(oc.len() as int);
        let wdelta = writer@.skip(ow.len() as int);
        assert(delta.last() == Op::RestoreState);
        assert(delta[0] == Op::SaveState);
        assert(delta[1] == (Op::ApplyTransform(group.transform)));
        assert(delta.subrange(2, delta.len() - 1) =~= c_pre.skip(oc.len() as int + 2));
        assert(nodes_rendered_with(
            delta.subrange(2, delta.len() - 1),
            wdelta,
            group.children@,
            splits,
            eff_in,
            *parent_bbox,
            old(ctx).canvas,
            old(ctx).compress,
        ));
        assert(nodes_rendered(
            delta.subrange(2, delta.len() - 1),
            wdelta,
            group.children@,
            eff_in,
            *parent_bbox,
            old(ctx).canvas,
            old(ctx).compress,
        ));
    }
    Ok(())
}

/// What a successful XObject compilation returns and leaves behind: the
/// name and reference minted from `n0`, that binding registered in the
/// enclosing scope, and a non-luminosity form XObject as the last object,
/// sized to the element box.
pub open spec fn xobject_ok(
    p: (ResName, u64),
    n0: int,
    ov: Seq<Seq<crate::object::ResEntry>>,
    fv: Seq<Seq<crate::object::ResEntry>>,
    wlast: PdfObject,
    wd_children: Seq<PdfObject>,
    g: Group,
    eff: crate::geom::Mat,
    bbox: Rect,
    canvas: Rect,
    compress: bool,
) -> bool {
    &&& p.0 == (ResName { kind: ResKind::XObject, index: n0 as u64 })
    &&& p.1 == n0 as u64
    &&& fv == ov.update(ov.len() - 1, ov.last().push(xobject_entry(n0)))
    &&& wlast matches PdfObject::FormXObject {
        id,
        bbox: b,
        luminosity_group,
        compress: comp,
        ..
    }
    &&& wlast->FormXObject_id == n0
    &&& wlast->FormXObject_bbox == bbox
    &&& !wlast->FormXObject_luminosity_group
    &&& wlast->FormXObject_compress == compress
    &&& group_rendered(wlast->FormXObject_content@, wd_children, g, eff, bbox, canvas, compress)
    &&& crate::deferrer::entries_distinct(wlast->FormXObject_resources.entries@)
}

/// Re-render a group into a fresh content stream and wrap it as a form
/// XObject with its own resource scope, registered in the enclosing scope.
pub fn create_x_object(
    group: &Group,
    parent_bbox: &Rect,
    writer: &mut Vec<PdfObject>,
    ctx: &mut Context,
) -> (r: Result<(ResName, u64), RenderError>)
    requires
        ctx_wf(*old(ctx)),
        group_wf(*group),
        rect_wf(*parent_bbox),
        old(ctx).deferrer.next_ref + 6 + nodes_cost(group.children@) <= u64::MAX,
    ensures
        ctx_wf(*final(ctx)),
        frame_eq(final(ctx).frame, old(ctx).frame),
        final(ctx).canvas == old(ctx).canvas,
        final(ctx).compress == old(ctx).compress,
        old(ctx).deferrer.next_ref <= final(ctx).deferrer.next_ref <= old(ctx).deferrer.next_ref + 2 + nodes_cost(group.children@),
        scopes_extended_ge(
            scopes_view(old(ctx).deferrer),
            scopes_view(final(ctx).deferrer),
            old(ctx).deferrer.next_ref,
        ),
        final(writer)@.len() >= old(writer)@.len(),
        final(writer)@.subrange(0, old(writer)@.len() as int) == old(writer)@,
        r is Err <==> nodes_have_pattern_stroke(group.children@),
        r matches Ok(p) ==> final(writer)@.len() > old(writer)@.len() && xobject_ok(
            p,
            old(ctx).deferrer.next_ref as int,
            scopes_view(old(ctx).deferrer),
            scopes_view(final(ctx).deferrer),
            final(writer)@.last(),
            final(writer)@.subrange(old(writer)@.len() as int, final(writer)@.len() - 1),
            *group,
            old(ctx).frame.current,
            *parent_bbox,
            old(ctx).canvas,
            old(ctx).compress,
        ),
    decreases *group, 1int,
{
    let ghost on = old(ctx).deferrer.next_ref;
    let ghost ov = scopes_view(old(ctx).deferrer);
    ctx.deferrer.push();
    let xid = ctx.alloc_ref();
    let mut content: Vec<Op> = Vec::new();
    let ghost v1 = scopes_view(ctx.deferrer);
    let ghost n1 = ctx.deferrer.next_ref;
    let res = render_group(group, parent_bbox, writer, &mut content, ctx);
    match res {
        Err(e) => {
            let ghost v2 = scopes_view(ctx.deferrer);
            let mut dump = ResourceDict { entries: Vec::new() };
            ctx.deferrer.pop(&mut dump);
            proof {
                assert forall|k: int| 0 <= k < ov.len() implies v2.drop_last()[k] == ov[k] by {
                    assert(v2[k] == v1[k]);
                }
                assert(scopes_view(ctx.deferrer) =~= ov);
                lemma_extend_refl(ov, on);
            }
            Err(e)
        },
        Ok(()) => {
            proof {
                assert(content@.skip(0) =~= content@);
                assert(group_rendered(
                    content@,
                    writer@.skip(old(writer)@.len() as int),
                    *group,
                    old(ctx).frame.current,
                    *parent_bbox,
                    old(ctx).canvas,
                    old(ctx).compress,
                ));
            }
            let ghost children_wd = writer@.skip(old(writer)@.len() as int);
            let ghost xcontent = content@;
            let ghost v2 = scopes_view(ctx.deferrer);
            let mut resources = ResourceDict { entries: Vec::new() };
            ctx.deferrer.pop(&mut resources);
            proof {
                assert forall|k: int| 0 <= k < ov.len() implies v2.drop_last()[k] == ov[k] by {
                    assert(v2[k] == v1[k]);
                }
                assert(scopes_view(ctx.deferrer) =~= ov);
                assert(entries_below(ov.last(), on));
                assert(!scope_has_index(scopes_view(ctx.deferrer).last(), xid)) by {
                    if scope_has_index(scopes_view(ctx.deferrer).last(), xid) {
                        let ii = choose|ii: int|
                            0 <= ii < scopes_view(ctx.deferrer).last().len() && (
                            #[trigger] scopes_view(ctx.deferrer).last()[ii]).name.index == xid;
                        assert(scopes_view(ctx.deferrer).last()[ii].name.index < on);
                    }
                }
            }
            writer.push(
                PdfObject::FormXObject {
                    id: xid,
                    content,
                    resources,
                    bbox: *parent_bbox,
                    luminosity_group: false,
                    compress: ctx.compress,
                },
            );
            let ghost vb = scopes_view(ctx.deferrer);
            let name = ctx.deferrer.add_x_object(xid);
            proof {
                assert(writer@.subrange(0, old(writer)@.len() as int) =~= old(writer)@);
                assert(vb == ov);
                assert(xobject_entry(on as int) == (ResEntry {
                    name: ResName { kind: ResKind::XObject, index: xid },
                    target: xid,
                }));
                assert(scopes_view(ctx.deferrer) =~= ov.update(
                    ov.len() - 1,
                    ov.last().push(xobject_entry(on as int)),
                ));
                lemma_extend_push(ov, xobject_entry(on as int), on);
                assert(writer@.subrange(old(writer)@.len() as int, writer@.len() - 1)
                    =~= children_wd);
                assert(writer@.last()->FormXObject_content@ == xcontent);
            }
            Ok((name, xid))
        },
    }
}

} // verus!
