//! The gradient compiler: turns a gradient paint into a shading pattern
//! and, when any stop is translucent, a luminosity soft mask.
//!
//! Stops are first padded so their offsets span `[0, SCALE]` exactly, then
//! projected to interpolation channels — three for color, one for opacity —
//! and compiled into a single exponential function (two stops) or a
//! stitching function over one exponential segment per adjacent pair
//! (more than two).

use vstd::prelude::*;

use crate::context::{ctx_wf, Context};
use crate::deferrer::{entries_below, scope_has_index, scopes_extended_ge, scopes_view};
use crate::fixed::SCALE;
use crate::geom::{mat_concat_s, mat_from_rect_s, mat_identity_s, mat_wf, rect_wf, Mat, Rect};
use crate::object::{
    ColorSpace, GsData, Op, PdfObject, ResEntry, ResKind, ResName, ResourceDict, ShadingData,
    ShadingKind,
};
use crate::scene::{
    linear_gradient_wf, radial_gradient_wf, stops_wf, GradientStop, LinearGradientDef, Paint,
    RadialGradientDef, Rgb, Units,
};

verus! {

/// A gradient stop projected into `COUNT` interpolation channels:
/// three for color, one for opacity.
#[derive(PartialEq, Eq, Clone, Copy, Debug)]
pub struct Stop<const COUNT: usize> {
    pub color: [i64; COUNT],
    pub offset: i64,
}

/// The stop with its offset replaced.
pub open spec fn stop_with_offset(s: GradientStop, o: i64) -> GradientStop {
    GradientStop { offset: o, color: s.color, opacity: s.opacity }
}

/// Stop padding: when the first offset is not exactly 0 the first stop is
/// duplicated at offset 0, and when the last offset is not exactly `SCALE`
/// the last stop is duplicated at offset `SCALE`, so the interpolation
/// function is total over `[0, SCALE]` and extends the extreme colors
/// flatly.
pub open spec fn pad_stops_s(s: Seq<GradientStop>) -> Seq<GradientStop>
    recommends
        s.len() >= 1,
{
    let front = if s[0].offset != 0 {
        seq![stop_with_offset(s[0], 0)] + s
    } else {
        s
    };
    if front.last().offset != SCALE {
        front.push(stop_with_offset(front.last(), SCALE))
    } else {
        front
    }
}

/// One color byte as a fixed-point channel value in `[0, SCALE]`.
pub open spec fn channel_of_byte(b: u8) -> i64 {
    ((b as int) * (SCALE as int) / 255) as i64
}

pub open spec fn color_channels_s(c: Rgb) -> Seq<i64> {
    seq![channel_of_byte(c.r), channel_of_byte(c.g), channel_of_byte(c.b)]
}

/// A stop's projection to interpolation channels: its opacity alone, or
/// its three color channels.
pub open spec fn proj_channels(s: GradientStop, use_opacities: bool) -> Seq<i64> {
    if use_opacities {
        seq![s.opacity]
    } else {
        color_channels_s(s.color)
    }
}

pub open spec fn offsets_of(s: Seq<GradientStop>) -> Seq<i64> {
    Seq::new(s.len(), |i: int| s[i].offset)
}

pub open spec fn chans_of(s: Seq<GradientStop>, use_opacities: bool) -> Seq<Seq<i64>> {
    Seq::new(s.len(), |i: int| proj_channels(s[i], use_opacities))
}

/// `[0, SCALE]` repeated `count` times: the function range (one pair per
/// channel) and the stitching encode array (one pair per sub-function).
pub open spec fn unit_pairs(count: nat) -> Seq<i64>
    decreases count,
{
    if count == 0 {
        Seq::empty()
    } else {
        unit_pairs((count - 1) as nat) + seq![0i64, SCALE]
    }
}

/// An exponential interpolation object with exponent 1: linear in channel
/// space from `c0` at 0 to `c1` at 1.
pub open spec fn is_exp_fn(o: PdfObject, id: int, c0: Seq<i64>, c1: Seq<i64>, count: nat) -> bool {
    &&& o matches PdfObject::ExponentialFunction {
        id: oid,
        c0: oc0,
        c1: oc1,
        domain: od,
        range: orange,
        n: on,
    }
    &&& oid == id
    &&& oc0@ == c0
    &&& oc1@ == c1
    &&& od@ == seq![0i64, SCALE]
    &&& orange@ == unit_pairs(count)
    &&& on == SCALE
}

/// A stitching object over the given sub-functions and interior bounds,
/// each sub-function re-encoded onto a normalized local parameter.
pub open spec fn is_stitch_fn(
    o: PdfObject,
    id: int,
    functions: Seq<u64>,
    bounds: Seq<i64>,
    count: nat,
) -> bool {
    &&& o matches PdfObject::StitchingFunction {
        id: oid,
        domain: od,
        range: orange,
        functions: of,
        bounds: ob,
        encode: oe,
    }
    &&& oid == id
    &&& of@ == functions
    &&& ob@ == bounds
    &&& od@ == seq![0i64, SCALE]
    &&& orange@ == unit_pairs(count)
    &&& oe@ == unit_pairs(functions.len())
}

/// How many objects (and references) the interpolation builder produces
/// for `k` stops: one exponential function, or `k-1` exponentials plus the
/// stitching function.
pub open spec fn interp_count(k: nat) -> nat {
    if k == 2 {
        1
    } else {
        k
    }
}

/// The interpolation-function graph the builder appends for stops with the
/// given offsets and channel projections: for two stops a single
/// exponential function with reference `n0`; for `k > 2` stops, `k-1`
/// exponential segments with references `n0+1 .. n0+k-1`, stitched by a
/// function with reference `n0` whose bounds are the interior offsets.
pub open spec fn interp_built(
    appended: Seq<PdfObject>,
    n0: int,
    offsets: Seq<i64>,
    chans: Seq<Seq<i64>>,
    count: nat,
) -> bool {
    let k = offsets.len() as int;
    if k == 2 {
        &&& appended.len() == 1
        &&& is_exp_fn(appended[0], n0, chans[0], chans[1], count)
    } else {
        &&& appended.len() == k
        &&& forall|i: int|
            0 <= i < k - 1 ==> is_exp_fn(
                #[trigger] appended[i],
                n0 + 1 + i,
                chans[i],
                chans[i + 1],
                count,
            )
        &&& is_stitch_fn(
            appended[k - 1],
            n0,
            Seq::new((k - 1) as nat, |i: int| (n0 + 1 + i) as u64),
            offsets.subrange(1, k - 1),
            count,
        )
    }
}

/// The numeric range of an interpolation function: `[0, SCALE]` once per
/// channel, colors and opacities being pre-normalized.
pub fn get_function_range(count: usize) -> (r: Vec<i64>)
    ensures
        r@ == unit_pairs(count as nat),
{
    let mut r: Vec<i64> = Vec::new();
    let mut i: usize = 0;
    while i < count
        invariant
            i <= count,
            r@ == unit_pairs(i as nat),
        decreases count - i,
    {
        r.push(0);
        r.push(SCALE);
        proof {
            assert(unit_pairs((i + 1) as nat) == unit_pairs(i as nat) + seq![0i64, SCALE]);
            assert(r@ =~= unit_pairs(i as nat) + seq![0i64, SCALE]);
        }
        i = i + 1;
    }
    r
}

/// Copy a stop's channel payload into a plain vector.
fn channels_vec<const COUNT: usize>(s: &Stop<COUNT>) -> (r: Vec<i64>)
    ensures
        r@ == s.color@,
{
    let mut r: Vec<i64> = Vec::new();
    let mut i: usize = 0;
    while i < COUNT
        invariant
            i <= COUNT,
            r@ == s.color@.subrange(0, i as int),
        decreases COUNT - i,
    {
        r.push(s.color[i]);
        proof {
            assert(r@ =~= s.color@.subrange(0, (i + 1) as int));
        }
        i = i + 1;
    }
    proof {
        assert(s.color@.subrange(0, COUNT as int) =~= s.color@);
    }
    r
}

/// Emit one exponential interpolation segment between two stops.
fn exponential_function<const COUNT: usize>(
    first_stop: &Stop<COUNT>,
    second_stop: &Stop<COUNT>,
    writer: &mut Vec<PdfObject>,
    ctx: &mut Context,
) -> (r: u64)
    requires
        ctx_wf(*old(ctx)),
        old(ctx).deferrer.next_ref < u64::MAX,
    ensures
        ctx_wf(*final(ctx)),
        r == old(ctx).deferrer.next_ref,
        final(ctx).deferrer.next_ref == old(ctx).deferrer.next_ref + 1,
        scopes_view(final(ctx).deferrer) == scopes_view(old(ctx).deferrer),
        final(ctx).frame == old(ctx).frame,
        final(ctx).canvas == old(ctx).canvas,
        final(ctx).compress == old(ctx).compress,
        final(writer)@.len() == old(writer)@.len() + 1,
        forall|m: int| 0 <= m < old(writer)@.len() ==> final(writer)@[m] == old(writer)@[m],
        is_exp_fn(
            final(writer)@.last(),
            r as int,
            first_stop.color@,
            second_stop.color@,
            COUNT as nat,
        ),
{
    let reference = ctx.alloc_ref();
    let c0 = channels_vec(first_stop);
    let c1 = channels_vec(second_stop);
    let mut domain: Vec<i64> = Vec::new();
    domain.push(0);
    domain.push(SCALE);
    let range = get_function_range(COUNT);
    proof {
        assert(domain@ =~= seq![0i64, SCALE]);
    }
    let obj = PdfObject::ExponentialFunction { id: reference, c0, c1, domain, range, n: SCALE };
    writer.push(obj);
    reference
}

pub open spec fn stop_offsets<const COUNT: usize>(s: Seq<Stop<COUNT>>) -> Seq<i64> {
    Seq::new(s.len(), |i: int| s[i].offset)
}

pub open spec fn stop_chans<const COUNT: usize>(s: Seq<Stop<COUNT>>) -> Seq<Seq<i64>> {
    Seq::new(s.len(), |i: int| s[i].color@)
}

/// Emit one exponential segment per adjacent stop pair and a stitching
/// function over them, bounded by the interior stop offsets.
fn stitching_function<const COUNT: usize>(
    stops: &Vec<Stop<COUNT>>,
    writer: &mut Vec<PdfObject>,
    ctx: &mut Context,
) -> (r: u64)
    requires
        ctx_wf(*old(ctx)),
        stops@.len() >= 3,
        old(ctx).deferrer.next_ref + stops@.len() <= u64::MAX,
    ensures
        ctx_wf(*final(ctx)),
        r == old(ctx).deferrer.next_ref,
        final(ctx).deferrer.next_ref == old(ctx).deferrer.next_ref + stops@.len(),
        scopes_view(final(ctx).deferrer) == scopes_view(old(ctx).deferrer),
        final(ctx).frame == old(ctx).frame,
        final(ctx).canvas == old(ctx).canvas,
        final(ctx).compress == old(ctx).compress,
        final(writer)@.len() == old(writer)@.len() + stops@.len(),
        final(writer)@.subrange(0, old(writer)@.len() as int) == old(writer)@,
        interp_built(
            final(writer)@.skip(old(writer)@.len() as int),
            r as int,
            stop_offsets(stops@),
            stop_chans(stops@),
            COUNT as nat,
        ),
{
    let reference = ctx.alloc_ref();
    let ghost old_len = old(writer)@.len() as int;
    let mut functions: Vec<u64> = Vec::new();
    let mut bounds: Vec<i64> = Vec::new();
    let mut encode: Vec<i64> = Vec::new();
    let k = stops.len();
    let mut i: usize = 0;
    while i < k - 1
        invariant
            ctx_wf(*ctx),
            k == stops@.len(),
            3 <= k,
            i <= k - 1,
            reference == old(ctx).deferrer.next_ref,
            reference + k <= u64::MAX,
            old_len == old(writer)@.len(),
            ctx.deferrer.next_ref == reference + 1 + i,
            scopes_view(ctx.deferrer) == scopes_view(old(ctx).deferrer),
            ctx.frame == old(ctx).frame,
            ctx.canvas == old(ctx).canvas,
            ctx.compress == old(ctx).compress,
            writer@.len() == old_len + i,
            writer@.subrange(0, old_len) == old(writer)@,
            forall|j: int|
                0 <= j < i ==> is_exp_fn(
                    #[trigger] writer@[old_len + j],
                    reference + 1 + j,
                    stops@[j].color@,
                    stops@[j + 1].color@,
                    COUNT as nat,
                ),
            bounds@ == Seq::new(i as nat, |j: int| stops@[j + 1].offset),
            functions@ == Seq::new(i as nat, |j: int| (reference + 1 + j) as u64),
            encode@ == unit_pairs(i as nat),
        decreases k - 1 - i,
    {
        let ghost prev = writer@;
        let first = stops[i];
        let second = stops[i + 1];
        bounds.push(second.offset);
        let f = exponential_function(&first, &second, writer, ctx);
        functions.push(f);
        encode.push(0);
        encode.push(SCALE);
        proof {
            assert(writer@.subrange(0, old_len) =~= prev.subrange(0, old_len));
            assert forall|j: int| 0 <= j < i + 1 implies is_exp_fn(
                #[trigger] writer@[old_len + j],
                reference + 1 + j,
                stops@[j].color@,
                stops@[j + 1].color@,
                COUNT as nat,
            ) by {
                if j < i {
                    assert(writer@[old_len + j] == prev[old_len + j]);
                } else {
                    assert(writer@[old_len + j] == writer@.last());
                }
            }
            assert(bounds@ =~= Seq::new((i + 1) as nat, |j: int| stops@[j + 1].offset));
            assert(functions@ =~= Seq::new((i + 1) as nat, |j: int| (reference + 1 + j) as u64));
            assert(encode@ =~= unit_pairs(i as nat) + seq![0i64, SCALE]);
            assert(encode@ == unit_pairs((i + 1) as nat));
        }
        i = i + 1;
    }
    // the final window's right offset is not an interior bound
    bounds.pop();
    let mut domain: Vec<i64> = Vec::new();
    domain.push(0);
    domain.push(SCALE);
    let range = get_function_range(COUNT);
    proof {
        assert(domain@ =~= seq![0i64, SCALE]);
    }
    let ghost prev = writer@;
    let obj = PdfObject::StitchingFunction {
        id: reference,
        domain,
        range,
        functions,
        bounds,
        encode,
    };
    writer.push(obj);
    proof {
        assert(writer@.subrange(0, old_len) =~= old(writer)@);
        let appended = writer@.skip(old_len);
        let kk = k as int;
        assert(appended.len() == kk);
        assert forall|j: int| 0 <= j < kk - 1 implies is_exp_fn(
            #[trigger] appended[j],
            reference + 1 + j,
            stop_chans(stops@)[j],
            stop_chans(stops@)[j + 1],
            COUNT as nat,
        ) by {
            assert(appended[j] == prev[old_len + j]);
            assert(is_exp_fn(
                prev[old_len + j],
                reference + 1 + j,
                stops@[j].color@,
                stops@[j + 1].color@,
                COUNT as nat,
            ));
        }
        assert(appended[kk - 1] == writer@.last());
        assert(bounds@ =~= stop_offsets(stops@).subrange(1, kk - 1));
        assert(functions@ =~= Seq::new((kk - 1) as nat, |j: int| (reference as int + 1 + j) as u64));
        assert(is_stitch_fn(
            appended[kk - 1],
            reference as int,
            Seq::new((kk - 1) as nat, |j: int| (reference as int + 1 + j) as u64),
            stop_offsets(stops@).subrange(1, kk - 1),
            COUNT as nat,
        ));
    }
    reference
}

/// Build the interpolation function for a padded stop sequence: a single
/// exponential segment for two stops, a stitching function otherwise.
fn function<const COUNT: usize>(
    stops: &Vec<Stop<COUNT>>,
    writer: &mut Vec<PdfObject>,
    ctx: &mut Context,
) -> (r: u64)
    requires
        ctx_wf(*old(ctx)),
        stops@.len() >= 2,
        old(ctx).deferrer.next_ref + stops@.len() <= u64::MAX,
    ensures
        ctx_wf(*final(ctx)),
        r == old(ctx).deferrer.next_ref,
        final(ctx).deferrer.next_ref == old(ctx).deferrer.next_ref + interp_count(stops@.len()),
        scopes_view(final(ctx).deferrer) == scopes_view(old(ctx).deferrer),
        final(ctx).frame == old(ctx).frame,
        final(ctx).canvas == old(ctx).canvas,
        final(ctx).compress == old(ctx).compress,
        final(writer)@.len() == old(writer)@.len() + interp_count(stops@.len()),
        final(writer)@.subrange(0, old(writer)@.len() as int) == old(writer)@,
        interp_built(
            final(writer)@.skip(old(writer)@.len() as int),
            r as int,
            stop_offsets(stops@),
            stop_chans(stops@),
            COUNT as nat,
        ),
{
    if stops.len() == 2 {
        let first = stops[0];
        let second = stops[1];
        let r = exponential_function(&first, &second, writer, ctx);
        proof {
            assert(writer@.skip(old(writer)@.len() as int) =~= seq![writer@.last()]);
            assert(writer@.subrange(0, old(writer)@.len() as int) =~= old(writer)@);
        }
        r
    } else {
        stitching_function(stops, writer, ctx)
    }
}

/// One color byte as a fixed-point channel value.
fn channel_byte(b: u8) -> (r: i64)
    ensures
        r == channel_of_byte(b),
        0 <= r <= SCALE,
{
    (((b as u64) * 1_000_000) / 255) as i64
}

/// Project stops to their one-channel opacity form.
fn project_opacity(padded: &Vec<GradientStop>) -> (r: Vec<Stop<1>>)
    ensures
        r@.len() == padded@.len(),
        forall|j: int|
            0 <= j < padded@.len() ==> (#[trigger] r@[j]).offset == padded@[j].offset && r@[j].color@
                == proj_channels(padded@[j], true),
{
    let mut r: Vec<Stop<1>> = Vec::new();
    let n = padded.len();
    let mut i: usize = 0;
    while i < n
        invariant
            n == padded@.len(),
            i <= n,
            r@.len() == i,
            forall|j: int|
                0 <= j < i ==> (#[trigger] r@[j]).offset == padded@[j].offset && r@[j].color@
                    == proj_channels(padded@[j], true),
        decreases n - i,
    {
        let s = padded[i];
        let st = Stop::<1> { color: [s.opacity], offset: s.offset };
        proof {
            assert(st.color@ =~= seq![s.opacity]);
        }
        r.push(st);
        i = i + 1;
    }
    r
}

/// Project stops to their three-channel color form.
fn project_color(padded: &Vec<GradientStop>) -> (r: Vec<Stop<3>>)
    ensures
        r@.len() == padded@.len(),
        forall|j: int|
            0 <= j < padded@.len() ==> (#[trigger] r@[j]).offset == padded@[j].offset && r@[j].color@
                == proj_channels(padded@[j], false),
{
    let mut r: Vec<Stop<3>> = Vec::new();
    let n = padded.len();
    let mut i: usize = 0;
    while i < n
        invariant
            n == padded@.len(),
            i <= n,
            r@.len() == i,
            forall|j: int|
                0 <= j < i ==> (#[trigger] r@[j]).offset == padded@[j].offset && r@[j].color@
                    == proj_channels(padded@[j], false),
        decreases n - i,
    {
        let s = padded[i];
        let st = Stop::<3> {
            color: [channel_byte(s.color.r), channel_byte(s.color.g), channel_byte(s.color.b)],
            offset: s.offset,
        };
        proof {
            assert(st.color@ =~= color_channels_s(s.color));
        }
        r.push(st);
        i = i + 1;
    }
    r
}

/// Pad the stops to span `[0, SCALE]` exactly, project every stop to its
/// opacity or color channels, and build the interpolation function.
fn get_function(
    stops: &Vec<GradientStop>,
    writer: &mut Vec<PdfObject>,
    ctx: &mut Context,
    use_opacities: bool,
) -> (r: u64)
    requires
        ctx_wf(*old(ctx)),
        stops@.len() >= 2,
        old(ctx).deferrer.next_ref + stops@.len() + 2 <= u64::MAX,
    ensures
        ctx_wf(*final(ctx)),
        r == old(ctx).deferrer.next_ref,
        final(ctx).deferrer.next_ref == old(ctx).deferrer.next_ref + interp_count(
            pad_stops_s(stops@).len(),
        ),
        scopes_view(final(ctx).deferrer) == scopes_view(old(ctx).deferrer),
        final(ctx).frame == old(ctx).frame,
        final(ctx).canvas == old(ctx).canvas,
        final(ctx).compress == old(ctx).compress,
        final(writer)@.len() == old(writer)@.len() + interp_count(pad_stops_s(stops@).len()),
        final(writer)@.subrange(0, old(writer)@.len() as int) == old(writer)@,
        interp_built(
            final(writer)@.skip(old(writer)@.len() as int),
            r as int,
            offsets_of(pad_stops_s(stops@)),
            chans_of(pad_stops_s(stops@), use_opacities),
            if use_opacities {
                1nat
            } else {
                3nat
            },
        ),
{
    let mut padded: Vec<GradientStop> = Vec::new();
    let first = stops[0];
    if first.offset != 0 {
        padded.push(GradientStop { offset: 0, color: first.color, opacity: first.opacity });
    }
    let ghost head = padded@;
    let n = stops.len();
    let mut i: usize = 0;
    while i < n
        invariant
            n == stops@.len(),
            i <= n,
            padded@ == head + stops@.subrange(0, i as int),
        decreases n - i,
    {
        let s = stops[i];
        padded.push(s);
        proof {
            assert(padded@ =~= head + stops@.subrange(0, (i + 1) as int));
        }
        i = i + 1;
    }
    proof {
        assert(stops@.subrange(0, n as int) =~= stops@);
        assert(padded@.last() == stops@.last());
    }
    let plast = padded[padded.len() - 1];
    if plast.offset != SCALE {
        padded.push(GradientStop { offset: SCALE, color: plast.color, opacity: plast.opacity });
    }
    proof {
        if first.offset != 0 {
            assert(head =~= seq![stop_with_offset(stops@[0], 0)]);
        } else {
            assert(head =~= Seq::<GradientStop>::empty());
        }
        assert(padded@ =~= pad_stops_s(stops@));
    }
    if use_opacities {
        let ps = project_opacity(&padded);
        let r = function(&ps, writer, ctx);
        proof {
            assert(stop_offsets(ps@) =~= offsets_of(pad_stops_s(stops@)));
            assert forall|j: int| 0 <= j < ps@.len() implies #[trigger] stop_chans(ps@)[j]
                == chans_of(pad_stops_s(stops@), true)[j] by {
                assert(ps@[j].color@ == proj_channels(padded@[j], true));
            }
            assert(stop_chans(ps@) =~= chans_of(pad_stops_s(stops@), true));
        }
        r
    } else {
        let ps = project_color(&padded);
        let r = function(&ps, writer, ctx);
        proof {
            assert(stop_offsets(ps@) =~= offsets_of(pad_stops_s(stops@)));
            assert forall|j: int| 0 <= j < ps@.len() implies #[trigger] stop_chans(ps@)[j]
                == chans_of(pad_stops_s(stops@), false)[j] by {
                assert(ps@[j].color@ == proj_channels(padded@[j], false));
            }
            assert(stop_chans(ps@) =~= chans_of(pad_stops_s(stops@), false));
        }
        r
    }
}

/// Padding law: a sequence already spanning `[0, SCALE]` is left exactly
/// as it is, and padding twice is the same as padding once.
pub proof fn lemma_pad_stops_idempotent(s: Seq<GradientStop>)
    requires
        s.len() >= 1,
    ensures
        s[0].offset == 0 && s.last().offset == SCALE ==> pad_stops_s(s) == s,
        pad_stops_s(pad_stops_s(s)) == pad_stops_s(s),
{
    let p = pad_stops_s(s);
    assert(p[0].offset == 0);
    assert(p.last().offset == SCALE);
}

/// Two function objects with the same graph structure: equal kind, equal
/// reference, equal interior bounds, sub-function list, encode and domain —
/// everything but the channel payloads and the per-channel range.
pub open spec fn same_fn_shape(a: PdfObject, b: PdfObject) -> bool {
    ||| {
        &&& a matches PdfObject::ExponentialFunction { id: ia, domain: da, n: na, .. }
        &&& b matches PdfObject::ExponentialFunction { id: ib, domain: db, n: nb, .. }
        &&& ia == ib
        &&& da@ == db@
        &&& na == nb
    }
    ||| {
        &&& a matches PdfObject::StitchingFunction {
            id: ia,
            domain: da,
            functions: fa,
            bounds: ba,
            encode: ea,
            ..
        }
        &&& b matches PdfObject::StitchingFunction {
            id: ib,
            domain: db,
            functions: fb,
            bounds: bb,
            encode: eb,
            ..
        }
        &&& ia == ib
        &&& da@ == db@
        &&& fa@ == fb@
        &&& ba@ == bb@
        &&& ea@ == eb@
    }
}

/// Channel-count agnosticism: over the same stop offsets the builder
/// produces structurally identical function graphs whatever the channel
/// count — the same number of objects, and pairwise the same shape.
pub proof fn lemma_channel_count_agnostic(
    a1: Seq<PdfObject>,
    a2: Seq<PdfObject>,
    n0: int,
    offsets: Seq<i64>,
    ch1: Seq<Seq<i64>>,
    ch2: Seq<Seq<i64>>,
    c1: nat,
    c2: nat,
)
    requires
        offsets.len() >= 2,
        interp_built(a1, n0, offsets, ch1, c1),
        interp_built(a2, n0, offsets, ch2, c2),
    ensures
        a1.len() == a2.len(),
        forall|i: int| 0 <= i < a1.len() ==> same_fn_shape(#[trigger] a1[i], a2[i]),
{
    let k = offsets.len() as int;
    assert forall|i: int| 0 <= i < a1.len() implies same_fn_shape(#[trigger] a1[i], a2[i]) by {
        if k == 2 {
            assert(is_exp_fn(a1[0], n0, ch1[0], ch1[1], c1));
            assert(is_exp_fn(a2[0], n0, ch2[0], ch2[1], c2));
        } else if i < k - 1 {
            assert(is_exp_fn(a1[i], n0 + 1 + i, ch1[i], ch1[i + 1], c1));
            assert(is_exp_fn(a2[i], n0 + 1 + i, ch2[i], ch2[i + 1], c2));
        } else {
            assert(is_stitch_fn(
                a1[k - 1],
                n0,
                Seq::new((k - 1) as nat, |j: int| (n0 + 1 + j) as u64),
                offsets.subrange(1, k - 1),
                c1,
            ));
            assert(is_stitch_fn(
                a2[k - 1],
                n0,
                Seq::new((k - 1) as nat, |j: int| (n0 + 1 + j) as u64),
                offsets.subrange(1, k - 1),
                c2,
            ));
        }
    }
}

/// Dispatch law: two stops yield exactly one exponential function; more
/// than two yield one exponential sub-function per adjacent pair, stitched
/// with exactly the interior offsets as bounds.
pub proof fn lemma_two_stop_multi_stop_dispatch(
    appended: Seq<PdfObject>,
    n0: int,
    offsets: Seq<i64>,
    chans: Seq<Seq<i64>>,
    count: nat,
)
    requires
        offsets.len() >= 2,
        interp_built(appended, n0, offsets, chans, count),
    ensures
        offsets.len() == 2 ==> appended.len() == 1 && appended[0] is ExponentialFunction,
        offsets.len() > 2 ==> {
            &&& appended.len() == offsets.len()
            &&& forall|i: int|
                0 <= i < offsets.len() - 1 ==> (#[trigger] appended[i]) is ExponentialFunction
            &&& appended.last() is StitchingFunction
            &&& appended.last()->StitchingFunction_bounds@.len() == offsets.len() - 2
            &&& appended.last()->StitchingFunction_functions@.len() == offsets.len() - 1
        },
{
    let k = offsets.len() as int;
    if k > 2 {
        assert forall|i: int| 0 <= i < k - 1 implies (#[trigger] appended[i])
            is ExponentialFunction by {
            assert(is_exp_fn(appended[i], n0 + 1 + i, chans[i], chans[i + 1], count));
        }
        assert(appended.last() == appended[k - 1]);
    }
}

/// The normalized description the shading compiler consumes: the
/// coordinate list (4 values for axial, 6 for radial), the shading kind,
/// the stop sequence, the gradient's own transform and its coordinate
/// system.
pub struct GradientProperties {
    pub coords: Vec<i64>,
    pub kind: ShadingKind,
    pub stops: Vec<GradientStop>,
    pub transform: Mat,
    pub units: Units,
}

pub open spec fn props_wf(p: GradientProperties) -> bool {
    &&& stops_wf(p.stops@)
    &&& mat_wf(p.transform)
}

/// The bounding-box normalization matrix: the unit-square-to-bbox map for
/// object-bounding-box units, the identity otherwise.
pub open spec fn bbox_or_identity(units: Units, bbox: Rect) -> Mat {
    if units == Units::ObjectBoundingBox {
        mat_from_rect_s(bbox)
    } else {
        mat_identity_s()
    }
}

/// The effective placement matrix of a shading pattern:
/// `accumulated ∘ bbox-normalization ∘ local`, in exactly that order.
pub open spec fn placement_matrix(acc: Mat, units: Units, bbox: Rect, local: Mat) -> Mat {
    mat_concat_s(mat_concat_s(acc, bbox_or_identity(units, bbox)), local)
}

/// The transform applied inside a soft-mask group's content stream:
/// `local ∘ bbox-normalization`.
pub open spec fn mask_matrix(units: Units, bbox: Rect, local: Mat) -> Mat {
    mat_concat_s(local, bbox_or_identity(units, bbox))
}

/// Some stop is translucent, so a soft mask is owed.
pub open spec fn has_low_opacity(s: Seq<GradientStop>) -> bool {
    exists|i: int| 0 <= i < s.len() && (#[trigger] s[i]).opacity < SCALE
}

/// Objects and references one interpolation function takes, after padding.
pub open spec fn icount_of(stops: Seq<GradientStop>) -> nat {
    interp_count(pad_stops_s(stops).len())
}

/// Objects and references one whole shading pattern takes: the pattern
/// object and its color function, plus the soft mask when owed.
pub open spec fn shading_allocs(stops: Seq<GradientStop>) -> nat {
    (if has_low_opacity(stops) {
        icount_of(stops) + 3
    } else {
        0
    }) + icount_of(stops) + 1
}

pub open spec fn is_shading_data(
    d: ShadingData,
    kind: ShadingKind,
    cs: ColorSpace,
    function: int,
    coords: Seq<i64>,
) -> bool {
    &&& d.kind == kind
    &&& d.color_space == cs
    &&& d.function == function
    &&& d.coords@ == coords
    &&& d.extend_start
    &&& d.extend_end
}

/// The binding a freshly registered pattern leaves in the current scope.
pub open spec fn pattern_entry(n0: int) -> ResEntry {
    ResEntry { name: ResName { kind: ResKind::Pattern, index: n0 as u64 }, target: n0 as u64 }
}

/// The soft-mask graphics-state name a gradient compilation returns when
/// one is owed, its reference counted from `n0`.
pub open spec fn mask_name_opt(stops: Seq<GradientStop>, n0: int) -> Option<ResName> {
    if has_low_opacity(stops) {
        Some(
            ResName {
                kind: ResKind::GraphicsState,
                index: (n0 + 3 + icount_of(stops)) as u64,
            },
        )
    } else {
        None
    }
}

/// The binding a freshly registered form XObject leaves in the current
/// scope.
pub open spec fn xobject_entry(id: int) -> ResEntry {
    ResEntry { name: ResName { kind: ResKind::XObject, index: id as u64 }, target: id as u64 }
}

/// The binding a soft mask's graphics state leaves in the current scope.
pub open spec fn gs_entry(id: int) -> ResEntry {
    ResEntry {
        name: ResName { kind: ResKind::GraphicsState, index: id as u64 },
        target: id as u64,
    }
}

/// What a soft-mask compilation appends, starting at reference `n1`: the
/// opacity interpolation graph, a grayscale shading, a luminosity
/// transparency-group form XObject sized to the canvas whose stream paints
/// that shading under the mask transform, and the graphics state that
/// installs the group as a luminosity soft mask.
pub open spec fn soft_mask_built(
    appended: Seq<PdfObject>,
    n1: int,
    kind: ShadingKind,
    coords: Seq<i64>,
    stops: Seq<GradientStop>,
    local: Mat,
    units: Units,
    bbox: Rect,
    canvas: Rect,
    compress: bool,
) -> bool {
    let ic = icount_of(stops) as int;
    &&& appended.len() == ic + 3
    &&& interp_built(
        appended.subrange(0, ic),
        n1 + 2,
        offsets_of(pad_stops_s(stops)),
        chans_of(pad_stops_s(stops), true),
        1,
    )
    &&& appended[ic] matches PdfObject::Shading { id, data } && id == n1 + 1 && is_shading_data(
        data,
        kind,
        ColorSpace::LuminosityGray,
        n1 + 2,
        coords,
    )
    &&& appended[ic + 1] matches PdfObject::FormXObject {
        id,
        content,
        resources,
        bbox: b,
        luminosity_group,
        compress: comp,
    } && id == n1 && content@ == seq![
        Op::ApplyTransform(mask_matrix(units, bbox, local)),
        Op::InvokeShading(ResName { kind: ResKind::Shading, index: (n1 + 1) as u64 }),
    ] && resources.entries@ == seq![
        (ResEntry {
            name: ResName { kind: ResKind::Shading, index: (n1 + 1) as u64 },
            target: (n1 + 1) as u64,
        }),
    ] && b == canvas && luminosity_group && comp == compress
    &&& appended[ic + 2] matches PdfObject::ExtGraphicsState { id, state } && id == n1 + 2 + ic
        && state == (GsData::SoftMaskLuminosity { group: n1 as u64 })
}

/// What one whole shading-pattern compilation appends, starting at
/// reference `n0`: the soft mask when owed, the color interpolation graph,
/// and last the shading pattern itself, carrying the sRGB shading and the
/// effective placement matrix.
pub open spec fn shading_pattern_output(
    appended: Seq<PdfObject>,
    n0: int,
    kind: ShadingKind,
    coords: Seq<i64>,
    stops: Seq<GradientStop>,
    local: Mat,
    units: Units,
    acc: Mat,
    bbox: Rect,
    canvas: Rect,
    compress: bool,
    name: ResName,
    mask: Option<ResName>,
) -> bool {
    let ic = icount_of(stops) as int;
    let low = has_low_opacity(stops);
    let base = if low {
        n0 + 4 + ic
    } else {
        n0 + 1
    };
    &&& name == (ResName { kind: ResKind::Pattern, index: n0 as u64 })
    &&& (mask is Some <==> low)
    &&& (low ==> mask == Some(ResName { kind: ResKind::GraphicsState, index: (n0 + 3 + ic) as u64 }))
    &&& appended.len() == shading_allocs(stops)
    &&& (low ==> soft_mask_built(
        appended.subrange(0, ic + 3),
        n0 + 1,
        kind,
        coords,
        stops,
        local,
        units,
        bbox,
        canvas,
        compress,
    ))
    &&& interp_built(
        appended.subrange(if low { ic + 3 } else { 0 }, appended.len() - 1),
        base,
        offsets_of(pad_stops_s(stops)),
        chans_of(pad_stops_s(stops), false),
        3,
    )
    &&& appended.last() matches PdfObject::ShadingPattern { id, data, matrix } && id == n0
        && is_shading_data(data, kind, ColorSpace::Srgb, base, coords) && matrix
        == placement_matrix(acc, units, bbox, local)
}

/// The exact scope update one shading-pattern compilation performs: the
/// innermost scope gains the soft-mask graphics-state binding when one is
/// owed, then the pattern binding, and nothing else.
pub open spec fn shading_scope_update(
    ov: Seq<Seq<ResEntry>>,
    n0: int,
    stops: Seq<GradientStop>,
) -> Seq<Seq<ResEntry>> {
    let with_mask = if has_low_opacity(stops) {
        ov.last().push(gs_entry(n0 + 3 + icount_of(stops)))
    } else {
        ov.last()
    };
    ov.update(ov.len() - 1, with_mask.push(pattern_entry(n0)))
}

/// Whether any stop is translucent.
fn has_translucent_stop(stops: &Vec<GradientStop>) -> (r: bool)
    ensures
        r == has_low_opacity(stops@),
{
    let n = stops.len();
    let mut i: usize = 0;
    while i < n
        invariant
            n == stops@.len(),
            i <= n,
            forall|j: int| 0 <= j < i ==> (#[trigger] stops@[j]).opacity >= SCALE,
        decreases n - i,
    {
        if stops[i].opacity < SCALE {
            return true;
        }
        i = i + 1;
    }
    false
}

pub(crate) fn copy_i64_vec(v: &Vec<i64>) -> (r: Vec<i64>)
    ensures
        r@ == v@,
{
    let n = v.len();
    let mut r: Vec<i64> = Vec::new();
    let mut i: usize = 0;
    while i < n
        invariant
            n == v@.len(),
            i <= n,
            r@ == v@.subrange(0, i as int),
        decreases n - i,
    {
        r.push(v[i]);
        proof {
            assert(r@ =~= v@.subrange(0, (i + 1) as int));
        }
        i = i + 1;
    }
    proof {
        assert(v@.subrange(0, n as int) =~= v@);
    }
    r
}

fn copy_stops(v: &Vec<GradientStop>) -> (r: Vec<GradientStop>)
    ensures
        r@ == v@,
{
    let n = v.len();
    let mut r: Vec<GradientStop> = Vec::new();
    let mut i: usize = 0;
    while i < n
        invariant
            n == v@.len(),
            i <= n,
            r@ == v@.subrange(0, i as int),
        decreases n - i,
    {
        r.push(v[i]);
        proof {
            assert(r@ =~= v@.subrange(0, (i + 1) as int));
        }
        i = i + 1;
    }
    proof {
        assert(v@.subrange(0, n as int) =~= v@);
    }
    r
}

/// Compile the luminosity soft mask for a gradient with translucent
/// stops: an opacity-channel shading rendered into a transparency group,
/// installed through an extended graphics state registered in the current
/// scope.
fn get_soft_mask(
    properties: &GradientProperties,
    parent_bbox: &Rect,
    writer: &mut Vec<PdfObject>,
    ctx: &mut Context,
) -> (r: ResName)
    requires
        ctx_wf(*old(ctx)),
        props_wf(*properties),
        rect_wf(*parent_bbox),
        old(ctx).deferrer.next_ref + properties.stops@.len() + 8 <= u64::MAX,
    ensures
        ctx_wf(*final(ctx)),
        r == (ResName {
            kind: ResKind::GraphicsState,
            index: (old(ctx).deferrer.next_ref + 2 + icount_of(properties.stops@)) as u64,
        }),
        final(ctx).deferrer.next_ref == old(ctx).deferrer.next_ref + 3 + icount_of(
            properties.stops@,
        ),
        scopes_view(final(ctx).deferrer) =~= scopes_view(old(ctx).deferrer).update(
            scopes_view(old(ctx).deferrer).len() - 1,
            scopes_view(old(ctx).deferrer).last().push(
                gs_entry(old(ctx).deferrer.next_ref + 2 + icount_of(properties.stops@) as int),
            ),
        ),
        final(ctx).frame == old(ctx).frame,
        final(ctx).canvas == old(ctx).canvas,
        final(ctx).compress == old(ctx).compress,
        final(writer)@.len() == old(writer)@.len() + icount_of(properties.stops@) + 3,
        final(writer)@.subrange(0, old(writer)@.len() as int) == old(writer)@,
        soft_mask_built(
            final(writer)@.skip(old(writer)@.len() as int),
            old(ctx).deferrer.next_ref as int,
            properties.kind,
            properties.coords@,
            properties.stops@,
            properties.transform,
            properties.units,
            *parent_bbox,
            old(ctx).canvas,
            old(ctx).compress,
        ),
{
    let ghost n1 = old(ctx).deferrer.next_ref as int;
    let ghost om = old(writer)@.len() as int;
    let ghost ov = scopes_view(old(ctx).deferrer);
    ctx.deferrer.push();
    let x_object_id = ctx.alloc_ref();
    let shading_ref = ctx.alloc_ref();
    let shading_name = ctx.deferrer.add_shading(shading_ref);
    let bbox = ctx.canvas;
    let bbox_m = if properties.units == Units::ObjectBoundingBox {
        Mat::from_rect(parent_bbox)
    } else {
        Mat::identity()
    };
    let transform = properties.transform.concat(&bbox_m);
    let shading_function_ref = get_function(&properties.stops, writer, ctx, true);
    let ghost ic = icount_of(properties.stops@) as int;
    let coords = copy_i64_vec(&properties.coords);
    let data = ShadingData {
        kind: properties.kind,
        color_space: ColorSpace::LuminosityGray,
        function: shading_function_ref,
        coords,
        extend_start: true,
        extend_end: true,
    };
    let ghost w1 = writer@;
    writer.push(PdfObject::Shading { id: shading_ref, data });
    let mut content: Vec<Op> = Vec::new();
    content.push(Op::ApplyTransform(transform));
    content.push(Op::InvokeShading(shading_name));
    let mut resources = ResourceDict { entries: Vec::new() };
    ctx.deferrer.pop(&mut resources);
    let ghost w2 = writer@;
    let x_object = PdfObject::FormXObject {
        id: x_object_id,
        content,
        resources,
        bbox,
        luminosity_group: true,
        compress: ctx.compress,
    };
    writer.push(x_object);
    let gs_ref = ctx.alloc_ref();
    let ghost w3 = writer@;
    writer.push(
        PdfObject::ExtGraphicsState {
            id: gs_ref,
            state: GsData::SoftMaskLuminosity { group: x_object_id },
        },
    );
    proof {
        let lastv = ov.last();
        assert(entries_below(lastv, old(ctx).deferrer.next_ref));
        assert(!scope_has_index(scopes_view(ctx.deferrer).last(), gs_ref)) by {
            if scope_has_index(scopes_view(ctx.deferrer).last(), gs_ref) {
                let i = choose|i: int|
                    0 <= i < scopes_view(ctx.deferrer).last().len() && (#[trigger] scopes_view(
                        ctx.deferrer,
                    ).last()[i]).name.index == gs_ref;
                assert(scopes_view(ctx.deferrer).last()[i].name.index < old(
                    ctx,
                ).deferrer.next_ref);
            }
        }
    }
    let name = ctx.deferrer.add_graphics_state(gs_ref);
    proof {
        assert(writer@.subrange(0, om) =~= old(writer)@);
        let appended = writer@.skip(om);
        assert(appended.len() == ic + 3);
        assert forall|m: int| 0 <= m < ic implies appended[m] == w1.skip(om)[m] by {
            assert(appended[m] == writer@[om + m]);
            assert(writer@[om + m] == w1[om + m]);
        }
        assert(appended.subrange(0, ic) =~= w1.skip(om));
        assert(appended[ic] == w2[om + ic]);
        assert(appended[ic] == w1.push(writer@[om + ic])[om + ic]);
        assert(appended[ic + 1] == w3[om + ic + 1]);
        assert(content@ =~= seq![
            Op::ApplyTransform(mask_matrix(properties.units, *parent_bbox, properties.transform)),
            Op::InvokeShading(ResName { kind: ResKind::Shading, index: (n1 + 1) as u64 }),
        ]);
        assert(resources.entries@ =~= seq![
            (ResEntry {
                name: ResName { kind: ResKind::Shading, index: (n1 + 1) as u64 },
                target: (n1 + 1) as u64,
            }),
        ]);
        assert(appended[ic + 2] == writer@.last());
        assert(scopes_view(ctx.deferrer) =~= ov.update(
            ov.len() - 1,
            ov.last().push(gs_entry(n1 + 2 + ic)),
        ));
    }
    name
}

/// Compile a gradient description into a shading pattern registered in the
/// current scope, together with the soft mask its translucent stops owe.
pub fn create_shading_pattern(
    properties: &GradientProperties,
    parent_bbox: &Rect,
    writer: &mut Vec<PdfObject>,
    ctx: &mut Context,
    accumulated_transform: &Mat,
) -> (r: (ResName, Option<ResName>))
    requires
        ctx_wf(*old(ctx)),
        props_wf(*properties),
        rect_wf(*parent_bbox),
        mat_wf(*accumulated_transform),
        old(ctx).deferrer.next_ref + 2 * properties.stops@.len() + 16 <= u64::MAX,
    ensures
        ctx_wf(*final(ctx)),
        final(ctx).deferrer.next_ref == old(ctx).deferrer.next_ref + shading_allocs(
            properties.stops@,
        ),
        final(ctx).frame == old(ctx).frame,
        final(ctx).canvas == old(ctx).canvas,
        final(ctx).compress == old(ctx).compress,
        scopes_extended_ge(
            scopes_view(old(ctx).deferrer),
            scopes_view(final(ctx).deferrer),
            old(ctx).deferrer.next_ref,
        ),
        scopes_view(final(ctx).deferrer) == shading_scope_update(
            scopes_view(old(ctx).deferrer),
            old(ctx).deferrer.next_ref as int,
            properties.stops@,
        ),
        final(writer)@.len() == old(writer)@.len() + shading_allocs(properties.stops@),
        final(writer)@.subrange(0, old(writer)@.len() as int) == old(writer)@,
        shading_pattern_output(
            final(writer)@.skip(old(writer)@.len() as int),
            old(ctx).deferrer.next_ref as int,
            properties.kind,
            properties.coords@,
            properties.stops@,
            properties.transform,
            properties.units,
            *accumulated_transform,
            *parent_bbox,
            old(ctx).canvas,
            old(ctx).compress,
            r.0,
            r.1,
        ),
{
    let ghost n0 = old(ctx).deferrer.next_ref as int;
    let ghost om = old(writer)@.len() as int;
    let ghost ov = scopes_view(old(ctx).deferrer);
    let ghost ic = icount_of(properties.stops@) as int;
    let pattern_ref = ctx.alloc_ref();
    let low = has_translucent_stop(&properties.stops);
    let soft_mask: Option<ResName> = if low {
        Some(get_soft_mask(properties, parent_bbox, writer, ctx))
    } else {
        None
    };
    let ghost w1 = writer@;
    let bbox_m = if properties.units == Units::ObjectBoundingBox {
        Mat::from_rect(parent_bbox)
    } else {
        Mat::identity()
    };
    let matrix = accumulated_transform.concat(&bbox_m).concat(&properties.transform);
    let shading_function_ref = get_function(&properties.stops, writer, ctx, false);
    let ghost w2 = writer@;
    let coords = copy_i64_vec(&properties.coords);
    let data = ShadingData {
        kind: properties.kind,
        color_space: ColorSpace::Srgb,
        function: shading_function_ref,
        coords,
        extend_start: true,
        extend_end: true,
    };
    writer.push(PdfObject::ShadingPattern { id: pattern_ref, data, matrix });
    proof {
        assert(entries_below(ov.last(), old(ctx).deferrer.next_ref));
        assert(!scope_has_index(scopes_view(ctx.deferrer).last(), pattern_ref)) by {
            if scope_has_index(scopes_view(ctx.deferrer).last(), pattern_ref) {
                let i = choose|i: int|
                    0 <= i < scopes_view(ctx.deferrer).last().len() && (#[trigger] scopes_view(
                        ctx.deferrer,
                    ).last()[i]).name.index == pattern_ref;
                if low {
                    let mv = ov.update(ov.len() - 1, ov.last().push(gs_entry(n0 + 3 + ic)));
                    assert(scopes_view(ctx.deferrer).last() == mv.last());
                }
            }
        }
    }
    let name = ctx.deferrer.add_pattern(pattern_ref);
    proof {
        assert(writer@.subrange(0, om) =~= old(writer)@);
        let appended = writer@.skip(om);
        if low {
            assert(appended.len() == 2 * ic + 4);
            assert forall|m: int| 0 <= m < ic + 3 implies appended[m] == w1.skip(om)[m] by {
                assert(appended[m] == writer@[om + m]);
                assert(writer@[om + m] == w2[om + m]);
                assert(w2[om + m] == w1[om + m]);
            }
            assert(appended.subrange(0, ic + 3) =~= w1.skip(om));
            assert forall|m: int| 0 <= m < ic implies #[trigger] appended[ic + 3 + m] == w2.skip(
                om + ic + 3,
            )[m] by {
                assert(appended[ic + 3 + m] == writer@[om + ic + 3 + m]);
                assert(writer@[om + ic + 3 + m] == w2[om + ic + 3 + m]);
            }
            assert(appended.subrange(ic + 3, appended.len() - 1) =~= w2.skip(om + ic + 3));
        } else {
            assert(appended.len() == ic + 1);
            assert forall|m: int| 0 <= m < ic implies appended[m] == w2.skip(om)[m] by {
                assert(appended[m] == writer@[om + m]);
                assert(writer@[om + m] == w2[om + m]);
            }
            assert(appended.subrange(0, appended.len() - 1) =~= w2.skip(om));
        }
        assert(appended.last() == writer@.last());
        let fv = scopes_view(ctx.deferrer);
        assert(scopes_extended_ge(ov, fv, old(ctx).deferrer.next_ref)) by {
            if low {
                let mv = ov.update(ov.len() - 1, ov.last().push(gs_entry(n0 + 3 + ic)));
                assert(fv =~= ov.update(
                    ov.len() - 1,
                    ov.last().push(gs_entry(n0 + 3 + ic)).push(pattern_entry(n0)),
                ));
                assert(ov.last().is_prefix_of(fv.last()));
            } else {
                assert(fv =~= ov.update(ov.len() - 1, ov.last().push(pattern_entry(n0))));
                assert(ov.last().is_prefix_of(fv.last()));
            }
        }
    }
    (name, soft_mask)
}

/// Normalize an axial gradient — coordinates `(x1, y1, x2, y2)` — and
/// compile it into a shading pattern.
fn create_linear_gradient(
    gradient: &LinearGradientDef,
    parent_bbox: &Rect,
    writer: &mut Vec<PdfObject>,
    ctx: &mut Context,
    accumulated_transform: &Mat,
) -> (r: (ResName, Option<ResName>))
    requires
        ctx_wf(*old(ctx)),
        linear_gradient_wf(*gradient),
        rect_wf(*parent_bbox),
        mat_wf(*accumulated_transform),
        old(ctx).deferrer.next_ref + 2 * gradient.stops@.len() + 16 <= u64::MAX,
    ensures
        ctx_wf(*final(ctx)),
        final(ctx).deferrer.next_ref == old(ctx).deferrer.next_ref + shading_allocs(
            gradient.stops@,
        ),
        final(ctx).frame == old(ctx).frame,
        final(ctx).canvas == old(ctx).canvas,
        final(ctx).compress == old(ctx).compress,
        scopes_extended_ge(
            scopes_view(old(ctx).deferrer),
            scopes_view(final(ctx).deferrer),
            old(ctx).deferrer.next_ref,
        ),
        scopes_view(final(ctx).deferrer) == shading_scope_update(
            scopes_view(old(ctx).deferrer),
            old(ctx).deferrer.next_ref as int,
            gradient.stops@,
        ),
        final(writer)@.len() == old(writer)@.len() + shading_allocs(gradient.stops@),
        final(writer)@.subrange(0, old(writer)@.len() as int) == old(writer)@,
        shading_pattern_output(
            final(writer)@.skip(old(writer)@.len() as int),
            old(ctx).deferrer.next_ref as int,
            ShadingKind::Axial,
            seq![gradient.x1, gradient.y1, gradient.x2, gradient.y2],
            gradient.stops@,
            gradient.transform,
            gradient.units,
            *accumulated_transform,
            *parent_bbox,
            old(ctx).canvas,
            old(ctx).compress,
            r.0,
            r.1,
        ),
{
    let mut coords: Vec<i64> = Vec::new();
    coords.push(gradient.x1);
    coords.push(gradient.y1);
    coords.push(gradient.x2);
    coords.push(gradient.y2);
    proof {
        assert(coords@ =~= seq![gradient.x1, gradient.y1, gradient.x2, gradient.y2]);
    }
    let properties = GradientProperties {
        coords,
        kind: ShadingKind::Axial,
        stops: copy_stops(&gradient.stops),
        transform: gradient.transform,
        units: gradient.units,
    };
    create_shading_pattern(&properties, parent_bbox, writer, ctx, accumulated_transform)
}

/// Normalize a radial gradient — coordinates `(fx, fy, 0, cx, cy, r)`,
/// the focal radius always zero in the two-circle model — and compile it.
fn create_radial_gradient(
    gradient: &RadialGradientDef,
    parent_bbox: &Rect,
    writer: &mut Vec<PdfObject>,
    ctx: &mut Context,
    accumulated_transform: &Mat,
) -> (r: (ResName, Option<ResName>))
    requires
        ctx_wf(*old(ctx)),
        radial_gradient_wf(*gradient),
        rect_wf(*parent_bbox),
        mat_wf(*accumulated_transform),
        old(ctx).deferrer.next_ref + 2 * gradient.stops@.len() + 16 <= u64::MAX,
    ensures
        ctx_wf(*final(ctx)),
        final(ctx).deferrer.next_ref == old(ctx).deferrer.next_ref + shading_allocs(
            gradient.stops@,
        ),
        final(ctx).frame == old(ctx).frame,
        final(ctx).canvas == old(ctx).canvas,
        final(ctx).compress == old(ctx).compress,
        scopes_extended_ge(
            scopes_view(old(ctx).deferrer),
            scopes_view(final(ctx).deferrer),
            old(ctx).deferrer.next_ref,
        ),
        scopes_view(final(ctx).deferrer) == shading_scope_update(
            scopes_view(old(ctx).deferrer),
            old(ctx).deferrer.next_ref as int,
            gradient.stops@,
        ),
        final(writer)@.len() == old(writer)@.len() + shading_allocs(gradient.stops@),
        final(writer)@.subrange(0, old(writer)@.len() as int) == old(writer)@,
        shading_pattern_output(
            final(writer)@.skip(old(writer)@.len() as int),
            old(ctx).deferrer.next_ref as int,
            ShadingKind::Radial,
            seq![gradient.fx, gradient.fy, 0i64, gradient.cx, gradient.cy, gradient.r],
            gradient.stops@,
            gradient.transform,
            gradient.units,
            *accumulated_transform,
            *parent_bbox,
            old(ctx).canvas,
            old(ctx).compress,
            r.0,
            r.1,
        ),
{
    let mut coords: Vec<i64> = Vec::new();
    coords.push(gradient.fx);
    coords.push(gradient.fy);
    coords.push(0);
    coords.push(gradient.cx);
    coords.push(gradient.cy);
    coords.push(gradient.r);
    proof {
        assert(coords@ =~= seq![
            gradient.fx,
            gradient.fy,
            0i64,
            gradient.cx,
            gradient.cy,
            gradient.r,
        ]);
    }
    let properties = GradientProperties {
        coords,
        kind: ShadingKind::Radial,
        stops: copy_stops(&gradient.stops),
        transform: gradient.transform,
        units: gradient.units,
    };
    create_shading_pattern(&properties, parent_bbox, writer, ctx, accumulated_transform)
}

/// Compile a gradient paint into a shading pattern usable as a fill,
/// returning its name and, when any stop is translucent, the name of the
/// soft-mask graphics state registered beside it. Non-gradient paints
/// yield `None` and leave everything untouched.
pub fn create(
    paint: &Paint,
    parent_bbox: &Rect,
    writer: &mut Vec<PdfObject>,
    ctx: &mut Context,
    accumulated_transform: &Mat,
) -> (r: Option<(ResName, Option<ResName>)>)
    requires
        ctx_wf(*old(ctx)),
        crate::scene::paint_wf(*paint),
        rect_wf(*parent_bbox),
        mat_wf(*accumulated_transform),
        old(ctx).deferrer.next_ref + crate::scene::paint_cost(*paint) <= u64::MAX,
    ensures
        ctx_wf(*final(ctx)),
        r is Some <==> (*paint matches Paint::LinearGradient(_) || *paint
            matches Paint::RadialGradient(_)),
        final(ctx).frame == old(ctx).frame,
        final(ctx).canvas == old(ctx).canvas,
        final(ctx).compress == old(ctx).compress,
        final(ctx).deferrer.next_ref >= old(ctx).deferrer.next_ref,
        scopes_extended_ge(
            scopes_view(old(ctx).deferrer),
            scopes_view(final(ctx).deferrer),
            old(ctx).deferrer.next_ref,
        ),
        final(writer)@.subrange(0, old(writer)@.len() as int) == old(writer)@,
        (*paint matches Paint::Solid(_) || *paint matches Paint::Tiling(_)) ==> *final(ctx)
            == *old(ctx) && final(writer)@ == old(writer)@ && r is None,
        *paint matches Paint::LinearGradient(g) ==> r matches Some(rr) && shading_pattern_output(
            final(writer)@.skip(old(writer)@.len() as int),
            old(ctx).deferrer.next_ref as int,
            ShadingKind::Axial,
            seq![g.x1, g.y1, g.x2, g.y2],
            g.stops@,
            g.transform,
            g.units,
            *accumulated_transform,
            *parent_bbox,
            old(ctx).canvas,
            old(ctx).compress,
            rr.0,
            rr.1,
        ) && final(ctx).deferrer.next_ref == old(ctx).deferrer.next_ref + shading_allocs(g.stops@)
            && final(writer)@.len() == old(writer)@.len() + shading_allocs(g.stops@)
            && scopes_view(final(ctx).deferrer) == shading_scope_update(
            scopes_view(old(ctx).deferrer),
            old(ctx).deferrer.next_ref as int,
            g.stops@,
        ),
        *paint matches Paint::RadialGradient(g) ==> r matches Some(rr) && shading_pattern_output(
            final(writer)@.skip(old(writer)@.len() as int),
            old(ctx).deferrer.next_ref as int,
            ShadingKind::Radial,
            seq![g.fx, g.fy, 0i64, g.cx, g.cy, g.r],
            g.stops@,
            g.transform,
            g.units,
            *accumulated_transform,
            *parent_bbox,
            old(ctx).canvas,
            old(ctx).compress,
            rr.0,
            rr.1,
        ) && final(ctx).deferrer.next_ref == old(ctx).deferrer.next_ref + shading_allocs(g.stops@)
            && final(writer)@.len() == old(writer)@.len() + shading_allocs(g.stops@)
            && scopes_view(final(ctx).deferrer) == shading_scope_update(
            scopes_view(old(ctx).deferrer),
            old(ctx).deferrer.next_ref as int,
            g.stops@,
        ),
{
    match paint {
        Paint::LinearGradient(l) => {
            let rr = create_linear_gradient(l, parent_bbox, writer, ctx, accumulated_transform);
            Some(rr)
        },
        Paint::RadialGradient(rg) => {
            let rr = create_radial_gradient(rg, parent_bbox, writer, ctx, accumulated_transform);
            Some(rr)
        },
        _ => {
            proof {
                let v = scopes_view(ctx.deferrer);
                assert(v.last().subrange(0, v.last().len() as int) =~= v.last());
                assert(writer@.subrange(0, writer@.len() as int) =~= writer@);
            }
            None
        },
    }
}

} // verus!
