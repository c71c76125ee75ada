use svg2pdf::context::Context;
use svg2pdf::fixed::SCALE;
use svg2pdf::geom::{Mat, Rect};
use svg2pdf::gradient::create;
use svg2pdf::group::render_node;
use svg2pdf::object::{ColorSpace, GsData, Op, PdfObject, ResKind, ResourceDict, ShadingKind};
use svg2pdf::path::{create_pattern, render, RenderError};
use svg2pdf::scene::{
    Fill, FillRule, GradientStop, Group, LinearGradientDef, Node, Paint, Path, PatternDef,
    RadialGradientDef, Rgb, Segment, Units,
};

fn ident() -> Mat {
    Mat { sx: SCALE, ky: 0, kx: 0, sy: SCALE, tx: 0, ty: 0 }
}

fn unit_square() -> Rect {
    Rect { x: 0, y: 0, w: SCALE, h: SCALE }
}

fn stop(offset: i64, r: u8, g: u8, b: u8, opacity: i64) -> GradientStop {
    GradientStop { offset, color: Rgb { r, g, b }, opacity }
}

fn fresh_ctx() -> Context {
    Context::new(unit_square(), false)
}

fn linear(stops: Vec<GradientStop>, units: Units) -> LinearGradientDef {
    LinearGradientDef { x1: 0, y1: 0, x2: SCALE, y2: 0, stops, transform: ident(), units }
}

fn square_path(fill: Option<Fill>) -> Path {
    Path {
        transform: ident(),
        visible: true,
        segments: vec![
            Segment::MoveTo(0, 0),
            Segment::LineTo(SCALE, 0),
            Segment::LineTo(SCALE, SCALE),
            Segment::LineTo(0, SCALE),
            Segment::Close,
        ],
        stroke: None,
        fill,
    }
}

fn default_stroke(paint: Paint) -> svg2pdf::scene::Stroke {
    svg2pdf::scene::Stroke {
        paint,
        width: SCALE,
        miter_limit: 4 * SCALE,
        line_cap: svg2pdf::scene::LineCap::Butt,
        line_join: svg2pdf::scene::LineJoin::Miter,
        dash_array: None,
        dash_offset: 0,
        opacity: SCALE,
    }
}

fn empty_pattern() -> PatternDef {
    PatternDef {
        root: Group { transform: ident(), children: vec![] },
        rect: unit_square(),
        view_box_transform: None,
        transform: ident(),
    }
}

#[test]
fn normalized_stops_get_no_padding() {
    // A sequence already spanning [0, 1] needs no padding and is compiled
    // as-is, so two stops yield exactly one exponential function.
    let g = linear(vec![stop(0, 255, 0, 0, SCALE), stop(SCALE, 0, 0, 255, SCALE)], Units::UserSpace);
    let mut writer: Vec<PdfObject> = Vec::new();
    let mut ctx = fresh_ctx();
    create(&Paint::LinearGradient(g), &unit_square(), &mut writer, &mut ctx, &ident()).unwrap();
    assert_eq!(writer.len(), 2);
    assert!(matches!(writer[0], PdfObject::ExponentialFunction { .. }));
}

#[test]
fn unnormalized_stops_are_padded_at_both_ends() {
    // Offsets (0.25, 0.75) are padded to (0, 0.25, 0.75, 1), giving three
    // exponential segments stitched with the interior bounds.
    let g = linear(
        vec![stop(250_000, 255, 0, 0, SCALE), stop(750_000, 0, 0, 255, SCALE)],
        Units::UserSpace,
    );
    let mut writer: Vec<PdfObject> = Vec::new();
    let mut ctx = fresh_ctx();
    create(&Paint::LinearGradient(g), &unit_square(), &mut writer, &mut ctx, &ident()).unwrap();
    // 3 exponentials + 1 stitching + 1 shading pattern
    assert_eq!(writer.len(), 5);
    match &writer[3] {
        PdfObject::StitchingFunction { bounds, functions, .. } => {
            assert_eq!(bounds, &vec![250_000, 750_000]);
            assert_eq!(functions.len(), 3);
        },
        _ => panic!("expected a stitching function"),
    }
    // padding kept the extreme colors flat: first segment is red-to-red
    match &writer[0] {
        PdfObject::ExponentialFunction { c0, c1, .. } => {
            assert_eq!(c0, &vec![SCALE, 0, 0]);
            assert_eq!(c1, &vec![SCALE, 0, 0]);
        },
        _ => panic!("expected an exponential function"),
    }
}

#[test]
fn two_stop_dispatch_builds_one_exponential() {
    // Two stops yield exactly one exponential function and no stitching.
    let g = linear(vec![stop(0, 255, 0, 0, SCALE), stop(SCALE, 0, 0, 255, SCALE)], Units::UserSpace);
    let mut writer: Vec<PdfObject> = Vec::new();
    let mut ctx = fresh_ctx();
    create(&Paint::LinearGradient(g), &unit_square(), &mut writer, &mut ctx, &ident()).unwrap();
    let exp_count = writer
        .iter()
        .filter(|o| matches!(o, PdfObject::ExponentialFunction { .. }))
        .count();
    let stitch_count = writer
        .iter()
        .filter(|o| matches!(o, PdfObject::StitchingFunction { .. }))
        .count();
    assert_eq!(exp_count, 1);
    assert_eq!(stitch_count, 0);
}

#[test]
fn multi_stop_dispatch_builds_stitched_segments() {
    // Four stops yield three exponential sub-functions and two interior bounds.
    let g = linear(
        vec![
            stop(0, 255, 0, 0, SCALE),
            stop(250_000, 0, 255, 0, SCALE),
            stop(750_000, 0, 0, 255, SCALE),
            stop(SCALE, 255, 255, 255, SCALE),
        ],
        Units::UserSpace,
    );
    let mut writer: Vec<PdfObject> = Vec::new();
    let mut ctx = fresh_ctx();
    create(&Paint::LinearGradient(g), &unit_square(), &mut writer, &mut ctx, &ident()).unwrap();
    let exp_count = writer
        .iter()
        .filter(|o| matches!(o, PdfObject::ExponentialFunction { .. }))
        .count();
    assert_eq!(exp_count, 3);
    match &writer[3] {
        PdfObject::StitchingFunction { bounds, functions, encode, .. } => {
            assert_eq!(bounds, &vec![250_000, 750_000]);
            assert_eq!(functions.len(), 3);
            assert_eq!(encode, &vec![0, SCALE, 0, SCALE, 0, SCALE]);
        },
        _ => panic!("expected a stitching function"),
    }
}

#[test]
fn channel_counts_share_one_function_shape() {
    // With a translucent stop, the opacity (1-channel) and
    // color (3-channel) graphs have the same structure: same segment
    // count, same bounds, same encode; only ranges and payloads differ.
    let g = linear(
        vec![
            stop(0, 255, 0, 0, SCALE),
            stop(500_000, 0, 255, 0, 500_000),
            stop(SCALE, 0, 0, 255, SCALE),
        ],
        Units::UserSpace,
    );
    let mut writer: Vec<PdfObject> = Vec::new();
    let mut ctx = fresh_ctx();
    create(&Paint::LinearGradient(g), &unit_square(), &mut writer, &mut ctx, &ident()).unwrap();
    let mut stitches = Vec::new();
    for o in &writer {
        if let PdfObject::StitchingFunction { bounds, functions, encode, domain, range, .. } = o {
            stitches.push((bounds.clone(), functions.len(), encode.clone(), domain.clone(), range.len()));
        }
    }
    assert_eq!(stitches.len(), 2);
    let (b1, f1, e1, d1, r1) = &stitches[0];
    let (b2, f2, e2, d2, r2) = &stitches[1];
    assert_eq!(b1, b2);
    assert_eq!(f1, f2);
    assert_eq!(e1, e2);
    assert_eq!(d1, d2);
    // ranges differ only in channel count: 1 pair vs 3 pairs
    assert_eq!(*r1, 2);
    assert_eq!(*r2, 6);
}

#[test]
fn object_bbox_matrix_composes_in_order() {
    // The effective matrix is accumulated ∘ bbox-normalization ∘ local,
    // checked against the hand-computed value for a concrete triple.
    let bbox = Rect { x: 2_000_000, y: 3_000_000, w: 4_000_000, h: 5_000_000 };
    let local = Mat { sx: 2_000_000, ky: 0, kx: 0, sy: SCALE, tx: SCALE, ty: 0 };
    let acc = Mat { sx: SCALE, ky: 0, kx: 0, sy: SCALE, tx: 7_000_000, ty: 0 };
    let g = LinearGradientDef {
        x1: 0,
        y1: 0,
        x2: SCALE,
        y2: 0,
        stops: vec![stop(0, 255, 0, 0, SCALE), stop(SCALE, 0, 0, 255, SCALE)],
        transform: local,
        units: Units::ObjectBoundingBox,
    };
    let mut writer: Vec<PdfObject> = Vec::new();
    let mut ctx = fresh_ctx();
    create(&Paint::LinearGradient(g), &bbox, &mut writer, &mut ctx, &acc).unwrap();
    let expected = Mat {
        sx: 8_000_000,
        ky: 0,
        kx: 0,
        sy: 5_000_000,
        tx: 13_000_000,
        ty: 3_000_000,
    };
    match &writer[1] {
        PdfObject::ShadingPattern { matrix, .. } => assert_eq!(*matrix, expected),
        _ => panic!("expected a shading pattern"),
    }
    // reordering any two factors changes the result for this triple
    let bbox_m = Mat::from_rect(&bbox);
    let in_order = acc.concat(&bbox_m).concat(&local);
    assert_eq!(in_order, expected);
    assert!(acc.concat(&local).concat(&bbox_m) != expected);
    assert!(bbox_m.concat(&acc).concat(&local) != expected);
}

#[test]
fn opaque_stops_yield_no_mask() {
    // All stop opacities exactly 1: no soft mask.
    let g = linear(vec![stop(0, 255, 0, 0, SCALE), stop(SCALE, 0, 0, 255, SCALE)], Units::UserSpace);
    let mut writer: Vec<PdfObject> = Vec::new();
    let mut ctx = fresh_ctx();
    let (_, mask) =
        create(&Paint::LinearGradient(g), &unit_square(), &mut writer, &mut ctx, &ident()).unwrap();
    assert!(mask.is_none());
}

#[test]
fn translucent_stop_yields_mask() {
    // Any stop opacity below 1: a soft-mask graphics state is produced.
    let g = linear(
        vec![stop(0, 255, 0, 0, SCALE), stop(SCALE, 0, 0, 255, 500_000)],
        Units::UserSpace,
    );
    let mut writer: Vec<PdfObject> = Vec::new();
    let mut ctx = fresh_ctx();
    let (_, mask) =
        create(&Paint::LinearGradient(g), &unit_square(), &mut writer, &mut ctx, &ident()).unwrap();
    let mask = mask.unwrap();
    assert_eq!(mask.kind, ResKind::GraphicsState);
}

#[test]
fn two_stop_linear_gradient_end_to_end() {
    // A red-to-blue axial gradient in object-bounding-box units over the
    // unit square yields one shading pattern, axial, coords (0,0,1,0),
    // and one exponential function from pure red to pure blue; no mask.
    let g = linear(
        vec![stop(0, 255, 0, 0, SCALE), stop(SCALE, 0, 0, 255, SCALE)],
        Units::ObjectBoundingBox,
    );
    let mut writer: Vec<PdfObject> = Vec::new();
    let mut ctx = fresh_ctx();
    let (name, mask) =
        create(&Paint::LinearGradient(g), &unit_square(), &mut writer, &mut ctx, &ident()).unwrap();
    assert!(mask.is_none());
    assert_eq!(name.kind, ResKind::Pattern);
    assert_eq!(writer.len(), 2);
    match &writer[0] {
        PdfObject::ExponentialFunction { c0, c1, domain, n, .. } => {
            assert_eq!(c0, &vec![SCALE, 0, 0]);
            assert_eq!(c1, &vec![0, 0, SCALE]);
            assert_eq!(domain, &vec![0, SCALE]);
            assert_eq!(*n, SCALE);
        },
        _ => panic!("expected an exponential function"),
    }
    match &writer[1] {
        PdfObject::ShadingPattern { data, .. } => {
            assert_eq!(data.kind, ShadingKind::Axial);
            assert_eq!(data.color_space, ColorSpace::Srgb);
            assert_eq!(data.coords, vec![0, 0, SCALE, 0]);
            assert!(data.extend_start && data.extend_end);
        },
        _ => panic!("expected a shading pattern"),
    }
}

#[test]
fn translucent_gradient_end_to_end() {
    // The same gradient with the second stop at opacity 0.5 also
    // produces a grayscale shading with an exponential function from 1.0
    // to 0.5, a luminosity form XObject, and a soft-mask graphics state,
    // all merged into the element's resource dictionary.
    let g = linear(
        vec![stop(0, 255, 0, 0, SCALE), stop(SCALE, 0, 0, 255, 500_000)],
        Units::ObjectBoundingBox,
    );
    let mut writer: Vec<PdfObject> = Vec::new();
    let mut ctx = fresh_ctx();
    let (name, mask) =
        create(&Paint::LinearGradient(g), &unit_square(), &mut writer, &mut ctx, &ident()).unwrap();
    let mask = mask.unwrap();
    assert_eq!(writer.len(), 6);
    match &writer[0] {
        PdfObject::ExponentialFunction { c0, c1, .. } => {
            assert_eq!(c0, &vec![SCALE]);
            assert_eq!(c1, &vec![500_000]);
        },
        _ => panic!("expected the opacity function"),
    }
    match &writer[1] {
        PdfObject::Shading { data, .. } => {
            assert_eq!(data.color_space, ColorSpace::LuminosityGray);
            assert_eq!(data.kind, ShadingKind::Axial);
        },
        _ => panic!("expected the grayscale shading"),
    }
    let group_id = match &writer[2] {
        PdfObject::FormXObject { id, luminosity_group, resources, content, .. } => {
            assert!(*luminosity_group);
            assert_eq!(resources.entries.len(), 1);
            assert_eq!(resources.entries[0].name.kind, ResKind::Shading);
            assert_eq!(content.len(), 2);
            assert!(matches!(content[1], Op::InvokeShading(_)));
            *id
        },
        _ => panic!("expected the luminosity group"),
    };
    match &writer[3] {
        PdfObject::ExtGraphicsState { state, .. } => {
            assert_eq!(*state, GsData::SoftMaskLuminosity { group: group_id });
        },
        _ => panic!("expected the soft-mask graphics state"),
    }
    assert!(matches!(&writer[4], PdfObject::ExponentialFunction { .. }));
    assert!(matches!(&writer[5], PdfObject::ShadingPattern { .. }));
    // both names end up in the element's resource dictionary, distinct
    let mut dict = ResourceDict { entries: Vec::new() };
    ctx.deferrer.finish(&mut dict);
    assert_eq!(dict.entries.len(), 2);
    assert!(dict.entries.iter().any(|e| e.name == mask));
    assert!(dict.entries.iter().any(|e| e.name == name));
    assert!(dict.entries[0].name != dict.entries[1].name);
}

#[test]
fn radial_gradient_carries_zero_focal_radius() {
    let g = RadialGradientDef {
        fx: 100_000,
        fy: 200_000,
        cx: 300_000,
        cy: 400_000,
        r: 500_000,
        stops: vec![stop(0, 255, 0, 0, SCALE), stop(SCALE, 0, 0, 255, SCALE)],
        transform: ident(),
        units: Units::UserSpace,
    };
    let mut writer: Vec<PdfObject> = Vec::new();
    let mut ctx = fresh_ctx();
    create(&Paint::RadialGradient(g), &unit_square(), &mut writer, &mut ctx, &ident()).unwrap();
    match &writer[1] {
        PdfObject::ShadingPattern { data, .. } => {
            assert_eq!(data.kind, ShadingKind::Radial);
            assert_eq!(data.coords, vec![100_000, 200_000, 0, 300_000, 400_000, 500_000]);
        },
        _ => panic!("expected a shading pattern"),
    }
}

#[test]
fn solid_paint_is_no_gradient() {
    let mut writer: Vec<PdfObject> = Vec::new();
    let mut ctx = fresh_ctx();
    let r = create(
        &Paint::Solid(Rgb { r: 1, g: 2, b: 3 }),
        &unit_square(),
        &mut writer,
        &mut ctx,
        &ident(),
    );
    assert!(r.is_none());
    assert!(writer.is_empty());
}

#[test]
fn color_bytes_scale_into_fixed_point_channels() {
    let g = linear(
        vec![stop(0, 128, 0, 255, SCALE), stop(SCALE, 0, 0, 0, SCALE)],
        Units::UserSpace,
    );
    let mut writer: Vec<PdfObject> = Vec::new();
    let mut ctx = fresh_ctx();
    create(&Paint::LinearGradient(g), &unit_square(), &mut writer, &mut ctx, &ident()).unwrap();
    match &writer[0] {
        PdfObject::ExponentialFunction { c0, .. } => {
            // 128 * 1_000_000 / 255 truncates to 501_960
            assert_eq!(c0, &vec![501_960, 0, SCALE]);
        },
        _ => panic!("expected an exponential function"),
    }
}

#[test]
fn pattern_stroke_fails_loudly() {
    let mut p = square_path(None);
    p.stroke = Some(default_stroke(Paint::Tiling(empty_pattern())));
    let mut writer: Vec<PdfObject> = Vec::new();
    let mut content: Vec<Op> = Vec::new();
    let mut ctx = fresh_ctx();
    let r = render(&p, &unit_square(), &mut writer, &mut content, &mut ctx);
    assert_eq!(r, Err(RenderError::UnsupportedStrokePattern));
    assert!(content.is_empty());
    assert!(writer.is_empty());
}

#[test]
fn stroke_and_even_odd_fill_select_combined_operator() {
    // Stroke present and even-odd fill select fill-even-odd-and-stroke.
    let mut p = square_path(Some(Fill {
        paint: Paint::Solid(Rgb { r: 9, g: 9, b: 9 }),
        opacity: SCALE,
        rule: FillRule::EvenOdd,
    }));
    p.stroke = Some(default_stroke(Paint::Solid(Rgb { r: 0, g: 0, b: 0 })));
    let mut writer: Vec<PdfObject> = Vec::new();
    let mut content: Vec<Op> = Vec::new();
    let mut ctx = fresh_ctx();
    render(&p, &unit_square(), &mut writer, &mut content, &mut ctx).unwrap();
    assert!(matches!(content[content.len() - 2], Op::FillEvenOddAndStroke));
    assert!(matches!(content[content.len() - 1], Op::RestoreState));
}

#[test]
fn bare_path_selects_no_op_operator() {
    // Neither stroke nor fill selects the no-op path terminator.
    let p = square_path(None);
    let mut writer: Vec<PdfObject> = Vec::new();
    let mut content: Vec<Op> = Vec::new();
    let mut ctx = fresh_ctx();
    render(&p, &unit_square(), &mut writer, &mut content, &mut ctx).unwrap();
    assert!(matches!(content[content.len() - 2], Op::EndPath));
}

#[test]
fn invisible_path_emits_nothing() {
    let mut p = square_path(Some(Fill {
        paint: Paint::Solid(Rgb { r: 9, g: 9, b: 9 }),
        opacity: SCALE,
        rule: FillRule::NonZero,
    }));
    p.visible = false;
    let mut writer: Vec<PdfObject> = Vec::new();
    let mut content: Vec<Op> = Vec::new();
    let mut ctx = fresh_ctx();
    render(&p, &unit_square(), &mut writer, &mut content, &mut ctx).unwrap();
    assert!(content.is_empty());
    assert!(writer.is_empty());
}

#[test]
fn rendered_gradient_fill_references_pattern_and_mask() {
    // Through the path renderer, a translucent gradient fill installs the soft-mask
    // graphics state, switches to the pattern color space and selects the
    // pattern by name.
    let g = linear(
        vec![stop(0, 255, 0, 0, SCALE), stop(SCALE, 0, 0, 255, 500_000)],
        Units::ObjectBoundingBox,
    );
    let p = square_path(Some(Fill {
        paint: Paint::LinearGradient(g),
        opacity: SCALE,
        rule: FillRule::NonZero,
    }));
    let mut writer: Vec<PdfObject> = Vec::new();
    let mut content: Vec<Op> = Vec::new();
    let mut ctx = fresh_ctx();
    render(&p, &unit_square(), &mut writer, &mut content, &mut ctx).unwrap();
    let set_params = content.iter().filter(|o| matches!(o, Op::SetParameters(_))).count();
    assert_eq!(set_params, 1);
    let mut saw_pattern_cs = false;
    let mut saw_fill_pattern = false;
    for o in &content {
        if matches!(o, Op::SetFillColorSpacePattern) {
            saw_pattern_cs = true;
        }
        if let Op::SetFillPattern(n) = o {
            assert_eq!(n.kind, ResKind::Pattern);
            saw_fill_pattern = true;
        }
    }
    assert!(saw_pattern_cs && saw_fill_pattern);
}

#[test]
fn tiling_pattern_compiles_cell_and_steps() {
    // The pattern pushes a scope for its cell; on pop the
    // XObject name lands in the tiling pattern's own resource dictionary.
    let inner = Path {
        transform: ident(),
        visible: true,
        segments: vec![Segment::MoveTo(0, 0), Segment::LineTo(SCALE, SCALE)],
        stroke: None,
        fill: Some(Fill {
            paint: Paint::Solid(Rgb { r: 10, g: 20, b: 30 }),
            opacity: SCALE,
            rule: FillRule::NonZero,
        }),
    };
    let pd = PatternDef {
        root: Group { transform: ident(), children: vec![svg2pdf::scene::Node::Path(inner)] },
        rect: Rect { x: 0, y: 0, w: 2_000_000, h: 3_000_000 },
        view_box_transform: None,
        transform: ident(),
    };
    let mut writer: Vec<PdfObject> = Vec::new();
    let mut ctx = fresh_ctx();
    let name = create_pattern(&pd, &mut writer, &mut ctx).unwrap();
    assert_eq!(name.kind, ResKind::Pattern);
    match writer.last().unwrap() {
        PdfObject::TilingPattern { content, resources, bbox, x_step, y_step, matrix, .. } => {
            assert_eq!(*bbox, pd.rect);
            assert_eq!(*x_step, 2_000_000);
            assert_eq!(*y_step, 3_000_000);
            assert_eq!(*matrix, ident());
            assert_eq!(resources.entries.len(), 1);
            assert_eq!(resources.entries[0].name.kind, ResKind::XObject);
            assert_eq!(content.len(), 1);
            assert!(matches!(content[0], Op::InvokeXObject(_)));
        },
        _ => panic!("expected a tiling pattern"),
    }
    // the pattern name itself was registered in the enclosing scope
    let mut dict = ResourceDict { entries: Vec::new() };
    ctx.deferrer.finish(&mut dict);
    assert_eq!(dict.entries.len(), 1);
    assert_eq!(dict.entries[0].name, name);
}

#[test]
fn group_renders_children_in_document_order() {
    // A group brackets its children between save-state/transform and
    // restore-state, renders them in document order, and its gradient
    // fills land in the object sink.
    let solid_path = square_path(Some(Fill {
        paint: Paint::Solid(Rgb { r: 1, g: 2, b: 3 }),
        opacity: SCALE,
        rule: FillRule::NonZero,
    }));
    let grad_path = square_path(Some(Fill {
        paint: Paint::LinearGradient(linear(
            vec![stop(0, 255, 0, 0, SCALE), stop(SCALE, 0, 0, 255, SCALE)],
            Units::UserSpace,
        )),
        opacity: SCALE,
        rule: FillRule::NonZero,
    }));
    let node = Node::Group(Group {
        transform: ident(),
        children: vec![Node::Path(solid_path), Node::Path(grad_path)],
    });
    let mut writer: Vec<PdfObject> = Vec::new();
    let mut content: Vec<Op> = Vec::new();
    let mut ctx = fresh_ctx();
    render_node(&node, &unit_square(), &mut writer, &mut content, &mut ctx).unwrap();
    assert!(matches!(content[0], Op::SaveState));
    assert!(matches!(content[1], Op::ApplyTransform(_)));
    assert!(matches!(content[content.len() - 1], Op::RestoreState));
    // the solid child's fill color precedes the gradient child's pattern op
    let solid_at = content
        .iter()
        .position(|o| matches!(o, Op::SetFillColor(_)))
        .unwrap();
    let pattern_at = content
        .iter()
        .position(|o| matches!(o, Op::SetFillPattern(_)))
        .unwrap();
    assert!(solid_at < pattern_at);
    // the gradient child's objects reached the sink
    assert_eq!(writer.len(), 2);
    assert!(matches!(writer[0], PdfObject::ExponentialFunction { .. }));
    assert!(matches!(writer[1], PdfObject::ShadingPattern { .. }));
}
