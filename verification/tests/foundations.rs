use svg2pdf::deferrer::Deferrer;
use svg2pdf::fixed::{fx_clamp, fx_mul, FX_SAT, SCALE};
use svg2pdf::frame::TransformFrame;
use svg2pdf::geom::{Mat, Rect};
use svg2pdf::gradient::get_function_range;
use svg2pdf::object::{Op, ResKind, ResourceDict};
use svg2pdf::path::draw_path;
use svg2pdf::scene::Segment;

fn ident() -> Mat {
    Mat { sx: SCALE, ky: 0, kx: 0, sy: SCALE, tx: 0, ty: 0 }
}

#[test]
fn fx_mul_scales_products() {
    // 0.5 * 0.5 == 0.25
    assert_eq!(fx_mul(500_000, 500_000), 250_000);
    // 2 * 3 == 6
    assert_eq!(fx_mul(2_000_000, 3_000_000), 6_000_000);
    // signs: (-2) * 3 == -6, (-2) * (-3) == 6
    assert_eq!(fx_mul(-2_000_000, 3_000_000), -6_000_000);
    assert_eq!(fx_mul(-2_000_000, -3_000_000), 6_000_000);
    // truncation toward zero
    assert_eq!(fx_mul(1, 1), 0);
    assert_eq!(fx_mul(-1, 1), 0);
}

#[test]
fn fx_clamp_saturates() {
    assert_eq!(fx_clamp(FX_SAT + 1), FX_SAT);
    assert_eq!(fx_clamp(-FX_SAT - 1), -FX_SAT);
    assert_eq!(fx_clamp(123), 123);
}

#[test]
fn mat_identity_is_neutral() {
    let m = Mat { sx: 2_000_000, ky: 0, kx: 0, sy: 3_000_000, tx: 4_000_000, ty: 5_000_000 };
    assert_eq!(Mat::identity().concat(&m), m);
    assert_eq!(m.concat(&Mat::identity()), m);
}

#[test]
fn mat_concat_applies_right_factor_first() {
    // scale(2) ∘ translate(1, 0): translate happens first, so the image of
    // the origin is (2, 0).
    let scale2 = Mat { sx: 2_000_000, ky: 0, kx: 0, sy: 2_000_000, tx: 0, ty: 0 };
    let shift = Mat { sx: SCALE, ky: 0, kx: 0, sy: SCALE, tx: 1_000_000, ty: 0 };
    let a = scale2.concat(&shift);
    assert_eq!(a.tx, 2_000_000);
    let b = shift.concat(&scale2);
    assert_eq!(b.tx, 1_000_000);
    assert!(a != b);
}

#[test]
fn rect_corners_are_corner_form() {
    let r = Rect { x: 1_000_000, y: 2_000_000, w: 3_000_000, h: 4_000_000 };
    assert_eq!(r.corners(), [1_000_000, 2_000_000, 4_000_000, 6_000_000]);
}

#[test]
fn frame_stacks_and_restores() {
    let mut f = TransformFrame::new();
    let t = Mat { sx: 2_000_000, ky: 0, kx: 0, sy: 2_000_000, tx: 0, ty: 0 };
    f.push();
    f.append_transform(&t);
    assert_eq!(f.transform(), t);
    f.push();
    f.set_transform(&Mat::identity());
    assert_eq!(f.transform(), ident());
    f.pop();
    assert_eq!(f.transform(), t);
    f.pop();
    assert_eq!(f.transform(), ident());
}

#[test]
fn deferrer_mints_unique_names_and_pops_into_dict() {
    let mut d = Deferrer::new();
    let r1 = d.alloc_ref();
    let r2 = d.alloc_ref();
    assert_eq!(r1, 1);
    assert_eq!(r2, 2);
    d.push();
    let n1 = d.add_shading(r1);
    let n2 = d.add_pattern(r2);
    assert_eq!(n1.kind, ResKind::Shading);
    assert_eq!(n1.index, 1);
    assert_eq!(n2.kind, ResKind::Pattern);
    assert_eq!(n2.index, 2);
    let mut dict = ResourceDict { entries: Vec::new() };
    d.pop(&mut dict);
    assert_eq!(dict.entries.len(), 2);
    assert_eq!(dict.entries[0].name, n1);
    assert_eq!(dict.entries[0].target, 1);
    assert_eq!(dict.entries[1].name, n2);
    assert_eq!(dict.entries[1].target, 2);
    assert!(dict.entries[0].name != dict.entries[1].name);
    // the base scope is still open and drains on finish
    let r3 = d.alloc_ref();
    let n3 = d.add_graphics_state(r3);
    let mut base = ResourceDict { entries: Vec::new() };
    d.finish(&mut base);
    assert_eq!(base.entries.len(), 1);
    assert_eq!(base.entries[0].name, n3);
}

#[test]
fn function_range_repeats_unit_interval_per_channel() {
    assert_eq!(get_function_range(1), vec![0, SCALE]);
    assert_eq!(get_function_range(3), vec![0, SCALE, 0, SCALE, 0, SCALE]);
}

#[test]
fn draw_path_mirrors_segments_in_order() {
    let segs = vec![
        Segment::MoveTo(0, 0),
        Segment::LineTo(1_000_000, 0),
        Segment::CubicTo(1, 2, 3, 4, 5, 6),
        Segment::Close,
    ];
    let mut content: Vec<Op> = Vec::new();
    draw_path(&segs, &mut content);
    assert_eq!(content.len(), 4);
    assert!(matches!(content[0], Op::MoveTo(0, 0)));
    assert!(matches!(content[1], Op::LineTo(1_000_000, 0)));
    assert!(matches!(content[2], Op::CubicTo(1, 2, 3, 4, 5, 6)));
    assert!(matches!(content[3], Op::ClosePath));
}
