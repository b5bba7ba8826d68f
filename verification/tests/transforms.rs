//! Angle normalization, fixed-point trigonometry and transform
//! composition, checked on exact values.
use scene_core::angle::{cos_fp, norm_angle, sin_fp};
use scene_core::transform::{Transform2D, Vec2I};

fn t2(x: i64, y: i64, rot: i64) -> Transform2D {
    Transform2D::new(Vec2I { x, y }, rot)
}

#[test]
fn normalization_lands_in_the_half_open_range() {
    assert_eq!(norm_angle(0), 0);
    assert_eq!(norm_angle(370_000), 10_000);
    assert_eq!(norm_angle(-370_000), -10_000);
    assert_eq!(norm_angle(180_000), 180_000);
    assert_eq!(norm_angle(-180_000), 180_000);
    assert_eq!(norm_angle(540_000), 180_000);
    assert_eq!(norm_angle(360_000), 0);
}

#[test]
fn trig_is_exact_at_cardinal_angles() {
    assert_eq!(sin_fp(0), 0);
    assert_eq!(sin_fp(90_000), 65_536);
    assert_eq!(sin_fp(-90_000), -65_536);
    assert_eq!(sin_fp(180_000), 0);
    assert_eq!(sin_fp(30_000), 32_768);
    assert_eq!(sin_fp(150_000), 32_768);
    assert_eq!(cos_fp(0), 65_536);
    assert_eq!(cos_fp(90_000), 0);
    assert_eq!(cos_fp(180_000), -65_536);
    assert_eq!(cos_fp(-90_000), 0);
}

#[test]
fn rotations_summing_past_a_turn_normalize_consistently() {
    // Two transforms whose rotations sum to 370 degrees: the composed
    // rotation is 10 degrees whichever way they are composed.
    let a = t2(0, 0, 200_000);
    let b = t2(0, 0, 170_000);
    let ab = a.multiply(&b);
    let ba = b.multiply(&a);
    assert_eq!(ab.rotation, 10_000);
    assert_eq!(ba.rotation, 10_000);
    assert!(ab.rotation > -180_000 && ab.rotation <= 180_000);
}

#[test]
fn identity_intermediate_changes_nothing() {
    let g = t2(100, -50, 30_000);
    let c = t2(64, 0, 45_000);
    let id = Transform2D::identity();
    let direct = g.multiply(&c);
    let through = g.multiply(&id).multiply(&c);
    assert_eq!(direct, through);
}

#[test]
fn composition_translates_then_rotates_exactly() {
    // A parent at the origin, no rotation: the child keeps its offset.
    let parent = t2(0, 0, 0);
    let child = t2(0, 64, 0);
    let g = parent.multiply(&child);
    assert_eq!(g.translation, Vec2I { x: 0, y: 64 });
    assert_eq!(g.rotation, 0);

    // A quarter turn on the parent swings the child's offset around.
    let parent = t2(0, 0, 90_000);
    let child = t2(64, 0, 0);
    let g = parent.multiply(&child);
    assert_eq!(g.translation, Vec2I { x: 0, y: 64 });
    assert_eq!(g.rotation, 90_000);

    // A half turn negates the offset.
    let parent = t2(10, 20, 180_000);
    let child = t2(5, 0, 0);
    let g = parent.multiply(&child);
    assert_eq!(g.translation, Vec2I { x: 5, y: 20 });
    assert_eq!(g.rotation, 180_000);
}
