use live_sim::consts::{WORLD_H, WORLD_W, WRAP_MARGIN};
use live_sim::containment::{clamp, wrap};
use live_sim::scalar::Scalar;

fn scalar(v: f32) -> Scalar {
    Scalar::from_bits(v.to_bits())
}

#[test]
fn arena_is_3200_by_1800_with_a_margin_of_5() {
    assert_eq!(WORLD_W, 3200);
    assert_eq!(WORLD_H, 1800);
    assert_eq!(WRAP_MARGIN, 5);
}

#[test]
fn clamp_moves_to_the_bound_that_was_passed() {
    assert_eq!(clamp(scalar(-10.0), WORLD_W), Some(0));
    assert_eq!(clamp(scalar(-0.001), WORLD_W), Some(0));
    assert_eq!(clamp(scalar(3200.5), WORLD_W), Some(3200));
    assert_eq!(clamp(scalar(f32::INFINITY), WORLD_H), Some(1800));
    assert_eq!(clamp(scalar(f32::NEG_INFINITY), WORLD_H), Some(0));
}

#[test]
fn clamp_leaves_what_is_inside() {
    assert_eq!(clamp(scalar(0.0), WORLD_W), None);
    assert_eq!(clamp(scalar(-0.0), WORLD_W), None);
    assert_eq!(clamp(scalar(3200.0), WORLD_W), None);
    assert_eq!(clamp(scalar(500.0), WORLD_H), None);
    assert_eq!(clamp(scalar(1800.0), WORLD_H), None);
}

#[test]
fn clamp_leaves_what_is_not_a_number() {
    assert_eq!(clamp(scalar(f32::NAN), WORLD_W), None);
}

#[test]
fn wrap_reenters_at_the_margin_inside_the_opposite_edge() {
    assert_eq!(wrap(scalar(3205.5), WORLD_W), Some(5));
    assert_eq!(wrap(scalar(-5.5), WORLD_W), Some(3195));
    assert_eq!(wrap(scalar(1805.001), WORLD_H), Some(5));
    assert_eq!(wrap(scalar(-6.0), WORLD_H), Some(1795));
}

#[test]
fn wrap_leaves_what_is_within_the_margin() {
    assert_eq!(wrap(scalar(3205.0), WORLD_W), None);
    assert_eq!(wrap(scalar(-5.0), WORLD_W), None);
    assert_eq!(wrap(scalar(3201.0), WORLD_W), None);
    assert_eq!(wrap(scalar(-1.0), WORLD_H), None);
    assert_eq!(wrap(scalar(900.0), WORLD_H), None);
    assert_eq!(wrap(scalar(f32::NAN), WORLD_H), None);
}
