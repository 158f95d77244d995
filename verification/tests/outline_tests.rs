use live_sim::outline::{is_convex_outline, which_side};
use live_sim::solver::{GridPoint, Point};
use live_sim::world::{World, WorldError};

fn p(x: i16, y: i16) -> GridPoint {
    GridPoint { x, y }
}

fn corners(list: &[(i16, i16)]) -> Vec<GridPoint> {
    list.iter().map(|(x, y)| p(*x, *y)).collect()
}

#[test]
fn left_is_positive_and_right_is_negative() {
    assert_eq!(which_side(p(0, 0), p(10, 0), p(3, 4)), 40);
    assert_eq!(which_side(p(0, 0), p(10, 0), p(3, -4)), -40);
    assert_eq!(which_side(p(0, 0), p(10, 0), p(25, 0)), 0);
    assert_eq!(which_side(p(1, 1), p(4, 5), p(1, 1)), 0);
    assert_eq!(which_side(p(2, 3), p(5, 7), p(-1, 8)), 27);
}

#[test]
fn the_side_of_the_farthest_points_does_not_overflow() {
    let low = i16::MIN;
    let high = i16::MAX;
    assert_eq!(which_side(p(low, low), p(high, low), p(high, high)), 65535 * 65535);
    assert_eq!(which_side(p(low, low), p(high, high), p(high, low)), -65535 * 65535);
    assert_eq!(which_side(p(high, low), p(low, high), p(low, low)), 65535 * 65535);
}

#[test]
fn counter_clockwise_convex_outlines_are_taken() {
    assert!(is_convex_outline(&corners(&[(0, 0), (10, 0), (0, 10)])));
    assert!(is_convex_outline(&corners(&[(10, 10), (-10, 10), (-10, -10), (10, -10)])));
    assert!(is_convex_outline(&corners(&[(12, 0), (6, 10), (-6, 10), (-12, 0), (-6, -10), (6, -10)])));
    assert!(is_convex_outline(&corners(&[
        (i16::MIN, i16::MIN),
        (i16::MAX, i16::MIN),
        (i16::MAX, i16::MAX),
        (i16::MIN, i16::MAX),
    ])));
}

#[test]
fn a_corner_on_a_side_is_taken() {
    assert!(is_convex_outline(&corners(&[(0, 0), (5, 0), (10, 0), (10, 10), (0, 10)])));
}

#[test]
fn clockwise_outlines_are_refused() {
    assert!(!is_convex_outline(&corners(&[(0, 0), (0, 10), (10, 0)])));
    assert!(!is_convex_outline(&corners(&[(10, -10), (-10, -10), (-10, 10), (10, 10)])));
}

#[test]
fn outlines_with_a_dent_are_refused() {
    assert!(!is_convex_outline(&corners(&[(0, 0), (10, 0), (10, 10), (5, 4), (0, 10)])));
    assert!(!is_convex_outline(&corners(&[(0, 0), (10, 0), (4, 4), (0, 10)])));
}

#[test]
fn outlines_that_cross_themselves_are_refused() {
    assert!(!is_convex_outline(&corners(&[(0, 0), (10, 10), (10, 0), (0, 10)])));
    assert!(!is_convex_outline(&corners(&[(0, 30), (-18, -24), (29, 9), (-29, 9), (18, -24)])));
}

#[test]
fn outlines_that_go_around_twice_are_refused() {
    assert!(!is_convex_outline(&corners(&[
        (10, 0),
        (0, 10),
        (-10, 0),
        (0, -10),
        (10, 0),
        (0, 10),
        (-10, 0),
        (0, -10),
    ])));
    assert!(!is_convex_outline(&corners(&[
        (10, 0),
        (0, 11),
        (-10, 0),
        (0, -11),
        (11, 0),
        (0, 10),
        (-11, 0),
        (0, -10),
    ])));
}

#[test]
fn outlines_without_area_are_refused() {
    assert!(!is_convex_outline(&corners(&[])));
    assert!(!is_convex_outline(&corners(&[(0, 0)])));
    assert!(!is_convex_outline(&corners(&[(0, 0), (10, 0)])));
    assert!(!is_convex_outline(&corners(&[(0, 0), (5, 0), (10, 0)])));
    assert!(!is_convex_outline(&corners(&[(0, 0), (10, 0), (5, 0)])));
    assert!(!is_convex_outline(&corners(&[(0, 0), (5, 5), (10, 10), (20, 20)])));
}

#[test]
fn outlines_with_a_repeated_corner_are_refused() {
    assert!(!is_convex_outline(&corners(&[(0, 0), (0, 0), (10, 0), (0, 10)])));
    assert!(!is_convex_outline(&corners(&[(0, 0), (10, 0), (0, 10), (0, 0)])));
    assert!(!is_convex_outline(&corners(&[(0, 0), (10, 0), (10, 10), (10, 0)])));
}

#[test]
fn the_world_refuses_what_is_no_convex_outline() {
    let mut world = World::new();
    let bad: [&[(i16, i16)]; 4] = [
        &[(0, 0), (0, 10), (10, 0)],
        &[(0, 0), (10, 0), (10, 10), (5, 4), (0, 10)],
        &[(0, 0), (10, 10), (10, 0), (0, 10)],
        &[(0, 0), (5, 0), (10, 0)],
    ];
    for outline in bad {
        assert_eq!(
            world.add_poly_body(1, &Point::on_grid(100, 100), &corners(outline), Point::origin()),
            Err(WorldError::InvalidPolygon)
        );
    }
    assert_eq!(world.get_physics_obj_num(), 0);
    assert!(world
        .add_poly_body(
            1,
            &Point::on_grid(100, 100),
            &corners(&[(0, 0), (5, 0), (10, 0), (10, 10), (0, 10)]),
            Point::origin(),
        )
        .is_ok());
    assert_eq!(world.get_physics_obj_num(), 1);
}
