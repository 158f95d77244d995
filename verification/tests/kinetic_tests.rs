use live_sim::kinetic::{
    CollisionsMap, Detection, DetectionTypes, DetectionsMap, Hit, ObjectType, Rot, NAN_BITS,
};
use live_sim::scalar::Scalar;
use live_sim::solver::Point;

fn scalar(v: f32) -> Scalar {
    Scalar::from_bits(v.to_bits())
}

fn point(x: f32, y: f32) -> Point {
    Point { x: scalar(x), y: scalar(y) }
}

fn seen(distance: f32) -> Detection {
    Detection::new(scalar(distance), scalar(0.5), point(1.0, 2.0))
}

#[test]
fn constants_are_the_encodings_they_name() {
    assert!(f32::from_bits(NAN_BITS).is_nan());
    assert_eq!(NAN_BITS, f32::NAN.to_bits());
}

#[test]
fn rotation_by_nothing() {
    let zero = Rot::zero();
    assert_eq!(f32::from_bits(zero.cos.to_bits()), 1.0);
    assert_eq!(zero.sin.to_bits(), 0);
    assert_eq!(Rot::default(), zero);
}

#[test]
fn inverse_rotation_changes_the_sign_of_the_sine() {
    let r = Rot { cos: scalar(0.6), sin: scalar(0.8) };
    let back = r.inv();
    assert_eq!(f32::from_bits(back.cos.to_bits()), 0.6);
    assert_eq!(f32::from_bits(back.sin.to_bits()), -0.8);
    assert_eq!(back.inv(), r);
    let flat = Rot::zero().inv();
    assert_eq!(flat.sin.to_bits(), (-0.0f32).to_bits());
}

#[test]
fn detection_of_an_agent() {
    let d = Detection::new(scalar(3.0), scalar(0.25), point(7.0, 8.0));
    assert_eq!(d.target_type, ObjectType::Agent);
    assert_eq!(d.distance, scalar(3.0));
    assert_eq!(d.angle, scalar(0.25));
    assert_eq!(d.pos, point(7.0, 8.0));
    assert!(!d.is_empty());
}

#[test]
fn detection_of_nothing() {
    let d = Detection::new_empty();
    assert!(d.is_empty());
    assert_eq!(d.target_type, ObjectType::Empty);
    assert!(d.distance.is_nan() && d.angle.is_nan() && d.pos.x.is_nan() && d.pos.y.is_nan());
    assert!(Detection::new(scalar(f32::NAN), scalar(1.0), point(0.0, 0.0)).is_empty());
    assert!(Detection::new(scalar(1.0), scalar(f32::NAN), point(0.0, 0.0)).is_empty());
}

#[test]
fn closer_detection_replaces_an_empty_or_farther_one() {
    let mut d = Detection::new_empty();
    d.add_closer(scalar(10.0), scalar(0.1), point(1.0, 1.0));
    assert_eq!(d, Detection::new(scalar(10.0), scalar(0.1), point(1.0, 1.0)));
    d.add_closer(scalar(12.0), scalar(0.2), point(2.0, 2.0));
    assert_eq!(d.distance, scalar(10.0));
    d.add_closer(scalar(10.0), scalar(0.2), point(2.0, 2.0));
    assert_eq!(d.angle, scalar(0.1));
    d.add_closer(scalar(4.0), scalar(0.3), point(3.0, 3.0));
    assert_eq!(d, Detection::new(scalar(4.0), scalar(0.3), point(3.0, 3.0)));
    d.add_closer(scalar(f32::NAN), scalar(0.3), point(3.0, 3.0));
    assert_eq!(d.distance, scalar(4.0));
}

#[test]
fn map_keeps_the_nearer_detection() {
    let mut map = DetectionsMap::new();
    assert!(map.get_detection(1).is_none());
    map.add_detection(1, seen(10.0));
    assert_eq!(map.get_detection(1), Some(&seen(10.0)));
    map.add_detection(1, seen(12.0));
    assert_eq!(map.get_detection(1), Some(&seen(10.0)));
    map.add_detection(1, seen(10.0));
    assert_eq!(map.get_detection(1), Some(&seen(10.0)));
    map.add_detection(1, seen(3.0));
    assert_eq!(map.get_detection(1), Some(&seen(3.0)));
    map.add_detection(2, seen(50.0));
    assert_eq!(map.get_detection(2), Some(&seen(50.0)));
    assert_eq!(map.detections.len(), 2);
    assert!(map.sources.is_empty());
}

#[test]
fn map_holds_no_distance_when_two_do_not_compare() {
    let mut map = DetectionsMap::new();
    map.add_detection(1, seen(10.0));
    map.add_detection(1, seen(f32::NAN));
    let held = map.get_detection(1).unwrap();
    assert!(held.is_empty());
    assert_eq!(held.target_type, ObjectType::Agent);
    assert!(held.pos.x.is_nan());
}

#[test]
fn map_keeps_the_kind_of_the_offered_and_marks_the_held_an_agent() {
    let mut map = DetectionsMap::new();
    let mut food = seen(10.0);
    food.target_type = ObjectType::Source;
    map.add_detection(1, food);
    assert_eq!(map.get_detection(1).unwrap().target_type, ObjectType::Source);
    map.add_detection(1, seen(20.0));
    assert_eq!(map.get_detection(1).unwrap().target_type, ObjectType::Agent);
    assert_eq!(map.get_detection(1).unwrap().distance, scalar(10.0));
}

#[test]
fn detections_are_removed_and_cleared() {
    let mut map = DetectionsMap::new();
    map.add_detection(1, seen(10.0));
    map.add_detection(2, seen(10.0));
    map.remove_detection(1);
    assert!(map.get_detection(1).is_none());
    assert!(map.get_detection(2).is_some());
    map.remove_detection(1);
    map.clear();
    assert!(map.get_detection(2).is_none());
}

#[test]
fn contacts_are_kept_by_key() {
    let hit = Hit {
        normal: point(0.0, 1.0),
        overlap: scalar(0.5),
        target_type: ObjectType::Obstacle,
        target_id: 9,
    };
    let other = Hit { target_id: 10, ..hit };
    let mut map = CollisionsMap::new();
    assert!(map.get_collision(1).is_none());
    map.add_collision(1, hit);
    assert_eq!(map.get_collision(1), Some(&hit));
    map.add_collision(1, other);
    assert_eq!(map.get_collision(1), Some(&other));
    map.add_collision(2, hit);
    map.remove_collision(1);
    assert!(map.get_collision(1).is_none());
    assert_eq!(map.get_collision(2), Some(&hit));
    map.clear();
    assert!(map.get_collision(2).is_none());
    assert!(map.contacts.is_empty());
}

#[test]
fn kinds_differ() {
    assert_ne!(ObjectType::Agent, ObjectType::Source);
    assert_ne!(ObjectType::Empty, ObjectType::Obstacle);
    assert_ne!(DetectionTypes::Enemy, DetectionTypes::Food);
    assert_ne!(DetectionTypes::Food, DetectionTypes::Rock);
}

#[test]
fn the_pointer_touches_a_ball_that_it_is_on_and_no_other() {
    use_pointer(point(100.0, 100.0), point(103.0, 104.0), 3.5, true);
    use_pointer(point(100.0, 100.0), point(103.0, 104.0), 2.5, false);
    use_pointer(point(100.0, 100.0), point(100.0, 100.0), 1.0, true);
    use_pointer(point(0.0, 0.0), point(500.0, 0.0), 40.0, false);
}

fn use_pointer(pointer: Point, target: Point, radius: f32, touches: bool) {
    assert_eq!(live_sim::kinetic::contact_mouse(pointer, target, scalar(radius)), touches);
}

#[test]
fn two_balls_touch_where_their_centres_are_nearer_than_their_radii() {
    let still = scalar(0.0);
    let near = live_sim::kinetic::contact_circles(point(0.0, 0.0), still, scalar(3.0), point(4.0, 0.0), still, scalar(2.0));
    assert_eq!(near.map(|c| c.dist), Some(-1.0));
    let far = live_sim::kinetic::contact_circles(point(0.0, 0.0), still, scalar(1.0), point(4.0, 0.0), still, scalar(2.0));
    assert!(far.is_none());
}
