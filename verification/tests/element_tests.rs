use live_sim::element::{Asteroid, DynamicCollector, DynamicElement};
use live_sim::scalar::Scalar;
use live_sim::solver::{GridPoint, Point};
use live_sim::world::{World, WorldError};

fn number(bits: Scalar) -> f32 {
    f32::from_bits(bits.to_bits())
}

fn place(p: Point) -> (f32, f32) {
    (number(p.x), number(p.y))
}

fn corner(x: i16, y: i16) -> GridPoint {
    GridPoint { x, y }
}

fn at(x: i16, y: i16) -> Point {
    Point::on_grid(x, y)
}

fn hexagon() -> Vec<GridPoint> {
    vec![corner(12, 0), corner(6, 10), corner(-6, 10), corner(-12, 0), corner(-6, -10), corner(6, -10)]
}

fn rock(x: i16, y: i16) -> Asteroid {
    Asteroid::new(at(x, y), 12, hexagon(), at(0, 0))
}

#[test]
fn new_debris_has_no_body() {
    let piece = Asteroid::new(at(5, 6), 12, hexagon(), at(3, -4));
    assert_eq!(piece.origin, at(5, 6));
    assert_eq!(place(piece.pos), (5.0, 6.0));
    assert_eq!(piece.drift, at(3, -4));
    assert_eq!(piece.size, 12);
    assert_eq!(piece.points, hexagon());
    assert_eq!(piece.physics_handle, None);
    assert_eq!(piece.rot.to_bits(), 0);
    assert_eq!(piece.kin_eng.to_bits(), 0);
    assert_ne!(piece.key, rock(0, 0).key);
}

#[test]
fn debris_pulls_pose_and_energy() {
    let mut world = World::new();
    let mut piece = Asteroid::new(at(500, 500), 12, hexagon(), at(90, 0));
    let handle = world
        .add_poly_body(piece.key, &piece.origin, &piece.points, piece.drift)
        .unwrap();
    piece.physics_handle = Some(handle);
    world.step_physics();
    piece.update(16_666, &mut world);
    let data = world.get_physics_data(handle).unwrap();
    assert_eq!(piece.pos, data.position);
    assert_eq!(piece.rot, data.rotation);
    assert_eq!(Some(piece.kin_eng), data.kin_eng);
    assert!(number(piece.pos.x) > 500.0);
    assert!(number(piece.kin_eng) > 0.0);
}

#[test]
fn debris_without_a_live_body_stays() {
    let mut world = World::new();
    let mut piece = rock(4000, 100);
    piece.update(0, &mut world);
    assert_eq!(place(piece.pos), (4000.0, 100.0));
}

#[test]
fn collector_takes_debris_under_its_key() {
    let mut world = World::new();
    let mut debris = DynamicCollector::new();
    let piece = rock(100, 200);
    let key = piece.key;
    assert_eq!(debris.add_element(piece, &mut world), Ok(key));
    assert_eq!(debris.count(), 1);
    assert_eq!(world.get_physics_obj_num(), 1);
    let held = debris.get(key).unwrap();
    let handle = held.physics_handle.unwrap();
    assert_eq!(world.get_owner_key(handle), Some(key));
    assert_eq!(place(world.get_object_position(handle).unwrap()), (100.0, 200.0));
    assert_eq!(debris.find(key), Some(0));
    assert!(debris.get(key.wrapping_add(1)).is_none());
    debris.remove(key);
    assert_eq!(debris.count(), 0);
    assert!(debris.get(key).is_none());
}

#[test]
fn collector_refuses_debris_with_a_bad_outline() {
    let mut world = World::new();
    let mut debris = DynamicCollector::new();
    let flat = Asteroid::new(at(0, 0), 12, vec![corner(0, 0), corner(1, 0)], at(0, 0));
    assert_eq!(debris.add_element(flat, &mut world), Err(WorldError::InvalidPolygon));
    assert_eq!(debris.count(), 0);
    assert_eq!(world.get_physics_obj_num(), 0);
}

#[test]
fn collector_takes_many_and_passes_over_the_refused() {
    let mut world = World::new();
    let mut debris = DynamicCollector::new();
    let flat = Asteroid::new(at(0, 0), 12, Vec::new(), at(0, 0));
    let taken = debris.add_many_elements(vec![rock(10, 10), flat, rock(500, 10)], &mut world);
    assert_eq!(taken, 2);
    assert_eq!(debris.count(), 2);
    assert_eq!(world.get_physics_obj_num(), 2);
}

#[test]
fn tick_lets_debris_reenter_on_the_other_side() {
    let mut world = World::new();
    let mut debris = DynamicCollector::new();
    let spots = [(3206, 700), (-6, 700), (700, 1806), (700, -6), (3205, -5), (1600, 900)];
    for (x, y) in spots {
        debris.add_element(rock(x, y), &mut world).unwrap();
    }
    debris.update_elements(16_666, &mut world);
    assert_eq!(debris.count(), 6);
    assert_eq!(place(debris.elements[0].pos), (5.0, 700.0));
    assert_eq!(place(debris.elements[1].pos), (3195.0, 700.0));
    assert_eq!(place(debris.elements[2].pos), (700.0, 5.0));
    assert_eq!(place(debris.elements[3].pos), (700.0, 1795.0));
    assert_eq!(place(debris.elements[4].pos), (3205.0, -5.0));
    assert_eq!(place(debris.elements[5].pos), (1600.0, 900.0));
    for piece in debris.elements.iter() {
        let body = world.get_physics_data(piece.physics_handle.unwrap()).unwrap();
        assert_eq!(body.position, piece.pos);
        assert_eq!(body.rotation.to_bits(), 0);
    }
}

#[test]
fn collector_hands_out_its_elements_and_checks_them() {
    let mut world = World::new();
    let mut debris = DynamicCollector::new();
    let first = rock(10, 10);
    let key = first.key;
    debris.add_many_elements(vec![rock(500, 10), first], &mut world);
    assert_eq!(debris.get_iter().len(), 2);
    assert_eq!(debris.get_iter()[0].key, key);
    assert!(debris.has_distinct_keys());
    assert!(debris.is_embodied(&world));
    debris.elements[1].key = key;
    assert!(!debris.has_distinct_keys());
    let body = debris.elements[0].physics_handle.unwrap();
    world.remove_physics_object(body);
    assert!(!debris.is_embodied(&world));
}
