use live_sim::agent::{Agent, Perception};
use live_sim::element::{Asteroid, DynamicElement};
use live_sim::scalar::Scalar;
use live_sim::solver::{GridPoint, Point};
use live_sim::world::World;

fn value(s: Scalar) -> f32 {
    f32::from_bits(s.to_bits())
}

fn coordinates(p: Point) -> (f32, f32) {
    (value(p.x), value(p.y))
}

fn square() -> Vec<GridPoint> {
    vec![
        GridPoint { x: 10, y: 10 },
        GridPoint { x: -10, y: 10 },
        GridPoint { x: -10, y: -10 },
        GridPoint { x: 10, y: -10 },
    ]
}

#[test]
fn agent_left_of_arena_is_clamped_to_edge() {
    let mut world = World::new();
    let mut agent = Agent::new(Point::on_grid(-10, 500), 5, 100);
    let handle = world
        .add_circle_body(agent.key, &agent.origin, Scalar::from_u16(agent.size), Some(Scalar::from_u16(agent.vision_range)))
        .unwrap();
    agent.physics_handle = Some(handle);
    agent.update2(&mut world);
    assert_eq!(coordinates(agent.pos), (0.0, 500.0));
    let data = world.get_physics_data(handle).unwrap();
    assert_eq!(coordinates(data.position), (0.0, 500.0));
    assert_eq!(value(data.rotation), 0.0);
}

#[test]
fn agent_beyond_far_corner_is_clamped_on_both_axes() {
    let mut world = World::new();
    let mut agent = Agent::new(Point::on_grid(4000, 2000), 5, 100);
    let handle = world
        .add_circle_body(agent.key, &agent.origin, Scalar::from_u16(agent.size), None)
        .unwrap();
    agent.physics_handle = Some(handle);
    agent.update2(&mut world);
    assert_eq!(coordinates(agent.pos), (3200.0, 1800.0));
    assert_eq!(
        coordinates(world.get_object_position(handle).unwrap()),
        (3200.0, 1800.0)
    );
}

#[test]
fn agent_inside_arena_is_left_alone() {
    let mut world = World::new();
    let mut agent = Agent::new(Point::on_grid(3200, 0), 5, 100);
    let handle = world
        .add_circle_body(agent.key, &agent.origin, Scalar::from_u16(agent.size), None)
        .unwrap();
    agent.physics_handle = Some(handle);
    agent.update2(&mut world);
    assert_eq!(coordinates(agent.pos), (3200.0, 0.0));
}

#[test]
fn debris_past_far_margin_reenters_near_edge() {
    let mut world = World::new();
    let mut rock = Asteroid::new(
        Point::on_grid(3206, 700),
        10,
        square(),
        Point::on_grid(0, 0),
    );
    let handle = world
        .add_poly_body(rock.key, &rock.origin, &rock.points, rock.drift)
        .unwrap();
    rock.physics_handle = Some(handle);
    let before = world.get_physics_data(handle).unwrap();
    rock.update(0, &mut world);
    assert_eq!(coordinates(rock.pos), (5.0, 700.0));
    let after = world.get_physics_data(handle).unwrap();
    assert_eq!(coordinates(after.position), (5.0, 700.0));
    assert_eq!(after.rotation, before.rotation);
    assert_eq!(rock.rot, before.rotation);
}

#[test]
fn debris_past_near_margin_reenters_far_edge() {
    let mut world = World::new();
    let mut rock = Asteroid::new(
        Point::on_grid(100, -6),
        10,
        square(),
        Point::on_grid(0, 0),
    );
    let handle = world
        .add_poly_body(rock.key, &rock.origin, &rock.points, rock.drift)
        .unwrap();
    rock.physics_handle = Some(handle);
    rock.update(0, &mut world);
    assert_eq!(coordinates(rock.pos), (100.0, 1795.0));
}

#[test]
fn debris_within_margin_stays() {
    let mut world = World::new();
    let mut rock = Asteroid::new(
        Point::on_grid(3205, -5),
        10,
        square(),
        Point::on_grid(0, 0),
    );
    let handle = world
        .add_poly_body(rock.key, &rock.origin, &rock.points, rock.drift)
        .unwrap();
    rock.physics_handle = Some(handle);
    rock.update(0, &mut world);
    assert_eq!(coordinates(rock.pos), (3205.0, -5.0));
}

#[test]
fn tracking_agent_is_idle_the_tick_after_its_target_is_removed() {
    let mut world = World::new();
    let mut agent = Agent::new(Point::on_grid(100, 100), 5, 60);
    let own = world
        .add_circle_body(agent.key, &agent.origin, Scalar::from_u16(agent.size), Some(Scalar::from_u16(agent.vision_range)))
        .unwrap();
    agent.physics_handle = Some(own);
    let rival = world
        .add_circle_body(99, &Point::on_grid(130, 100), Scalar::from_u16(5), None)
        .unwrap();
    world.step_physics();
    let found = world.get_detection(own);
    agent.sense(found, &world);
    assert_eq!(agent.enemy, Some(rival));
    assert_eq!(coordinates(agent.enemy_position.unwrap()), (130.0, 100.0));
    assert!(agent.is_tracking());
    assert_eq!(agent.perception(), Perception::Tracking { target: rival });
    world.remove_physics_object(rival);
    agent.update2(&mut world);
    assert!(!agent.is_tracking());
    assert_eq!(agent.perception(), Perception::Idle);
    assert_eq!(agent.enemy, None);
    assert_eq!(agent.enemy_position, None);
    assert_eq!(agent.detected, None);
}

#[test]
fn clamping_leaves_the_velocity_as_it_is() {
    let mut world = World::new();
    let mut agent = Agent::new(Point::on_grid(-10, 500), 5, 100);
    let handle = world
        .add_circle_body(agent.key, &agent.origin, Scalar::from_u16(agent.size), Some(Scalar::from_u16(agent.vision_range)))
        .unwrap();
    agent.physics_handle = Some(handle);
    let push = Point { x: Scalar::from_bits((-12.5f32).to_bits()), y: Scalar::from_bits(3.25f32.to_bits()) };
    world.set_body_linvel(handle, push);
    world.set_body_angvel(handle, Scalar::from_bits(0.75f32.to_bits()));
    agent.update2(&mut world);
    assert_eq!(coordinates(agent.pos), (0.0, 500.0));
    let (velocity, spin) = world.get_velocity(handle).unwrap();
    assert_eq!(coordinates(velocity), (-12.5, 3.25));
    assert_eq!(value(spin), 0.75);
}

#[test]
fn a_body_at_minus_zero_is_inside_the_arena() {
    let mut world = World::new();
    let edge = Point { x: Scalar::from_bits((-0.0f32).to_bits()), y: Scalar::from_bits(20.0f32.to_bits()) };
    let mut agent = Agent::new(edge, 5, 100);
    let handle = world
        .add_circle_body(agent.key, &agent.origin, Scalar::from_u16(agent.size), None)
        .unwrap();
    agent.physics_handle = Some(handle);
    agent.update2(&mut world);
    assert_eq!(agent.pos.x.to_bits(), (-0.0f32).to_bits());
    world.set_body_x(handle, 0);
    let x = world.get_object_position(handle).unwrap().x;
    assert_eq!(value(x), 0.0);
    world.set_body_y(handle, 20);
    assert_eq!(value(world.get_object_position(handle).unwrap().y), 20.0);
}
