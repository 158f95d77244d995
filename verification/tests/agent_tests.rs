use live_sim::agent::{Agent, AgentsBox, LIFETIME_PER_SIZE, SECOND, SENSING_INTERVAL};
use live_sim::scalar::Scalar;
use live_sim::solver::{GridPoint, Point};
use live_sim::world::{World, WorldError};

fn number(bits: Scalar) -> f32 {
    f32::from_bits(bits.to_bits())
}

fn place(p: Point) -> (f32, f32) {
    (number(p.x), number(p.y))
}

fn corner(x: i16, y: i16) -> GridPoint {
    GridPoint { x, y }
}

fn at(x: i16, y: i16) -> Point {
    Point::on_grid(x, y)
}

fn embodied(world: &mut World, x: i16, y: i16, size: u16, vision: u16) -> Agent {
    let mut agent = Agent::new(at(x, y), size, vision);
    let handle = world
        .add_circle_body(agent.key, &agent.origin, Scalar::from_u16(agent.size), Some(Scalar::from_u16(agent.vision_range)))
        .unwrap();
    agent.physics_handle = Some(handle);
    agent
}

#[test]
fn new_agent_has_full_energy_and_no_rival() {
    let agent = Agent::new(at(12, 34), 7, 250);
    assert_eq!(place(agent.pos), (12.0, 34.0));
    assert_eq!(agent.origin, at(12, 34));
    assert_eq!(agent.size, 7);
    assert_eq!(agent.vision_range, 250);
    assert_eq!(agent.eng, 7 * 7 * 10 * 1_000_000);
    assert_eq!(agent.max_eng, 490_000_000);
    assert_eq!(LIFETIME_PER_SIZE * SECOND, 10_000_000);
    assert!(agent.alife);
    assert!(!agent.decision_due);
    assert_eq!(agent.enemy, None);
    assert_eq!(agent.enemy_position, None);
    assert_eq!(agent.detected, None);
    assert_eq!(agent.physics_handle, None);
    assert!(!agent.is_tracking());
    assert_eq!(agent.analize_timer.duration, SENSING_INTERVAL);
    assert!(agent.analize_timer.time < 300_000);
    assert!(agent.analize_timer.is_running());
    assert_eq!(agent.analizer.outputs(), 2);
    assert_eq!(agent.rot.to_bits(), 0);
    assert_eq!(agent.vel.to_bits(), 0);
}

#[test]
fn largest_agent_has_energy_without_overflow() {
    let agent = Agent::new(at(0, 0), u16::MAX, 1);
    assert_eq!(agent.eng, 65535i128 * 65535 * 10_000_000);
}

#[test]
fn new_agents_have_different_keys() {
    let a = Agent::new(at(0, 0), 5, 100);
    let b = Agent::new(at(0, 0), 5, 100);
    assert_ne!(a.key, b.key);
}

#[test]
fn a_step_spends_size_times_time() {
    let world = World::new();
    let mut agent = Agent::new(at(0, 0), 4, 100);
    agent.analize_timer.stop();
    assert_eq!(agent.eng, 160_000_000);
    assert!(agent.update(1_000_000, &world));
    assert_eq!(agent.eng, 156_000_000);
    assert!(agent.update(33_333, &world));
    assert_eq!(agent.eng, 156_000_000 - 4 * 33_333);
}

#[test]
fn agent_dies_the_step_after_its_energy_is_spent() {
    let world = World::new();
    let mut agent = Agent::new(at(0, 0), 4, 100);
    agent.analize_timer.stop();
    assert!(agent.update(39_000_000, &world));
    assert_eq!(agent.eng, 4_000_000);
    assert!(agent.update(2_000_000, &world));
    assert_eq!(agent.eng, -4_000_000);
    assert!(agent.alife);
    assert!(!agent.update(1, &world));
    assert!(!agent.alife);
    assert_eq!(agent.eng, 0);
    assert!(!agent.update(1, &world));
}

#[test]
fn a_very_long_step_spends_all_energy_without_overflow() {
    let world = World::new();
    let mut agent = Agent::new(at(0, 0), u16::MAX, 100);
    agent.analize_timer.stop();
    assert!(agent.update(u64::MAX, &world));
    assert_eq!(agent.eng, 65535i128 * 65535 * 10_000_000 - 65535 * 18_446_744_073_709_551_615i128);
    assert!(!agent.update(u64::MAX, &world));
    assert_eq!(agent.eng, 0);
}

#[test]
fn added_energy_stops_at_the_most() {
    let mut agent = Agent::new(at(0, 0), 4, 100);
    agent.eng = 100;
    agent.add_energy(50);
    assert_eq!(agent.eng, 150);
    agent.add_energy(u64::MAX);
    assert_eq!(agent.eng, 160_000_000);
    agent.add_energy(1);
    assert_eq!(agent.eng, 160_000_000);
    agent.eng = -30;
    agent.add_energy(50);
    assert_eq!(agent.eng, 20);
}

#[test]
fn sensing_is_refreshed_when_the_timer_fires() {
    let mut world = World::new();
    let mut agent = embodied(&mut world, 100, 100, 5, 80);
    let rival = world.add_circle_body(5, &at(140, 100), Scalar::from_u16(5), None).unwrap();
    world.step_physics();
    agent.analize_timer.time = 0;
    assert!(agent.update(299_999, &world));
    assert!(!agent.decision_due);
    assert_eq!(agent.enemy, None);
    assert!(agent.update(1, &world));
    assert!(agent.decision_due);
    assert_eq!(agent.enemy, Some(rival));
    assert_eq!(place(agent.enemy_position.unwrap()), (140.0, 100.0));
    let found = agent.detected.unwrap();
    assert_eq!(found.target_handle, rival);
    assert_eq!(number(found.dist), 40.0);
    assert!(agent.update(1, &world));
    assert!(!agent.decision_due);
    assert_eq!(agent.enemy, Some(rival));
}

#[test]
fn sensing_nothing_makes_the_agent_idle() {
    let mut world = World::new();
    let mut agent = embodied(&mut world, 100, 100, 5, 80);
    let rival = world.add_circle_body(5, &at(140, 100), Scalar::from_u16(5), None).unwrap();
    world.step_physics();
    let found = world.get_detection(agent.physics_handle.unwrap());
    agent.sense(found, &world);
    assert_eq!(agent.enemy, Some(rival));
    world.set_body_x(rival, 2000);
    world.step_physics();
    agent.analize_timer.time = 0;
    agent.update(300_000, &world);
    assert!(agent.decision_due);
    assert_eq!(agent.enemy, None);
    assert_eq!(agent.enemy_position, None);
    assert_eq!(agent.detected, None);
}

#[test]
fn tracked_rival_is_followed_every_tick() {
    let mut world = World::new();
    let mut agent = embodied(&mut world, 100, 100, 5, 80);
    let rival = world.add_circle_body(5, &at(140, 100), Scalar::from_u16(5), None).unwrap();
    world.step_physics();
    let found = world.get_detection(agent.physics_handle.unwrap());
    agent.sense(found, &world);
    world.set_body_y(rival, 120);
    agent.update_enemy_position(&world);
    assert_eq!(agent.enemy, Some(rival));
    assert_eq!(place(agent.enemy_position.unwrap()), (140.0, 120.0));
    agent.forget_enemy();
    assert_eq!(agent.enemy, None);
    assert_eq!(agent.enemy_position, None);
}

#[test]
fn agent_without_a_live_body_keeps_its_pose() {
    let mut world = World::new();
    let mut agent = embodied(&mut world, -50, 100, 5, 80);
    world.remove_physics_object(agent.physics_handle.unwrap());
    agent.update2(&mut world);
    assert_eq!(place(agent.pos), (-50.0, 100.0));
    let mut loose = Agent::new(at(-50, 100), 5, 80);
    loose.update2(&mut world);
    assert_eq!(place(loose.pos), (-50.0, 100.0));
}

#[test]
fn box_takes_agents_under_their_keys() {
    let mut world = World::new();
    let mut agents = AgentsBox::new();
    assert_eq!(agents.count(), 0);
    let agent = Agent::new(at(10, 20), 5, 100);
    let key = agents.add_agent(agent, &mut world).unwrap();
    assert_eq!(key, agent.key);
    assert_eq!(agents.count(), 1);
    assert_eq!(world.get_physics_obj_num(), 1);
    let held = agents.get(key).unwrap();
    let handle = held.physics_handle.unwrap();
    assert_eq!(world.get_owner_key(handle), Some(key));
    assert_eq!(place(world.get_object_position(handle).unwrap()), (10.0, 20.0));
    assert!(agents.get(key.wrapping_add(1)).is_none());
    assert_eq!(agents.find(key), Some(0));
    agents.remove(key);
    assert_eq!(agents.count(), 0);
    assert!(agents.get(key).is_none());
    agents.remove(key);
    assert_eq!(agents.count(), 0);
}

#[test]
fn box_gives_the_agent_a_sensor_of_its_vision_range() {
    let mut world = World::new();
    let mut agents = AgentsBox::new();
    let key = agents.add_agent(Agent::new(at(500, 500), 5, 100), &mut world).unwrap();
    let rival = world.add_circle_body(1, &at(560, 500), Scalar::from_u16(5), None).unwrap();
    world.step_physics();
    let handle = agents.get(key).unwrap().physics_handle.unwrap();
    assert_eq!(world.get_closesd_agent(handle), Some(rival));
}

#[test]
fn box_replaces_an_agent_that_has_the_same_key() {
    let mut world = World::new();
    let mut agents = AgentsBox::new();
    let first = Agent::new(at(10, 20), 5, 100);
    let mut second = Agent::new(at(30, 40), 6, 100);
    second.key = first.key;
    agents.add_agent(first, &mut world).unwrap();
    agents.add_agent(second, &mut world).unwrap();
    assert_eq!(agents.count(), 1);
    assert_eq!(agents.get(first.key).unwrap().size, 6);
}

#[test]
fn box_refuses_an_agent_of_size_zero() {
    let mut world = World::new();
    let mut agents = AgentsBox::new();
    let r = agents.add_agent(Agent::new(at(10, 20), 0, 100), &mut world);
    assert_eq!(r, Err(WorldError::InvalidRadius));
    assert_eq!(agents.count(), 0);
    assert_eq!(world.get_physics_obj_num(), 0);
}

#[test]
fn box_takes_many_agents_and_passes_over_the_refused() {
    let mut world = World::new();
    let mut agents = AgentsBox::new();
    let fresh = vec![
        Agent::new(at(10, 20), 5, 100),
        Agent::new(at(10, 20), 0, 100),
        Agent::new(at(50, 60), 6, 100),
    ];
    assert_eq!(agents.add_many_agents(&fresh, &mut world), 2);
    assert_eq!(agents.count(), 2);
    assert_eq!(world.get_physics_obj_num(), 2);
}

#[test]
fn tick_holds_every_agent_in_the_arena() {
    let mut world = World::new();
    let mut agents = AgentsBox::new();
    let spots = [(-10, 500), (4000, 500), (100, -30), (100, 2000), (-1, -1), (1600, 900)];
    for (x, y) in spots {
        agents.add_agent(Agent::new(at(x, y), 5, 50), &mut world).unwrap();
    }
    agents.update_agents(1000, &mut world);
    assert_eq!(agents.count(), 6);
    for agent in agents.agents.iter() {
        let (x, y) = place(agent.pos);
        assert!(0.0 <= x && x <= 3200.0 && 0.0 <= y && y <= 1800.0);
        let body = world.get_object_position(agent.physics_handle.unwrap()).unwrap();
        assert_eq!(place(body), (x, y));
    }
    assert_eq!(place(agents.agents[0].pos), (0.0, 500.0));
    assert_eq!(place(agents.agents[1].pos), (3200.0, 500.0));
    assert_eq!(place(agents.agents[2].pos), (100.0, 0.0));
    assert_eq!(place(agents.agents[3].pos), (100.0, 1800.0));
    assert_eq!(place(agents.agents[4].pos), (0.0, 0.0));
    assert_eq!(place(agents.agents[5].pos), (1600.0, 900.0));
}

#[test]
fn tick_drops_the_dead_and_removes_their_bodies() {
    let mut world = World::new();
    let mut agents = AgentsBox::new();
    let doomed = agents.add_agent(Agent::new(at(100, 100), 5, 50), &mut world).unwrap();
    let healthy = agents.add_agent(Agent::new(at(300, 300), 5, 50), &mut world).unwrap();
    agents.agents[0].eng = 0;
    let body = agents.get(doomed).unwrap().physics_handle.unwrap();
    agents.update_agents(1000, &mut world);
    assert_eq!(agents.count(), 1);
    assert!(agents.get(doomed).is_none());
    assert!(agents.get(healthy).is_some());
    assert!(world.get_physics_data(body).is_none());
    assert_eq!(world.get_physics_obj_num(), 1);
}

#[test]
fn tick_makes_an_agent_idle_whose_rival_died() {
    let mut world = World::new();
    let mut agents = AgentsBox::new();
    let hunter = agents.add_agent(Agent::new(at(100, 100), 5, 80), &mut world).unwrap();
    let prey = agents.add_agent(Agent::new(at(150, 100), 5, 10), &mut world).unwrap();
    world.step_physics();
    let prey_body = agents.get(prey).unwrap().physics_handle.unwrap();
    let hunter_body = agents.get(hunter).unwrap().physics_handle.unwrap();
    let found = world.get_detection(hunter_body);
    agents.agents[0].sense(found, &world);
    assert_eq!(agents.agents[0].enemy, Some(prey_body));
    agents.agents[0].analize_timer.stop();
    agents.agents[1].eng = 0;
    agents.update_agents(1000, &mut world);
    assert_eq!(agents.count(), 1);
    assert_eq!(agents.agents[0].enemy, Some(prey_body));
    agents.update_agents(1000, &mut world);
    assert_eq!(agents.agents[0].enemy, None);
    assert_eq!(agents.agents[0].enemy_position, None);
}

#[test]
fn box_hands_out_its_agents_in_order() {
    let mut world = World::new();
    let mut agents = AgentsBox::new();
    let a = Agent::new(at(10, 20), 5, 100);
    let b = Agent::new(at(30, 40), 6, 100);
    agents.add_agent(a, &mut world).unwrap();
    agents.add_agent(b, &mut world).unwrap();
    let all = agents.get_iter();
    assert_eq!(all.len(), 2);
    assert_eq!(all[0].key, a.key);
    assert_eq!(all[1].key, b.key);
    assert!(agents.has_distinct_keys());
    assert!(agents.is_embodied(&world));
    agents.agents[1].key = a.key;
    assert!(!agents.has_distinct_keys());
    agents.agents[1].key = b.key;
    world.remove_physics_object(all_handle(&agents, 0));
    assert!(!agents.is_embodied(&world));
}

fn all_handle(agents: &AgentsBox, index: usize) -> live_sim::solver::BodyHandle {
    agents.agents[index].physics_handle.unwrap()
}

#[test]
fn agents_that_share_a_body_are_not_embodied() {
    let mut world = World::new();
    let mut agents = AgentsBox::new();
    agents.add_agent(Agent::new(at(10, 20), 5, 100), &mut world).unwrap();
    agents.add_agent(Agent::new(at(30, 40), 6, 100), &mut world).unwrap();
    let shared = agents.agents[0].physics_handle;
    agents.agents[1].physics_handle = shared;
    assert!(!agents.is_embodied(&world));
    agents.agents[1].physics_handle = None;
    assert!(!agents.is_embodied(&world));
}

#[test]
fn the_intent_of_an_agent_is_written_to_its_body() {
    let mut world = World::new();
    let mut agent = Agent::new(at(100, 100), 5, 50);
    agent.ang_vel = Scalar::from_bits(0.5f32.to_bits());
    let handle = world
        .add_circle_body(agent.key, &agent.origin, Scalar::from_u16(agent.size), None)
        .unwrap();
    agent.physics_handle = Some(handle);
    let wanted = Point { x: Scalar::from_bits(3.0f32.to_bits()), y: Scalar::from_bits((-4.0f32).to_bits()) };
    agent.write_intent(wanted, &mut world);
    let (velocity, spin) = world.get_velocity(handle).unwrap();
    assert_eq!(velocity, wanted);
    assert_eq!(spin, agent.ang_vel);
    assert_eq!(world.get_object_position(handle), Some(at(100, 100)));
    let loose = Agent::new(at(1, 1), 5, 50);
    loose.write_intent(at(9, 9), &mut world);
    assert_eq!(world.get_velocity(handle).unwrap().0, wanted);
    assert_eq!(world.get_physics_obj_num(), 1);
}
