use live_sim::agent::Agent;
use live_sim::consts::{AGENT_SPEED, AGENT_VISION_RANGE, ASTER_NUM};
use live_sim::element::Asteroid;
use live_sim::scalar::Scalar;
use live_sim::sim::{MouseState, SimConfig, SimState, Simulation, Spawn};
use live_sim::solver::{GridPoint, Point};

fn number(bits: Scalar) -> f32 {
    f32::from_bits(bits.to_bits())
}

fn corner(x: i16, y: i16) -> GridPoint {
    GridPoint { x, y }
}

fn at(x: i16, y: i16) -> Point {
    Point::on_grid(x, y)
}

fn diamond() -> Vec<GridPoint> {
    vec![corner(10, 0), corner(0, 10), corner(-10, 0), corner(0, -10)]
}

fn spawn(x: i16, y: i16) -> Spawn {
    Spawn {
        wished: Agent::new(at(x, y), 5, 100),
        refill: Agent::new(at(y, x), 6, 100),
        debris: Asteroid::new(at(x, y), 10, diamond(), at(20, -10)),
    }
}

#[test]
fn default_configuration() {
    let config = SimConfig::default();
    assert_eq!(config.agents_init_num, 0);
    assert_eq!(config.agent_min_num, 0);
    assert_eq!(config.agent_speed, 40);
    assert_eq!(config.agent_speed, AGENT_SPEED);
    assert_eq!(config.agent_rotation, 2);
    assert_eq!(config.agent_vision_range, 250);
    assert_eq!(config.agent_vision_range, AGENT_VISION_RANGE);
    assert_eq!(config.sources_init_num, 0);
    assert_eq!(config.sources_min_num, 0);
}

#[test]
fn configuration_keeps_what_it_is_given() {
    let config = SimConfig::new(1, 2, 3, 4, 5, 6, 7);
    assert_eq!(config.agents_init_num, 1);
    assert_eq!(config.agent_min_num, 2);
    assert_eq!(config.agent_speed, 3);
    assert_eq!(config.agent_rotation, 4);
    assert_eq!(config.agent_vision_range, 5);
    assert_eq!(config.sources_init_num, 6);
    assert_eq!(config.sources_min_num, 7);
}

#[test]
fn new_state_is_all_zero() {
    let state = SimState::new();
    assert_eq!(state.sim_name, "");
    assert_eq!(state.agents_num, 0);
    assert_eq!(state.sources_num, 0);
    assert_eq!(state.asteroids_num, 0);
    assert_eq!(state.physics_num, 0);
    assert_eq!(state.sim_time, 0);
    assert_eq!(state.fps, 0);
    assert_eq!(state.dt, 0);
    assert_eq!(MouseState { pos: None }.pos, None);
}

#[test]
fn new_simulation_is_empty_and_does_not_run() {
    let sim = Simulation::new(SimConfig::default());
    assert!(!sim.is_running());
    assert_eq!(sim.agents.count(), 0);
    assert_eq!(sim.elements.count(), 0);
    assert_eq!(sim.world.get_physics_obj_num(), 0);
    assert_eq!(sim.selected, 0);
    assert_eq!(sim.simulation_name, "");
}

#[test]
fn autorun_asks_for_a_simulation_and_the_check_starts_it() {
    let mut sim = Simulation::new(SimConfig::default());
    sim.init(&vec![Agent::new(at(1, 1), 5, 100)], Vec::new());
    assert_eq!(sim.agents.count(), 1);
    sim.autorun_new_sim();
    assert!(sim.signals.new_sim);
    assert_eq!(sim.signals.new_sim_name, "Simulation");
    assert!(!sim.is_running());
    sim.signals_check(Agent::new(at(0, 0), 5, 100));
    assert!(sim.is_running());
    assert!(!sim.signals.new_sim);
    assert_eq!(sim.simulation_name, "Simulation");
    assert_eq!(sim.sim_state.sim_name, "Simulation");
    assert_eq!(sim.agents.count(), 0);
    assert_eq!(sim.world.get_physics_obj_num(), 0);
}

#[test]
fn reset_throws_everything_away() {
    let mut sim = Simulation::new(SimConfig::default());
    let taken = sim.init(
        &vec![Agent::new(at(1, 1), 5, 100), Agent::new(at(1, 1), 0, 100)],
        vec![Asteroid::new(at(9, 9), 10, diamond(), at(0, 0))],
    );
    assert_eq!(taken, (1, 1));
    assert_eq!(sim.world.get_physics_obj_num(), 2);
    sim.selected = 17;
    sim.reset_sim(None);
    assert!(sim.is_running());
    assert_eq!(sim.simulation_name, "");
    assert_eq!(sim.agents.count(), 0);
    assert_eq!(sim.elements.count(), 0);
    assert_eq!(sim.world.get_physics_obj_num(), 0);
    assert_eq!(sim.selected, 0);
    sim.reset_sim(Some("second"));
    assert_eq!(sim.simulation_name, "second");
    assert_eq!(sim.sim_state.sim_name, "second");
}

#[test]
fn wished_agent_is_taken_in() {
    let mut sim = Simulation::new(SimConfig::default());
    sim.signals.spawn_agent = true;
    let wished = Agent::new(at(40, 40), 5, 100);
    sim.signals_check(wished);
    assert!(!sim.signals.spawn_agent);
    assert_eq!(sim.agents.count(), 1);
    assert!(sim.agents.get(wished.key).is_some());
    sim.signals_check(Agent::new(at(40, 40), 5, 100));
    assert_eq!(sim.agents.count(), 1);
}

#[test]
fn frame_is_noted() {
    let mut sim = Simulation::new(SimConfig::default());
    sim.init(&vec![Agent::new(at(1, 1), 5, 100)], Vec::new());
    sim.update_sim_state(16_000, 60);
    assert_eq!(sim.sim_state.dt, 16_000);
    assert_eq!(sim.sim_state.fps, 60);
    assert_eq!(sim.sim_state.sim_time, 16_000);
    assert_eq!(sim.sim_state.agents_num, 1);
    assert_eq!(sim.sim_state.physics_num, 1);
    sim.update_sim_state(17_000, 59);
    assert_eq!(sim.sim_state.sim_time, 33_000);
    sim.update_sim_state(u64::MAX, 1);
    assert_eq!(sim.sim_state.sim_time, u64::MAX);
}

#[test]
fn numbers_are_made_up() {
    let mut sim = Simulation::new(SimConfig::new(0, 2, 40, 2, 250, 0, 0));
    sim.update_sim_state(1000, 60);
    let refill = Agent::new(at(10, 10), 5, 100);
    sim.check_agents_num(refill, Asteroid::new(at(9, 9), 10, diamond(), at(0, 0)));
    assert_eq!(sim.agents.count(), 1);
    assert!(sim.agents.get(refill.key).is_some());
    assert_eq!(sim.elements.count(), 1);
    sim.update_sim_state(1000, 60);
    sim.check_agents_num(
        Agent::new(at(10, 10), 5, 100),
        Asteroid::new(at(9, 9), 10, diamond(), at(0, 0)),
    );
    assert_eq!(sim.agents.count(), 2);
    sim.update_sim_state(1000, 60);
    sim.check_agents_num(
        Agent::new(at(10, 10), 5, 100),
        Asteroid::new(at(9, 9), 10, diamond(), at(0, 0)),
    );
    assert_eq!(sim.agents.count(), 2);
    assert!(ASTER_NUM > 3);
    assert_eq!(sim.elements.count(), 3);
}

#[test]
fn ticks_keep_every_agent_in_the_arena_and_debris_near_it() {
    let mut sim = Simulation::new(SimConfig::new(0, 3, 40, 2, 250, 0, 0));
    sim.reset_sim(Some("run"));
    let spots = [(-200, 900), (3400, 900), (1600, -200), (1600, 2000), (3190, 1790), (10, 10)];
    for tick in 0..60 {
        let (x, y) = spots[tick % spots.len()];
        sim.update(33_333, 30, spawn(x, y));
        for agent in sim.agents.agents.iter() {
            let (x, y) = (number(agent.pos.x), number(agent.pos.y));
            assert!(0.0 <= x && x <= 3200.0 && 0.0 <= y && y <= 1800.0);
            assert!(agent.alife);
        }
        for piece in sim.elements.elements.iter() {
            let (x, y) = (number(piece.pos.x), number(piece.pos.y));
            assert!(-5.0 <= x && x <= 3205.0 && -5.0 <= y && y <= 1805.0);
        }
    }
    assert_eq!(sim.agents.count(), 3);
    assert_eq!(sim.elements.count(), 60);
    assert_eq!(sim.sim_state.asteroids_num, 60);
    assert_eq!(sim.sim_state.sim_time, 60 * 33_333);
    assert_eq!(sim.world.get_physics_obj_num(), 63);
}

#[test]
fn agents_die_of_hunger_and_are_replaced() {
    let mut sim = Simulation::new(SimConfig::new(0, 1, 40, 2, 250, 0, 0));
    sim.reset_sim(None);
    sim.update(1_000_000, 1, spawn(100, 100));
    assert_eq!(sim.agents.count(), 1);
    let first = sim.agents.agents[0].key;
    for _ in 0..62 {
        sim.update(1_000_000, 1, spawn(100, 100));
    }
    assert_eq!(sim.agents.count(), 1);
    assert_ne!(sim.agents.agents[0].key, first);
    assert_eq!(sim.world.get_physics_obj_num(), 1 + sim.elements.count());
}

#[test]
fn simulation_is_sound_until_its_fields_are_put_out_of_step() {
    let mut sim = Simulation::new(SimConfig::new(0, 2, 40, 2, 250, 0, 0));
    assert!(sim.is_sound());
    sim.reset_sim(None);
    for _ in 0..5 {
        sim.update(33_333, 30, spawn(200, 300));
        assert!(sim.is_sound());
    }
    sim.prepare(33_333, 30, spawn(200, 300));
    assert!(sim.is_sound());
    sim.advance();
    assert!(sim.is_sound());
    let shared = sim.agents.agents[0].physics_handle;
    let own = sim.elements.elements[0].physics_handle;
    sim.elements.elements[0].physics_handle = shared;
    assert!(!sim.is_sound());
    sim.elements.elements[0].physics_handle = own;
    assert!(sim.is_sound());
    sim.world.remove_physics_object(own.unwrap());
    assert!(!sim.is_sound());
}
