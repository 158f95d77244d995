//! Agents: the entities that sense their rivals.
use crate::chance::random_key;
use crate::consts::{WORLD_H, WORLD_W};
use crate::containment::{clamp, lemma_clamp_contains, moved_to, spec_clamp, within};
use crate::neuro::DummyNetwork;
use crate::scalar::{lemma_of_int_is_number, lemma_of_int_order, Scalar};
pub use crate::sensing::Detected;
use crate::solver::{changes_spin, changes_velocity, keeps_bodies, BodyHandle, BodyState, Point};
use crate::timer::Timer;
use crate::world::{World, WorldError};
use vstd::prelude::*;

verus! {

/// The time between two sensing refreshes of an agent, in microseconds.
pub const SENSING_INTERVAL: u64 = 300_000;

/// One second, in microseconds.
pub const SECOND: u64 = 1_000_000;

/// The seconds that an agent of size 1 lives on its first energy.
pub const LIFETIME_PER_SIZE: u64 = 10;

/// What an agent makes of its surroundings.
#[derive(Clone, Copy, Debug, PartialEq, Eq, Structural)]
pub enum Perception {
    /// No rival is tracked.
    Idle,
    /// The body `target` is tracked.
    Tracking { target: BodyHandle },
}

/// An agent: a circular body with a sensor ring, an energy budget and at
/// most one sensed rival.
///
/// Energy is counted in units of which an agent of size `s` spends `s` in
/// a microsecond.
#[derive(Clone, Copy, Debug, PartialEq, Eq, Structural)]
pub struct Agent {
    pub key: u64,
    /// Where the body is created.
    pub origin: Point,
    /// The position of the body when it was last pulled from the world.
    pub pos: Point,
    /// The angle of the body when it was last pulled from the world.
    pub rot: Scalar,
    /// The speed that the agent wants to move at.
    pub vel: Scalar,
    /// The angular velocity that the agent wants to turn at.
    pub ang_vel: Scalar,
    pub size: u16,
    pub vision_range: u16,
    pub max_eng: u64,
    /// The energy left, in microseconds of life for a unit of size. The
    /// step that spends the last of it leaves a debt.
    pub eng: i128,
    pub analize_timer: Timer,
    pub analizer: DummyNetwork,
    pub alife: bool,
    /// Whether the last update refreshed the sensing, so that a decision on
    /// speed and turn is due.
    pub decision_due: bool,
    /// The rival that the last sensing found, with its distance then.
    pub detected: Option<Detected>,
    /// The rival that the agent tracks.
    pub enemy: Option<BodyHandle>,
    /// Where the tracked rival was when last resolved.
    pub enemy_position: Option<Point>,
    pub physics_handle: Option<BodyHandle>,
}

/// The body `state` moved into the arena.
pub open spec fn clamped_state(state: BodyState) -> BodyState {
    BodyState {
        position: Point {
            x: moved_to(state.position.x, spec_clamp(state.position.x, WORLD_W)),
            y: moved_to(state.position.y, spec_clamp(state.position.y, WORLD_H)),
        },
        ..state
    }
}

/// Whether each coordinate of `p` that is a number lies in the arena.
pub open spec fn in_arena(p: Point) -> bool {
    &&& p.x.spec_is_nan() || within(p.x, 0, WORLD_W as int)
    &&& p.y.spec_is_nan() || within(p.y, 0, WORLD_H as int)
}

/// A body that was moved into the arena is in the arena, and moving it
/// there again changes nothing.
pub proof fn lemma_clamped_state_in_arena(state: BodyState)
    ensures
        in_arena(clamped_state(state).position),
        clamped_state(clamped_state(state)) == clamped_state(state),
{
    lemma_of_int_is_number(0);
    lemma_of_int_is_number(WORLD_W as int);
    lemma_of_int_is_number(WORLD_H as int);
    lemma_of_int_order(0, WORLD_W as int);
    lemma_of_int_order(0, WORLD_H as int);
    if !state.position.x.spec_is_nan() {
        lemma_clamp_contains(state.position.x, WORLD_W);
    }
    if !state.position.y.spec_is_nan() {
        lemma_clamp_contains(state.position.y, WORLD_H);
    }
}

impl Agent {
    /// Whether the agent lives on after a step: it was alive and had
    /// energy left.
    pub open spec fn survives(self) -> bool {
        self.alife && self.eng > 0
    }

    /// The energy that an agent of the given size starts with.
    pub open spec fn initial_energy(size: u16) -> int {
        size * size * LIFETIME_PER_SIZE * SECOND
    }

    /// The agent without a rival.
    pub open spec fn idle(self) -> Agent {
        Agent { detected: None, enemy: None, enemy_position: None, ..self }
    }

    /// The agent after its rival is resolved among `bodies`: it goes on
    /// tracking a rival that is live, at the rival's position, and is idle
    /// otherwise.
    pub open spec fn resolved(self, bodies: Map<BodyHandle, BodyState>) -> Agent {
        match self.enemy {
            Some(target) if bodies.contains_key(target) => Agent {
                enemy_position: Some(bodies[target].position),
                ..self
            },
            _ => self.idle(),
        }
    }

    /// The agent after it has sensed `found`.
    pub open spec fn sensing(self, found: Option<Detected>, bodies: Map<BodyHandle, BodyState>) -> Agent {
        match found {
            Some(d) => Agent { detected: found, enemy: Some(d.target_handle), ..self }.resolved(bodies),
            None => self.idle(),
        }
    }

    /// The agent with its pose pulled from the world and held in the arena.
    pub open spec fn pulled(self, bodies: Map<BodyHandle, BodyState>) -> Agent {
        match self.physics_handle {
            Some(handle) if bodies.contains_key(handle) => Agent {
                pos: clamped_state(bodies[handle]).position,
                rot: bodies[handle].angle,
                ..self
            },
            _ => self,
        }
    }

    /// The bodies after this agent's body is held in the arena.
    pub open spec fn contained(self, bodies: Map<BodyHandle, BodyState>) -> Map<BodyHandle, BodyState> {
        match self.physics_handle {
            Some(handle) if bodies.contains_key(handle) => bodies.insert(
                handle,
                clamped_state(bodies[handle]),
            ),
            _ => bodies,
        }
    }

    /// The energy left after `dt` microseconds: an agent that has some
    /// spends its size for each microsecond, into debt if it has less, and
    /// one that has none is left with none.
    pub open spec fn drained(self, dt: u64) -> i128 {
        if self.eng > 0 {
            (self.eng - self.size * dt) as i128
        } else {
            0
        }
    }

    /// A live agent of the given size and vision range at `pos`, with a
    /// fresh key, full energy, no body and no rival. Its sensing timer runs
    /// and starts at a random time within its interval.
    pub fn new(pos: Point, size: u16, vision_range: u16) -> (agent: Agent)
        ensures
            agent.origin == pos,
            agent.pos == pos,
            agent.rot == Scalar::of_int(0),
            agent.vel == Scalar::of_int(0),
            agent.ang_vel == Scalar::of_int(0),
            agent.size == size,
            agent.vision_range == vision_range,
            agent.eng == Self::initial_energy(size),
            agent.max_eng == agent.eng,
            agent.alife,
            !agent.decision_due,
            agent.detected is None,
            agent.enemy is None,
            agent.enemy_position is None,
            agent.physics_handle is None,
            agent.analize_timer.duration == SENSING_INTERVAL,
            agent.analize_timer.repeat,
            agent.analize_timer.running(),
            agent.analize_timer.time < SENSING_INTERVAL,
            agent.analizer.spec_outputs() == 2,
    {
        assert(size * size <= 0xffff * 0xffff) by (nonlinear_arith)
            requires
                size <= 0xffff,
        ;
        let area: u64 = (size as u64) * (size as u64);
        let energy: u64 = area * 10_000_000;
        assert(energy == Self::initial_energy(size)) by (nonlinear_arith)
            requires
                energy == size * size * 10_000_000,
                LIFETIME_PER_SIZE == 10,
                SECOND == 1_000_000,
        ;
        let zero = Scalar::from_i16(0);
        Agent {
            key: random_key(),
            origin: pos,
            pos,
            rot: zero,
            vel: zero,
            ang_vel: zero,
            size,
            vision_range,
            max_eng: energy,
            eng: energy as i128,
            analize_timer: Timer::new(SENSING_INTERVAL, true, true, true),
            analizer: DummyNetwork::new(2),
            alife: true,
            decision_due: false,
            detected: None,
            enemy: None,
            enemy_position: None,
            physics_handle: None,
        }
    }

    /// What the agent makes of its surroundings.
    pub open spec fn spec_perception(self) -> Perception {
        match self.enemy {
            Some(target) => Perception::Tracking { target },
            None => Perception::Idle,
        }
    }

    /// What the agent makes of its surroundings.
    pub fn perception(&self) -> (r: Perception)
        ensures
            r == self.spec_perception(),
    {
        match self.enemy {
            Some(target) => Perception::Tracking { target },
            None => Perception::Idle,
        }
    }

    /// Whether the agent tracks a rival.
    pub fn is_tracking(&self) -> (r: bool)
        ensures
            r == self.enemy is Some,
    {
        self.enemy.is_some()
    }

    /// The step of every tick: resolves the tracked rival again, then pulls
    /// the pose of the agent's body from the world and holds the body in
    /// the arena. An agent without a live body keeps its pose.
    pub fn update2(&mut self, physics: &mut World)
        ensures
            *final(self) == old(self).resolved(old(physics)@).pulled(old(physics)@),
            final(physics)@ == old(self).contained(old(physics)@),
            final(physics).collider_kinds() == old(physics).collider_kinds(),
            final(physics).can_count() == old(physics).can_count(),
    {
        self.update_enemy_position(physics);
        match self.physics_handle {
            Some(handle) => match physics.get_physics_data(handle) {
                Some(data) => {
                    let ghost before = physics@;
                    let mut pos = data.position;
                    match clamp(pos.x, WORLD_W) {
                        Some(x) => {
                            physics.set_body_x(handle, x);
                            pos.x = Scalar::from_i16(x);
                        },
                        None => {},
                    }
                    match clamp(pos.y, WORLD_H) {
                        Some(y) => {
                            physics.set_body_y(handle, y);
                            pos.y = Scalar::from_i16(y);
                        },
                        None => {},
                    }
                    self.pos = pos;
                    self.rot = data.rotation;
                    assert(physics@ == before.insert(handle, clamped_state(before[handle])));
                },
                None => {},
            },
            None => {},
        }
    }

    /// Writes to the agent's body what the agent wants of the solver for
    /// this tick: the velocity `velocity`, which is the agent's speed along
    /// its heading, and then the agent's angular velocity. Nothing else in
    /// the world changes, and an agent without a body writes nothing.
    pub fn write_intent(&self, velocity: Point, physics: &mut World)
        ensures
            intent_written(old(physics)@, final(physics)@, self.physics_handle, velocity, self.ang_vel),
            final(physics).collider_kinds() == old(physics).collider_kinds(),
            final(physics).can_count() == old(physics).can_count(),
            final(physics).can_step() == old(physics).can_step(),
            final(physics).generation() == old(physics).generation(),
    {
        match self.physics_handle {
            Some(handle) => {
                physics.set_body_linvel(handle, velocity);
                let ghost between = physics@;
                physics.set_body_angvel(handle, self.ang_vel);
                assert(changes_velocity(old(physics)@, between, handle, velocity) && changes_spin(
                    between,
                    physics@,
                    handle,
                    self.ang_vel,
                ));
            },
            None => {},
        }
    }

    /// Resolves the tracked rival again: an agent whose rival is no longer
    /// live is idle at once.
    pub fn update_enemy_position(&mut self, physics: &World)
        ensures
            *final(self) == old(self).resolved(physics@),
    {
        match self.enemy {
            Some(target) => match physics.get_object_position(target) {
                Some(position) => {
                    self.enemy_position = Some(position);
                },
                None => {
                    self.forget_enemy();
                },
            },
            None => {
                self.forget_enemy();
            },
        }
    }

    /// Makes the agent idle.
    pub fn forget_enemy(&mut self)
        ensures
            *final(self) == old(self).idle(),
    {
        self.detected = None;
        self.enemy = None;
        self.enemy_position = None;
    }

    /// Takes what a sensing refresh found.
    pub fn sense(&mut self, found: Option<Detected>, physics: &World)
        ensures
            *final(self) == old(self).sensing(found, physics@),
    {
        match found {
            Some(d) => {
                self.detected = found;
                self.enemy = Some(d.target_handle);
                self.update_enemy_position(physics);
            },
            None => {
                self.forget_enemy();
            },
        }
    }

    /// The agent after the step of `dt` microseconds in `physics`: its
    /// sensing timer has advanced; if the timer fires and the agent has a
    /// body, it has taken what that body senses nearest; it has spent
    /// energy, and is alive if it was and had energy left.
    pub open spec fn after_update(self, dt: u64, physics: &World) -> Agent {
        let timer = self.analize_timer.after(dt);
        let aware = match self.physics_handle {
            Some(handle) => if timer.1 {
                self.sensing(physics.spec_detection(handle), physics@)
            } else {
                self
            },
            None => self,
        };
        Agent {
            analize_timer: timer.0,
            decision_due: timer.1,
            eng: self.drained(dt),
            alife: self.survives(),
            ..aware
        }
    }

    /// The step of `dt` microseconds: advances the sensing timer and, when
    /// it fires, senses the nearest rival; then spends energy. An agent
    /// that has none left when the step begins dies. The result says
    /// whether the agent is alive.
    pub fn update(&mut self, dt: u64, physics: &World) -> (alive: bool)
        ensures
            *final(self) == old(self).after_update(dt, physics),
            alive == final(self).alife,
            stepped_from(*old(self), *final(self), dt),
    {
        let due = self.analize_timer.update(dt);
        self.decision_due = due;
        if due {
            match self.physics_handle {
                Some(handle) => {
                    let found = physics.get_detection(handle);
                    self.sense(found, physics);
                },
                None => {},
            }
        }
        if self.eng > 0 {
            assert(self.size * dt <= 0xffff * 0xffff_ffff_ffff_ffff) by (nonlinear_arith)
                requires
                    self.size <= 0xffff,
                    dt <= 0xffff_ffff_ffff_ffff,
            ;
            let cost: i128 = (self.size as i128) * (dt as i128);
            self.eng = self.eng - cost;
        } else {
            self.eng = 0;
            self.alife = false;
        }
        self.alife
    }

    /// Adds energy, up to the most that the agent can hold.
    pub fn add_energy(&mut self, e: u64)
        ensures
            final(self).eng == (if old(self).eng + e > old(self).max_eng {
                old(self).max_eng as int
            } else {
                old(self).eng + e
            }),
            *final(self) == (Agent { eng: final(self).eng, ..*old(self) }),
    {
        let most: i128 = self.max_eng as i128;
        if self.eng >= most {
            self.eng = most;
        } else {
            let sum: i128 = self.eng + (e as i128);
            if sum > most {
                self.eng = most;
            } else {
                self.eng = sum;
            }
        }
    }
}

/// What a tick makes of a tracked rival. An agent whose rival has left
/// the world is idle after the step of the next tick, whether or not its
/// sensing is due, and whatever else is in the world. An agent whose rival
/// is live goes on tracking it, at the position that the rival has in the
/// world.
pub proof fn lemma_rival_is_resolved_every_tick(
    agent: Agent,
    bodies: Map<BodyHandle, BodyState>,
    rival: BodyHandle,
)
    requires
        agent.enemy == Some(rival),
    ensures
        agent.spec_perception() == (Perception::Tracking { target: rival }),
        agent.resolved(bodies.remove(rival)).pulled(bodies.remove(rival)).spec_perception()
            == Perception::Idle,
        agent.resolved(bodies.remove(rival)).pulled(bodies.remove(rival)).enemy is None,
        agent.resolved(bodies.remove(rival)).pulled(bodies.remove(rival)).enemy_position is None,
        agent.resolved(bodies.remove(rival)).pulled(bodies.remove(rival)).detected is None,
        bodies.contains_key(rival) ==> agent.resolved(bodies).pulled(bodies).enemy == Some(rival),
        bodies.contains_key(rival) ==> agent.resolved(bodies).pulled(bodies).enemy_position == Some(
            bodies[rival].position,
        ),
{
}

/// Whether `after` is `before` once the body `body` was given the velocity
/// `velocity` and then the angular velocity `spin`: a dynamic body takes
/// both, at its pose. Without a body nothing changes.
pub open spec fn intent_written(
    before: Map<BodyHandle, BodyState>,
    after: Map<BodyHandle, BodyState>,
    body: Option<BodyHandle>,
    velocity: Point,
    spin: Scalar,
) -> bool {
    match body {
        Some(handle) => exists|between: Map<BodyHandle, BodyState>| #[trigger]
            changes_velocity(before, between, handle, velocity) && changes_spin(between, after, handle, spin),
        None => after == before,
    }
}

/// Whether `after` is `before` but for its pose and its rival.
pub open spec fn same_vitals(before: Agent, after: Agent) -> bool {
    after == (Agent {
        pos: after.pos,
        rot: after.rot,
        detected: after.detected,
        enemy: after.enemy,
        enemy_position: after.enemy_position,
        ..before
    })
}

/// Whether `after` is `before` after a tick of `dt` microseconds, but for
/// its pose and its rival: its timer has advanced, it has spent energy, and
/// it is alive if `before` survives.
pub open spec fn stepped_from(before: Agent, after: Agent, dt: u64) -> bool {
    after == (Agent {
        pos: after.pos,
        rot: after.rot,
        detected: after.detected,
        enemy: after.enemy,
        enemy_position: after.enemy_position,
        analize_timer: before.analize_timer.after(dt).0,
        decision_due: before.analize_timer.after(dt).1,
        eng: before.drained(dt),
        alife: before.survives(),
        ..before
    })
}

/// Whether `after` is one of `before` after a tick of `dt` microseconds.
pub open spec fn stepped_from_one_of(before: Seq<Agent>, after: Agent, dt: u64) -> bool {
    exists|k: int| 0 <= k < before.len() && stepped_from(#[trigger] before[k], after, dt)
}

/// Whether no two of the agents have the same key.
pub open spec fn distinct_keys(agents: Seq<Agent>) -> bool {
    forall|i: int, j: int| 0 <= i < j < agents.len() ==> agents[i].key != agents[j].key
}

/// Whether the agent has a live body among `bodies`.
pub open spec fn has_live_body(agent: Agent, bodies: Map<BodyHandle, BodyState>) -> bool {
    match agent.physics_handle {
        Some(h) => bodies.contains_key(h),
        None => false,
    }
}

/// Whether each of the agents has a live body among `bodies`, and no two
/// have the same.
pub open spec fn embodied(agents: Seq<Agent>, bodies: Map<BodyHandle, BodyState>) -> bool {
    &&& forall|k: int| 0 <= k < agents.len() ==> has_live_body(#[trigger] agents[k], bodies)
    &&& forall|i: int, j: int|
        0 <= i < j < agents.len() ==> agents[i].physics_handle != agents[j].physics_handle
}

/// Whether one of the agents has the body `handle`.
pub open spec fn owns_body(agents: Seq<Agent>, handle: Option<BodyHandle>) -> bool {
    exists|k: int| 0 <= k < agents.len() && #[trigger] agents[k].physics_handle == handle
}

/// Whether each of `after` has a body that one of `before` had, or a body
/// that was not live among `bodies`.
pub open spec fn bodies_are_old_or_new(
    before: Seq<Agent>,
    after: Seq<Agent>,
    bodies: Map<BodyHandle, BodyState>,
) -> bool {
    forall|j: int|
        0 <= j < after.len() ==> owns_body(before, (#[trigger] after[j]).physics_handle) || (
        after[j].physics_handle is Some && !has_live_body(after[j], bodies))
}

/// Whether `agent` is one of the first `count` agents.
pub open spec fn is_among(agents: Seq<Agent>, count: int, agent: Agent) -> bool {
    exists|k: int| 0 <= k < count && agents[k] == agent
}

/// Whether one of the agents has the key `id`.
pub open spec fn has_key(agents: Seq<Agent>, id: u64) -> bool {
    exists|i: int| 0 <= i < agents.len() && agents[i].key == id
}

/// The place of the agent with the key `id`, if there is one.
pub open spec fn place_of(agents: Seq<Agent>, id: u64) -> Option<int> {
    if has_key(agents, id) {
        Some(choose|i: int| 0 <= i < agents.len() && agents[i].key == id)
    } else {
        None
    }
}

/// Among agents with distinct keys, the agent with a key has one place.
pub proof fn lemma_place_is_unique(agents: Seq<Agent>, id: u64, i: int)
    requires
        distinct_keys(agents),
        0 <= i < agents.len(),
        agents[i].key == id,
    ensures
        place_of(agents, id) == Some(i),
{
    let j = choose|j: int| 0 <= j < agents.len() && agents[j].key == id;
    if j < i {
        assert(agents[j].key != agents[i].key);
    } else if i < j {
        assert(agents[i].key != agents[j].key);
    }
}

/// The agents with `agent` among them: in the place of the one that had its
/// key, or else at the end.
pub open spec fn with_agent(agents: Seq<Agent>, agent: Agent) -> Seq<Agent> {
    match place_of(agents, agent.key) {
        Some(i) => agents.update(i, agent),
        None => agents.push(agent),
    }
}

/// The keys of the agents with `agent` among them are the keys of the
/// agents and the key of `agent`.
pub proof fn lemma_with_agent_keys(agents: Seq<Agent>, agent: Agent, id: u64)
    ensures
        has_key(with_agent(agents, agent), id) <==> has_key(agents, id) || id == agent.key,
{
    let after = with_agent(agents, agent);
    match place_of(agents, agent.key) {
        Some(i) => {
            assert(after[i].key == agent.key);
            if has_key(agents, id) {
                let k = choose|k: int| 0 <= k < agents.len() && agents[k].key == id;
                assert(after[k].key == id);
            }
            if has_key(after, id) {
                let k = choose|k: int| 0 <= k < after.len() && after[k].key == id;
                if k != i {
                    assert(agents[k].key == id);
                }
            }
        },
        None => {
            assert(after[agents.len() as int].key == agent.key);
            if has_key(agents, id) {
                let k = choose|k: int| 0 <= k < agents.len() && agents[k].key == id;
                assert(after[k].key == id);
            }
            if has_key(after, id) {
                let k = choose|k: int| 0 <= k < after.len() && after[k].key == id;
                if k < agents.len() {
                    assert(agents[k].key == id);
                }
            }
        },
    }
}

/// Whether one of the first `count` of `offered` has the key `id` and a
/// size, so that it is taken.
pub open spec fn is_taken(offered: Seq<Agent>, count: int, id: u64) -> bool {
    exists|i: int| 0 <= i < count && (#[trigger] offered[i]).key == id && offered[i].size > 0
}

/// Whether `after` and `after_world` are `before` and `world` with
/// `agent` among the agents and its body under `handle`, which named
/// nothing before: a body at rest where the agent is created, that
/// carries a solid ball of the agent's size and a sensor ball of its
/// vision range, and nothing else.
pub open spec fn embodies(
    before: Seq<Agent>,
    world: World,
    agent: Agent,
    handle: BodyHandle,
    after: Seq<Agent>,
    after_world: World,
) -> bool {
    &&& !world.is_live(handle)
    &&& after_world@ == world@.insert(handle, BodyState::at_rest(agent.key, agent.origin))
    &&& crate::world::gains_balls(
        world.collider_kinds(),
        after_world.collider_kinds(),
        handle,
        Scalar::of_int(agent.size as int),
        Some(Scalar::of_int(agent.vision_range as int)),
        after_world.listed(handle),
    )
    &&& after == with_agent(before, Agent { physics_handle: Some(handle), ..agent })
}

/// Whether `after` and `after_world` are what taking `agent` in makes of
/// `before` and `world`: an agent that has a size gets a body and is
/// among the agents, and one of size zero changes nothing.
pub open spec fn admits(before: Seq<Agent>, world: World, agent: Agent, after: Seq<Agent>, after_world: World) -> bool {
    if agent.size > 0 {
        exists|handle: BodyHandle| #[trigger] embodies(before, world, agent, handle, after, after_world)
    } else {
        after == before && after_world == world
    }
}

/// Whether `after` and `after_world` are what taking each of `offered`
/// in, from the first to the last, makes of `before` and `world`.
pub open spec fn admits_all(
    before: Seq<Agent>,
    world: World,
    offered: Seq<Agent>,
    after: Seq<Agent>,
    after_world: World,
) -> bool
    decreases offered.len(),
{
    if offered.len() == 0 {
        after == before && after_world == world
    } else {
        exists|between: Seq<Agent>, between_world: World|
            admits_all(before, world, offered.drop_last(), between, between_world) && #[trigger] admits(
                between,
                between_world,
                offered.last(),
                after,
                after_world,
            )
    }
}

/// The number of `offered` that have a size, so that they are taken.
pub open spec fn sized_count(offered: Seq<Agent>) -> nat
    decreases offered.len(),
{
    if offered.len() == 0 {
        0
    } else if offered.last().size > 0 {
        sized_count(offered.drop_last()) + 1
    } else {
        sized_count(offered.drop_last())
    }
}

/// The agents without the one that has the key `id`.
pub open spec fn without_key(agents: Seq<Agent>, id: u64) -> Seq<Agent> {
    match place_of(agents, id) {
        Some(i) => agents.remove(i),
        None => agents,
    }
}

/// How many of `agents` do not survive a step.
pub open spec fn doomed(agents: Seq<Agent>) -> nat
    decreases agents.len(),
{
    if agents.len() == 0 {
        0
    } else if agents.last().survives() {
        doomed(agents.drop_last())
    } else {
        doomed(agents.drop_last()) + 1
    }
}

/// Whether `after` and `after_bodies` are what one tick of `dt`
/// microseconds makes of the agents `before` and the bodies `bodies`:
/// - the agents left are alive, each one of `before` after its step;
/// - as many agents leave as do not survive;
/// - every agent that survives is left;
/// - the bodies of those that do not are gone, and no body comes;
/// - each body left is as it was, or moved into the arena;
/// - each agent left has the body that it had;
/// - and if every agent had a live body of its own, then so has every
///   agent left, each is in the arena, no body went but an agent's, and
///   as many bodies went as agents.
pub open spec fn ticked(
    before: Seq<Agent>,
    bodies: Map<BodyHandle, BodyState>,
    after: Seq<Agent>,
    after_bodies: Map<BodyHandle, BodyState>,
    dt: u64,
) -> bool {
    &&& after.len() + doomed(before) == before.len()
    &&& forall|j: int|
        0 <= j < after.len() ==> (#[trigger] after[j]).alife && stepped_from_one_of(before, after[j], dt)
            && owns_body(before, after[j].physics_handle)
    &&& forall|k: int| 0 <= k < before.len() && (#[trigger] before[k]).survives() ==> has_key(after, before[k].key)
    &&& forall|k: int|
        0 <= k < before.len() && !(#[trigger] before[k]).survives() ==> !has_live_body(before[k], after_bodies)
    &&& forall|h: BodyHandle| #[trigger]
        after_bodies.contains_key(h) ==> bodies.contains_key(h) && (after_bodies[h] == bodies[h]
            || after_bodies[h] == clamped_state(bodies[h]))
    &&& embodied(before, bodies) ==> embodied(after, after_bodies) && (forall|j: int|
        0 <= j < after.len() ==> in_arena((#[trigger] after[j]).pos)) && (forall|h: BodyHandle|
        bodies.contains_key(h) && !after_bodies.contains_key(h) ==> owns_body(before, Some(h)))
    &&& embodied(before, bodies) && bodies.dom().finite() ==> after_bodies.dom().finite()
        && after_bodies.dom().len() + doomed(before) == bodies.dom().len()
}

/// The agents, each under its own key.
pub struct AgentsBox {
    pub agents: Vec<Agent>,
}

impl AgentsBox {
    /// Whether no two agents share a key.
    pub open spec fn wf(&self) -> bool {
        distinct_keys(self.agents@)
    }

    /// A box without agents.
    pub fn new() -> (r: AgentsBox)
        ensures
            r.wf(),
            r.agents@.len() == 0,
    {
        AgentsBox { agents: Vec::new() }
    }

    /// The place of the agent with the key `id`.
    pub fn find(&self, id: u64) -> (place: Option<usize>)
        requires
            self.wf(),
        ensures
            match place {
                Some(i) => place_of(self.agents@, id) == Some(i as int) && i < self.agents@.len()
                    && self.agents@[i as int].key == id,
                None => place_of(self.agents@, id) is None,
            },
    {
        let mut i: usize = 0;
        while i < self.agents.len()
            invariant
                self.wf(),
                i <= self.agents.len(),
                forall|k: int| 0 <= k < i ==> self.agents@[k].key != id,
            decreases self.agents.len() - i,
        {
            if self.agents[i].key == id {
                proof {
                    lemma_place_is_unique(self.agents@, id, i as int);
                }
                return Some(i);
            }
            i = i + 1;
        }
        None
    }

    /// Gives `agent` a body in the world, with a solid ball of its size and
    /// a sensor ring of its vision range, and takes it into the box under
    /// its key, in place of any agent that had that key. An agent of size
    /// zero is refused, and nothing changes.
    pub fn add_agent(&mut self, agent: Agent, physics_world: &mut World) -> (r: Result<u64, WorldError>)
        requires
            old(self).wf(),
        ensures
            final(self).wf(),
            match r {
                Ok(key) => key == agent.key && agent.size > 0 && exists|handle: BodyHandle|
                    {
                        &&& !old(physics_world).is_live(handle)
                        &&& final(physics_world)@ == old(physics_world)@.insert(
                            handle,
                            BodyState::at_rest(key, agent.origin),
                        )
                        &&& final(self).agents@ == with_agent(
                            old(self).agents@,
                            (Agent { physics_handle: Some(handle), ..agent }),
                        )
                    },
                Err(e) => e == WorldError::InvalidRadius && agent.size == 0 && *final(self) == *old(self)
                    && *final(physics_world) == *old(physics_world),
            },
            admits(
                old(self).agents@,
                *old(physics_world),
                agent,
                final(self).agents@,
                *final(physics_world),
            ),
            forall|id: u64|
                #[trigger] has_key(final(self).agents@, id) <==> has_key(old(self).agents@, id) || (id
                    == agent.key && agent.size > 0),
            keeps_bodies(old(physics_world)@, final(physics_world)@),
            bodies_are_old_or_new(old(self).agents@, final(self).agents@, old(physics_world)@),
            embodied(old(self).agents@, old(physics_world)@) ==> embodied(
                final(self).agents@,
                final(physics_world)@,
            ),
    {
        let key = agent.key;
        proof {
            lemma_of_int_order(0, agent.size as int);
        }
        let created = physics_world.add_circle_body(
            key,
            &agent.origin,
            Scalar::from_u16(agent.size),
            Some(Scalar::from_u16(agent.vision_range)),
        );
        match created {
            Ok(handle) => {
                let ghost offered = agent;
                let mut agent = agent;
                agent.physics_handle = Some(handle);
                match self.find(key) {
                    Some(i) => {
                        self.agents.set(i, agent);
                    },
                    None => {
                        self.agents.push(agent);
                    },
                }
                proof {
                    assert(embodies(
                        old(self).agents@,
                        *old(physics_world),
                        offered,
                        handle,
                        self.agents@,
                        *physics_world,
                    ));
                    assert forall|id: u64| #[trigger]
                        has_key(self.agents@, id) <==> has_key(old(self).agents@, id) || id == key by {
                        lemma_with_agent_keys(old(self).agents@, agent, id);
                    }
                    assert forall|j: int| 0 <= j < self.agents@.len() implies owns_body(
                        old(self).agents@,
                        (#[trigger] self.agents@[j]).physics_handle,
                    ) || (self.agents@[j].physics_handle is Some && !has_live_body(
                        self.agents@[j],
                        old(physics_world)@,
                    )) by {
                        if self.agents@[j] != agent {
                            assert(old(self).agents@[j].physics_handle == self.agents@[j].physics_handle);
                        }
                    }
                    if embodied(old(self).agents@, old(physics_world)@) {
                        assert forall|k: int| 0 <= k < self.agents@.len() implies has_live_body(
                            #[trigger] self.agents@[k],
                            physics_world@,
                        ) by {
                            if self.agents@[k] != agent {
                                assert(has_live_body(old(self).agents@[k], old(physics_world)@));
                            }
                        }
                        assert forall|a: int, b: int| 0 <= a < b < self.agents@.len() implies self.agents@[a].physics_handle
                            != self.agents@[b].physics_handle by {
                            if self.agents@[a] != agent {
                                assert(has_live_body(old(self).agents@[a], old(physics_world)@));
                            }
                            if self.agents@[b] != agent {
                                assert(has_live_body(old(self).agents@[b], old(physics_world)@));
                            }
                        }
                    }
                }
                Ok(key)
            },
            Err(e) => Err(e),
        }
    }

    /// Takes each of `agents` into the box, as `add_agent` does, and passes
    /// over those that it refuses. The result is the number taken.
    pub fn add_many_agents(&mut self, agents: &Vec<Agent>, physics_world: &mut World) -> (taken: usize)
        requires
            old(self).wf(),
        ensures
            final(self).wf(),
            taken == sized_count(agents@),
            admits_all(
                old(self).agents@,
                *old(physics_world),
                agents@,
                final(self).agents@,
                *final(physics_world),
            ),
            taken <= agents@.len(),
            final(self).agents@.len() <= old(self).agents@.len() + taken,
            forall|id: u64|
                #[trigger] has_key(final(self).agents@, id) <==> has_key(old(self).agents@, id) || is_taken(
                    agents@,
                    agents@.len() as int,
                    id,
                ),
            keeps_bodies(old(physics_world)@, final(physics_world)@),
            bodies_are_old_or_new(old(self).agents@, final(self).agents@, old(physics_world)@),
            embodied(old(self).agents@, old(physics_world)@) ==> embodied(
                final(self).agents@,
                final(physics_world)@,
            ),
    {
        let mut taken: usize = 0;
        let mut i: usize = 0;
        while i < agents.len()
            invariant
                i <= agents.len(),
                taken <= i,
                taken == sized_count(agents@.take(i as int)),
                admits_all(
                    old(self).agents@,
                    *old(physics_world),
                    agents@.take(i as int),
                    self.agents@,
                    *physics_world,
                ),
                self.wf(),
                self.agents@.len() <= old(self).agents@.len() + taken,
                forall|id: u64|
                    #[trigger] has_key(self.agents@, id) <==> has_key(old(self).agents@, id) || is_taken(
                        agents@,
                        i as int,
                        id,
                    ),
                keeps_bodies(old(physics_world)@, physics_world@),
                bodies_are_old_or_new(old(self).agents@, self.agents@, old(physics_world)@),
                embodied(old(self).agents@, old(physics_world)@) ==> embodied(self.agents@, physics_world@),
            decreases agents.len() - i,
        {
            let ghost earlier = self.agents@;
            let ghost before = physics_world@;
            let ghost world_before = *physics_world;
            proof {
                assert forall|j: int| 0 <= j < earlier.len() implies owns_body(
                    earlier,
                    (#[trigger] earlier[j]).physics_handle,
                ) by {
                    assert(earlier[j].physics_handle == earlier[j].physics_handle);
                }
            }
            match self.add_agent(agents[i], physics_world) {
                Ok(_) => {
                    taken = taken + 1;
                },
                Err(_) => {},
            }
            proof {
                let so_far = agents@.take(i + 1);
                assert(so_far.drop_last() == agents@.take(i as int));
                assert(so_far.last() == agents@[i as int]);
                assert(so_far.len() == i + 1);
                assert(admits_all(
                    old(self).agents@,
                    *old(physics_world),
                    so_far.drop_last(),
                    earlier,
                    world_before,
                ) && admits(earlier, world_before, so_far.last(), self.agents@, *physics_world));
                assert(admits_all(old(self).agents@, *old(physics_world), so_far, self.agents@, *physics_world));
            }
            proof {
                assert forall|id: u64| #[trigger]
                    has_key(self.agents@, id) <==> has_key(old(self).agents@, id) || is_taken(
                        agents@,
                        i + 1,
                        id,
                    ) by {
                    assert(has_key(earlier, id) <==> has_key(old(self).agents@, id) || is_taken(
                        agents@,
                        i as int,
                        id,
                    ));
                    if is_taken(agents@, i as int, id) {
                        let w = choose|w: int| 0 <= w < i && (#[trigger] agents@[w]).key == id && agents@[w].size > 0;
                        assert(agents@[w].key == id && agents@[w].size > 0);
                    }
                    if is_taken(agents@, i + 1, id) && !is_taken(agents@, i as int, id) {
                        let w = choose|w: int|
                            0 <= w < i + 1 && (#[trigger] agents@[w]).key == id && agents@[w].size > 0;
                        assert(w == i);
                    }
                    if id == agents@[i as int].key && agents@[i as int].size > 0 {
                        assert(agents@[i as int].key == id);
                    }
                }
            }
            proof {
                assert forall|j: int| 0 <= j < self.agents@.len() implies owns_body(
                    old(self).agents@,
                    (#[trigger] self.agents@[j]).physics_handle,
                ) || (self.agents@[j].physics_handle is Some && !has_live_body(
                    self.agents@[j],
                    old(physics_world)@,
                )) by {
                    let handle = self.agents@[j].physics_handle;
                    if owns_body(earlier, handle) {
                        let k = choose|k: int| 0 <= k < earlier.len() && #[trigger] earlier[k].physics_handle == handle;
                        assert(owns_body(old(self).agents@, earlier[k].physics_handle) || (
                        earlier[k].physics_handle is Some && !has_live_body(earlier[k], old(physics_world)@)));
                    } else {
                        assert(!has_live_body(self.agents@[j], before));
                    }
                }
            }
            i = i + 1;
        }
        assert(agents@.take(i as int) == agents@);
        taken
    }

    /// The agent with the key `id`.
    pub fn get(&self, id: u64) -> (r: Option<&Agent>)
        requires
            self.wf(),
        ensures
            match r {
                Some(agent) => place_of(self.agents@, id) matches Some(i) && self.agents@[i] == *agent
                    && agent.key == id,
                None => !has_key(self.agents@, id),
            },
    {
        match self.find(id) {
            Some(i) => Some(&self.agents[i]),
            None => None,
        }
    }

    /// Drops the agent with the key `id`, if there is one. Its body stays
    /// in the world.
    pub fn remove(&mut self, id: u64)
        requires
            old(self).wf(),
        ensures
            final(self).wf(),
            final(self).agents@ == without_key(old(self).agents@, id),
            !has_key(final(self).agents@, id),
    {
        match self.find(id) {
            Some(i) => {
                let _ = self.agents.remove(i);
            },
            None => {},
        }
    }

    /// One tick for every agent. Each agent resolves its rival and pulls
    /// its pose, and its body is held in the arena; then each takes its
    /// step of `dt` microseconds. The agents that do not survive the step
    /// leave the box, and their bodies leave the world. The solver must be
    /// able to count the bodies and colliders that leave.
    pub fn update_agents(&mut self, dt: u64, physics_world: &mut World)
        requires
            old(self).wf(),
            old(physics_world).can_count(),
        ensures
            final(self).wf(),
            final(physics_world).can_count(),
            ticked(old(self).agents@, old(physics_world)@, final(self).agents@, final(physics_world)@, dt),
            crate::solver::keeps_colliders(old(physics_world).collider_kinds(), final(physics_world).collider_kinds()),
            final(self).agents@.len() <= old(self).agents@.len(),
            forall|j: int|
                0 <= j < final(self).agents@.len() ==> (#[trigger] final(self).agents@[j]).alife && has_key(
                    old(self).agents@,
                    final(self).agents@[j].key,
                ),
            forall|j: int|
                0 <= j < final(self).agents@.len() ==> stepped_from_one_of(
                    old(self).agents@,
                    #[trigger] final(self).agents@[j],
                    dt,
                ),
            forall|k: int|
                0 <= k < old(self).agents@.len() && (#[trigger] old(self).agents@[k]).survives() ==> has_key(
                    final(self).agents@,
                    old(self).agents@[k].key,
                ),
            forall|j: int|
                0 <= j < final(self).agents@.len() ==> ((#[trigger] final(self).agents@[j]).physics_handle matches Some(
                    h,
                ) && old(physics_world).is_live(h) ==> in_arena(final(self).agents@[j].pos)),
            final(physics_world)@.dom().subset_of(old(physics_world)@.dom()),
            forall|h: BodyHandle| #[trigger]
                final(physics_world).is_live(h) ==> final(physics_world)@[h] == old(physics_world)@[h]
                    || final(physics_world)@[h] == clamped_state(old(physics_world)@[h]),
            forall|k: int|
                0 <= k < old(self).agents@.len() && !(#[trigger] old(self).agents@[k]).survives() ==> (old(
                    self,
                ).agents@[k].physics_handle matches Some(h) ==> !final(physics_world).is_live(h)),
            forall|j: int|
                0 <= j < final(self).agents@.len() ==> owns_body(
                    old(self).agents@,
                    (#[trigger] final(self).agents@[j]).physics_handle,
                ),
            embodied(old(self).agents@, old(physics_world)@) ==> embodied(
                final(self).agents@,
                final(physics_world)@,
            ) && (forall|j: int|
                0 <= j < final(self).agents@.len() ==> in_arena((#[trigger] final(self).agents@[j]).pos))
                && (forall|h: BodyHandle|
                old(physics_world).is_live(h) && !final(physics_world).is_live(h) ==> exists|k: int|
                    0 <= k < old(self).agents@.len() && #[trigger] old(self).agents@[k].physics_handle == Some(
                        h,
                    )),
    {
        let n = self.agents.len();
        let mut i: usize = 0;
        while i < n
            invariant
                i <= n,
                self.agents@.len() == n,
                old(self).agents@.len() == n,
                forall|k: int| 0 <= k < n ==> same_vitals(old(self).agents@[k], #[trigger] self.agents@[k]),
                forall|k: int|
                    0 <= k < i ==> ((#[trigger] self.agents@[k]).physics_handle matches Some(h) && old(
                        physics_world,
                    ).is_live(h) ==> in_arena(self.agents@[k].pos)),
                physics_world.collider_kinds() == old(physics_world).collider_kinds(),
                physics_world.can_count(),
                physics_world@.dom() == old(physics_world)@.dom(),
                forall|h: BodyHandle| #[trigger]
                    physics_world@.contains_key(h) ==> physics_world@[h] == old(physics_world)@[h]
                        || physics_world@[h] == clamped_state(old(physics_world)@[h]),
            decreases n - i,
        {
            let mut agent = self.agents[i];
            let ghost before = physics_world@;
            proof {
                match agent.physics_handle {
                    Some(h) => {
                        if physics_world.is_live(h) {
                            lemma_clamped_state_in_arena(before[h]);
                            lemma_clamped_state_in_arena(old(physics_world)@[h]);
                        }
                    },
                    None => {},
                }
            }
            agent.update2(physics_world);
            self.agents.set(i, agent);
            proof {
                assert forall|h: BodyHandle| #[trigger] physics_world@.contains_key(h) implies physics_world@[h]
                    == old(physics_world)@[h] || physics_world@[h] == clamped_state(
                    old(physics_world)@[h],
                ) by {
                    assert(before.contains_key(h));
                }
            }
            i = i + 1;
        }
        let ghost pulled = self.agents@;
        i = 0;
        while i < n
            invariant
                i <= n,
                self.agents@.len() == n,
                old(self).agents@.len() == n,
                pulled.len() == n,
                forall|k: int| 0 <= k < n ==> (#[trigger] self.agents@[k]).pos == pulled[k].pos,
                forall|k: int|
                    0 <= k < i ==> stepped_from(old(self).agents@[k], #[trigger] self.agents@[k], dt),
                forall|k: int| i <= k < n ==> same_vitals(old(self).agents@[k], #[trigger] self.agents@[k]),
                forall|k: int|
                    0 <= k < i && !(#[trigger] self.agents@[k]).alife ==> (self.agents@[k].physics_handle matches Some(
                        h,
                    ) ==> !physics_world.is_live(h)),
                embodied(old(self).agents@, old(physics_world)@) ==> forall|k: int|
                    0 <= k < n && (i <= k || (#[trigger] self.agents@[k]).alife) ==> has_live_body(
                        self.agents@[k],
                        physics_world@,
                    ),
                forall|h: BodyHandle|
                    old(physics_world)@.contains_key(h) && !physics_world@.contains_key(h) ==> exists|k: int|
                        0 <= k < n && #[trigger] old(self).agents@[k].physics_handle == Some(h),
                crate::solver::keeps_colliders(
                    old(physics_world).collider_kinds(),
                    physics_world.collider_kinds(),
                ),
                embodied(old(self).agents@, old(physics_world)@) && old(physics_world)@.dom().finite()
                    ==> physics_world@.dom().finite() && physics_world@.dom().len() + doomed(
                    old(self).agents@.take(i as int),
                ) == old(physics_world)@.dom().len(),
                physics_world.can_count(),
                physics_world@.dom().subset_of(old(physics_world)@.dom()),
                forall|h: BodyHandle| #[trigger]
                    physics_world@.contains_key(h) ==> physics_world@[h] == old(physics_world)@[h]
                        || physics_world@[h] == clamped_state(old(physics_world)@[h]),
            decreases n - i,
        {
            let mut agent = self.agents[i];
            let ghost before = physics_world@;
            let ghost earlier = self.agents@;
            let alive = agent.update(dt, physics_world);
            if !alive {
                match agent.physics_handle {
                    Some(handle) => {
                        physics_world.remove_physics_object(handle);
                    },
                    None => {},
                }
            }
            self.agents.set(i, agent);
            proof {
                assert(old(self).agents@.take(i + 1).drop_last() == old(self).agents@.take(i as int));
                assert(old(self).agents@.take(i + 1).last() == old(self).agents@[i as int]);
                assert(same_vitals(old(self).agents@[i as int], earlier[i as int]));
                assert(alive == old(self).agents@[i as int].survives());
                if embodied(old(self).agents@, old(physics_world)@) && old(physics_world)@.dom().finite() {
                    assert(has_live_body(earlier[i as int], before));
                    if !alive {
                        assert(physics_world@.dom() == before.dom().remove(agent.physics_handle->0));
                    }
                }
            }
            proof {
                if embodied(old(self).agents@, old(physics_world)@) {
                    assert forall|k: int|
                        0 <= k < n && (i + 1 <= k || (#[trigger] self.agents@[k]).alife) implies has_live_body(
                        self.agents@[k],
                        physics_world@,
                    ) by {
                        assert(earlier[k].physics_handle == old(self).agents@[k].physics_handle);
                        if k != i {
                            assert(self.agents@[k] == earlier[k]);
                            if k < i {
                                assert(old(self).agents@[k].physics_handle != old(self).agents@[i as int].physics_handle);
                            } else {
                                assert(old(self).agents@[i as int].physics_handle != old(self).agents@[k].physics_handle);
                            }
                        }
                    }
                }
                assert forall|h: BodyHandle|
                    old(physics_world)@.contains_key(h) && !physics_world@.contains_key(h) implies exists|k: int|
                    0 <= k < n && #[trigger] old(self).agents@[k].physics_handle == Some(h) by {
                    if before.contains_key(h) {
                        assert(old(self).agents@[i as int].physics_handle == Some(h));
                    }
                }
            }
            proof {
                assert forall|h: BodyHandle| #[trigger] physics_world@.contains_key(h) implies physics_world@[h]
                    == old(physics_world)@[h] || physics_world@[h] == clamped_state(
                    old(physics_world)@[h],
                ) by {
                    assert(before.contains_key(h));
                }
            }
            i = i + 1;
        }
        let ghost stepped = self.agents@;
        let mut kept: Vec<Agent> = Vec::new();
        i = 0;
        while i < n
            invariant
                i <= n,
                self.agents@ == stepped,
                stepped.len() == n,
                old(self).agents@.len() == n,
                distinct_keys(stepped),
                forall|k: int| 0 <= k < n ==> (#[trigger] stepped[k]).alife == old(self).agents@[k].survives(),
                kept@.len() + doomed(old(self).agents@.take(i as int)) == i,
                forall|j: int|
                    0 <= j < kept@.len() ==> (#[trigger] kept@[j]).alife && is_among(stepped, i as int, kept@[j]),
                forall|k: int| 0 <= k < i && (#[trigger] stepped[k]).alife ==> has_key(kept@, stepped[k].key),
                distinct_keys(kept@),
                embodied(old(self).agents@, old(physics_world)@) ==> forall|a: int, b: int|
                    0 <= a < b < n ==> stepped[a].physics_handle != stepped[b].physics_handle,
                embodied(old(self).agents@, old(physics_world)@) ==> forall|a: int, b: int|
                    0 <= a < b < kept@.len() ==> kept@[a].physics_handle != kept@[b].physics_handle,
            decreases n - i,
        {
            let agent = self.agents[i];
            proof {
                assert(old(self).agents@.take(i + 1).drop_last() == old(self).agents@.take(i as int));
                assert(old(self).agents@.take(i + 1).last() == old(self).agents@[i as int]);
                assert(stepped[i as int].alife == old(self).agents@[i as int].survives());
            }
            if agent.alife {
                let ghost earlier = kept@;
                proof {
                    assert forall|j: int| 0 <= j < earlier.len() implies earlier[j].key != agent.key by {
                        assert(is_among(stepped, i as int, earlier[j]));
                        let k = choose|k: int| 0 <= k < i && stepped[k] == earlier[j];
                        assert(stepped[k].key != stepped[i as int].key);
                    }
                }
                proof {
                    if embodied(old(self).agents@, old(physics_world)@) {
                        assert forall|j: int| 0 <= j < earlier.len() implies earlier[j].physics_handle
                            != agent.physics_handle by {
                            assert(is_among(stepped, i as int, earlier[j]));
                            let k = choose|k: int| 0 <= k < i && stepped[k] == earlier[j];
                            assert(stepped[k].physics_handle != stepped[i as int].physics_handle);
                        }
                    }
                }
                kept.push(agent);
                proof {
                    assert(kept@[earlier.len() as int] == stepped[i as int]);
                    assert forall|k: int| 0 <= k < i + 1 && (#[trigger] stepped[k]).alife implies has_key(
                        kept@,
                        stepped[k].key,
                    ) by {
                        if k < i {
                            let j = choose|j: int| 0 <= j < earlier.len() && earlier[j].key == stepped[k].key;
                            assert(kept@[j].key == stepped[k].key);
                        } else {
                            assert(kept@[earlier.len() as int].key == stepped[k].key);
                        }
                    }
                    assert forall|j: int| 0 <= j < kept@.len() implies (#[trigger] kept@[j]).alife && is_among(
                        stepped,
                        i + 1,
                        kept@[j],
                    ) by {
                        if j < earlier.len() {
                            assert(is_among(stepped, i as int, earlier[j]));
                            let k = choose|k: int| 0 <= k < i && stepped[k] == earlier[j];
                            assert(stepped[k] == kept@[j]);
                        } else {
                            assert(stepped[i as int] == kept@[j]);
                        }
                    }
                }
            } else {
                proof {
                    assert forall|j: int| 0 <= j < kept@.len() implies is_among(stepped, i + 1, #[trigger] kept@[j]) by {
                        assert(is_among(stepped, i as int, kept@[j]));
                        let k = choose|k: int| 0 <= k < i && stepped[k] == kept@[j];
                        assert(0 <= k < i + 1 && stepped[k] == kept@[j]);
                    }
                }
            }
            i = i + 1;
        }
        proof {
            assert(old(self).agents@.take(n as int) == old(self).agents@);
            assert forall|j: int| 0 <= j < kept@.len() implies (#[trigger] kept@[j]).alife && has_key(
                old(self).agents@,
                kept@[j].key,
            ) && (kept@[j].physics_handle matches Some(h) && old(physics_world).is_live(h) ==> in_arena(
                kept@[j].pos,
            )) by {
                assert(is_among(stepped, n as int, kept@[j]));
                let k = choose|k: int| 0 <= k < n && stepped[k] == kept@[j];
                assert(old(self).agents@[k].key == kept@[j].key);
                assert(stepped[k].pos == pulled[k].pos);
            }
            assert forall|k: int|
                0 <= k < old(self).agents@.len() && (#[trigger] old(self).agents@[k]).survives() implies has_key(
                kept@,
                old(self).agents@[k].key,
            ) by {
                assert(stepped[k].alife);
            }
            assert forall|k: int|
                0 <= k < old(self).agents@.len() && !(#[trigger] old(self).agents@[k]).survives() implies (old(
                self,
            ).agents@[k].physics_handle matches Some(h) ==> !physics_world.is_live(h)) by {
                assert(!stepped[k].alife);
            }
            assert forall|j: int| 0 <= j < kept@.len() implies owns_body(
                old(self).agents@,
                (#[trigger] kept@[j]).physics_handle,
            ) && stepped_from_one_of(old(self).agents@, kept@[j], dt) by {
                assert(is_among(stepped, n as int, kept@[j]));
                let k = choose|k: int| 0 <= k < n && stepped[k] == kept@[j];
                assert(stepped_from(old(self).agents@[k], kept@[j], dt));
                assert(old(self).agents@[k].physics_handle == kept@[j].physics_handle);
            }
            if embodied(old(self).agents@, old(physics_world)@) {
                assert forall|j: int| 0 <= j < kept@.len() implies has_live_body(
                    #[trigger] kept@[j],
                    physics_world@,
                ) && in_arena(kept@[j].pos) by {
                    assert(is_among(stepped, n as int, kept@[j]));
                    let k = choose|k: int| 0 <= k < n && stepped[k] == kept@[j];
                    assert(stepped[k].alife);
                    assert(stepped[k].pos == pulled[k].pos);
                    assert(old(self).agents@[k].physics_handle == pulled[k].physics_handle);
                }
            }
        }
        self.agents = kept;
    }

    /// Whether no two agents share a key.
    pub fn has_distinct_keys(&self) -> (r: bool)
        ensures
            r == self.wf(),
    {
        let n = self.agents.len();
        let mut j: usize = 0;
        while j < n
            invariant
                j <= n,
                n == self.agents@.len(),
                forall|a: int, b: int| 0 <= a < b < j ==> self.agents@[a].key != self.agents@[b].key,
            decreases n - j,
        {
            let mut i: usize = 0;
            while i < j
                invariant
                    i <= j < n,
                    n == self.agents@.len(),
                    forall|a: int| 0 <= a < i ==> self.agents@[a].key != self.agents@[j as int].key,
                decreases j - i,
            {
                if self.agents[i].key == self.agents[j].key {
                    return false;
                }
                i = i + 1;
            }
            j = j + 1;
        }
        true
    }

    /// Whether every agent has a live body in the world, and no two have
    /// the same.
    pub fn is_embodied(&self, physics_world: &World) -> (r: bool)
        ensures
            r == embodied(self.agents@, physics_world@),
    {
        let n = self.agents.len();
        let mut j: usize = 0;
        while j < n
            invariant
                j <= n,
                n == self.agents@.len(),
                forall|k: int| 0 <= k < j ==> has_live_body(#[trigger] self.agents@[k], physics_world@),
                forall|a: int, b: int|
                    0 <= a < b < j ==> self.agents@[a].physics_handle != self.agents@[b].physics_handle,
            decreases n - j,
        {
            let live = match self.agents[j].physics_handle {
                Some(handle) => physics_world.get_owner_key(handle).is_some(),
                None => false,
            };
            if !live {
                assert(!has_live_body(self.agents@[j as int], physics_world@));
                return false;
            }
            let mut i: usize = 0;
            while i < j
                invariant
                    i <= j < n,
                    n == self.agents@.len(),
                    forall|a: int|
                        0 <= a < i ==> self.agents@[a].physics_handle != self.agents@[j as int].physics_handle,
                decreases j - i,
            {
                if self.agents[i].physics_handle == self.agents[j].physics_handle {
                    return false;
                }
                i = i + 1;
            }
            j = j + 1;
        }
        true
    }

    /// The agents, in the order in which they were taken in.
    pub fn get_iter(&self) -> (r: &Vec<Agent>)
        ensures
            r@ == self.agents@,
    {
        &self.agents
    }

    /// The number of agents.
    pub fn count(&self) -> (r: usize)
        ensures
            r == self.agents@.len(),
    {
        self.agents.len()
    }
}

} // verus!
