//! The simulation: the world, the entities in it, and the tick that drives
//! them.
use crate::agent::{in_arena, Agent, AgentsBox};
use crate::consts::{
    AGENTS_NUM, AGENTS_NUM_MIN, AGENT_ROTATION, AGENT_SPEED, AGENT_VISION_RANGE, ASTER_NUM,
};
use crate::element::{near_arena, Asteroid, DynamicCollector};
use crate::solver::{no_bodies, Point};
use crate::util::Signals;
use crate::world::World;
use vstd::prelude::*;

verus! {

/// What a simulation is set up with.
#[derive(Clone, Copy, Debug, PartialEq, Eq, Structural)]
pub struct SimConfig {
    pub agents_init_num: usize,
    pub agent_min_num: usize,
    pub agent_speed: i16,
    pub agent_vision_range: u16,
    pub agent_rotation: i16,
    pub sources_init_num: usize,
    pub sources_min_num: usize,
}

impl Default for SimConfig {
    fn default() -> (config: SimConfig)
        ensures
            config == (SimConfig {
                agents_init_num: AGENTS_NUM,
                agent_min_num: AGENTS_NUM_MIN,
                agent_speed: AGENT_SPEED,
                agent_vision_range: AGENT_VISION_RANGE,
                agent_rotation: AGENT_ROTATION,
                sources_init_num: 0,
                sources_min_num: 0,
            }),
    {
        SimConfig {
            agents_init_num: AGENTS_NUM,
            agent_min_num: AGENTS_NUM_MIN,
            agent_speed: AGENT_SPEED,
            agent_rotation: AGENT_ROTATION,
            agent_vision_range: AGENT_VISION_RANGE,
            sources_init_num: 0,
            sources_min_num: 0,
        }
    }
}

impl SimConfig {
    pub fn new(
        agents_num: usize,
        agents_min_num: usize,
        agent_speed: i16,
        agent_turn: i16,
        vision_range: u16,
        sources_num: usize,
        sources_min_num: usize,
    ) -> (config: SimConfig)
        ensures
            config == (SimConfig {
                agents_init_num: agents_num,
                agent_min_num: agents_min_num,
                agent_speed,
                agent_vision_range: vision_range,
                agent_rotation: agent_turn,
                sources_init_num: sources_num,
                sources_min_num,
            }),
    {
        SimConfig {
            agents_init_num: agents_num,
            agent_min_num: agents_min_num,
            agent_speed,
            agent_rotation: agent_turn,
            agent_vision_range: vision_range,
            sources_init_num: sources_num,
            sources_min_num,
        }
    }
}

/// What the monitor shows of a simulation. Times are in microseconds.
pub struct SimState {
    pub sim_name: String,
    pub agents_num: usize,
    pub sources_num: usize,
    pub asteroids_num: usize,
    pub physics_num: usize,
    pub sim_time: u64,
    pub fps: i32,
    pub dt: u64,
}

impl SimState {
    /// The state of a simulation that has not run.
    pub fn new() -> (state: SimState)
        ensures
            state.sim_name@ == Seq::<char>::empty(),
            state.agents_num == 0,
            state.sources_num == 0,
            state.asteroids_num == 0,
            state.physics_num == 0,
            state.sim_time == 0,
            state.fps == 0,
            state.dt == 0,
    {
        SimState {
            sim_name: String::new(),
            agents_num: 0,
            sources_num: 0,
            asteroids_num: 0,
            physics_num: 0,
            sim_time: 0,
            fps: 0,
            dt: 0,
        }
    }
}

/// Where the pointer is, if anywhere.
#[derive(Clone, Copy, Debug, PartialEq, Eq, Structural)]
pub struct MouseState {
    pub pos: Option<Point>,
}

/// The entities that a tick may put into the world: an agent for a wish of
/// the panels, an agent to make up the least number, and a piece of debris
/// to make up its number. Those that the tick does not need are dropped.
pub struct Spawn {
    pub wished: Agent,
    pub refill: Agent,
    pub debris: Asteroid,
}

/// A simulation: one world with its agents and its debris.
pub struct Simulation {
    pub simulation_name: String,
    pub world: World,
    pub running: bool,
    pub config: SimConfig,
    pub sim_state: SimState,
    pub signals: Signals,
    /// The key of the agent that the inspector shows, or 0.
    pub selected: u64,
    pub agents: AgentsBox,
    pub elements: DynamicCollector,
}

impl Simulation {
    /// Whether every entity has a body of its own in the world, and no two
    /// entities of a kind share a key.
    pub open spec fn wf(&self) -> bool {
        &&& self.agents.wf()
        &&& self.elements.wf()
        &&& crate::agent::embodied(self.agents.agents@, self.world@)
        &&& crate::element::embodied(self.elements.elements@, self.world@)
        &&& forall|i: int, j: int|
            0 <= i < self.agents.agents@.len() && 0 <= j < self.elements.elements@.len()
                ==> self.agents.agents@[i].physics_handle != self.elements.elements@[j].physics_handle
    }

    /// Whether the simulation holds no entity and no body.
    pub open spec fn is_empty(&self) -> bool {
        &&& self.world@ == no_bodies()
        &&& self.agents.agents@.len() == 0
        &&& self.elements.elements@.len() == 0
    }

    /// Whether `after` is this simulation with each of `agents` taken in,
    /// from the first to the last, and then each of `elements`, from the
    /// last to the first, as the registries take them: each entity that
    /// the world does not refuse has a body there, with its colliders, and
    /// is in its registry.
    pub open spec fn populated(&self, agents: Seq<Agent>, elements: Seq<Asteroid>, after: Simulation) -> bool {
        exists|between: World|
            crate::agent::admits_all(self.agents.agents@, self.world, agents, after.agents.agents@, between)
                && #[trigger] crate::element::admits_all(
                self.elements.elements@,
                between,
                elements,
                after.elements.elements@,
                after.world,
            )
    }

    /// Whether `after` is this simulation with its numbers made up: with
    /// `refill` taken in if the agents were too few at the last count, and
    /// then `debris` if the debris was.
    pub open spec fn made_up(&self, refill: Agent, debris: Asteroid, after: Simulation) -> bool {
        exists|between: World|
            (if self.wants_agent() {
                crate::agent::admits(self.agents.agents@, self.world, refill, after.agents.agents@, between)
            } else {
                after.agents.agents@ == self.agents.agents@ && between == self.world
            }) && #[trigger] self.debris_made_up(between, debris, after)
    }

    /// Whether `after` has the debris of this simulation made up, from the
    /// world `between`.
    pub open spec fn debris_made_up(&self, between: World, debris: Asteroid, after: Simulation) -> bool {
        if self.wants_debris() {
            crate::element::admits(self.elements.elements@, between, debris, after.elements.elements@, after.world)
        } else {
            after.elements.elements@ == self.elements.elements@ && after.world == between
        }
    }

    /// Whether `after` has the settings of this simulation: its name, its
    /// configuration, the wishes of the panels, the selected agent, and
    /// whether it runs.
    pub open spec fn same_settings(&self, after: Simulation) -> bool {
        &&& after.simulation_name == self.simulation_name
        &&& after.config == self.config
        &&& after.signals == self.signals
        &&& after.selected == self.selected
        &&& after.running == self.running
    }

    /// Whether `after` is this simulation with the wishes of the panels
    /// granted: a wished new simulation replaces this one by an empty one
    /// that runs under the wished name; otherwise a wished agent is taken
    /// in, as the box takes it, and nothing else changes.
    pub open spec fn wishes_granted(&self, wished: Agent, after: Simulation) -> bool {
        &&& !after.signals.spawn_agent
        &&& !after.signals.new_sim
        &&& after.config == self.config
        &&& if self.signals.new_sim {
            &&& after.is_empty()
            &&& after.running
            &&& after.selected == 0
            &&& after.simulation_name@ == self.signals.new_sim_name@
            &&& after.sim_state.sim_name@ == self.signals.new_sim_name@
            &&& after.sim_state.sim_time == 0
            &&& after.sim_state.asteroids_num == 0
            &&& after.sim_state.sources_num == 0
        } else {
            &&& after.running == self.running
            &&& after.selected == self.selected
            &&& after.simulation_name == self.simulation_name
            &&& after.signals.new_sim_name == self.signals.new_sim_name
            &&& after.elements == self.elements
            &&& after.sim_state == self.sim_state
            &&& if self.signals.spawn_agent {
                crate::agent::admits(self.agents.agents@, self.world, wished, after.agents.agents@, after.world)
            } else {
                after.agents == self.agents && after.world == self.world
            }
        }
    }

    /// Whether `after` is this simulation with the frame noted: its length
    /// and rate, the time run so far, and the numbers of agents and bodies.
    pub open spec fn frame_noted(&self, dt: u64, fps: i32, after: Simulation) -> bool {
        &&& self.same_settings(after)
        &&& after.world == self.world
        &&& after.agents == self.agents
        &&& after.elements == self.elements
        &&& after.sim_state.fps == fps
        &&& after.sim_state.dt == dt
        &&& after.sim_state.sim_time == (if self.sim_state.sim_time + dt > u64::MAX {
            u64::MAX
        } else {
            (self.sim_state.sim_time + dt) as u64
        })
        &&& after.sim_state.agents_num == self.agents.agents@.len()
        &&& crate::solver::holds_exactly(self.world@, after.sim_state.physics_num)
        &&& after.sim_state.asteroids_num == self.sim_state.asteroids_num
        &&& after.sim_state.sources_num == self.sim_state.sources_num
        &&& after.sim_state.sim_name == self.sim_state.sim_name
    }

    /// Whether `after` is this simulation with its numbers made up, and
    /// nothing else changed.
    pub open spec fn numbers_made_up(&self, refill: Agent, debris: Asteroid, after: Simulation) -> bool {
        &&& self.same_settings(after)
        &&& after.sim_state == self.sim_state
        &&& self.made_up(refill, debris, after)
    }

    /// Whether `after` is this simulation after one tick of its agents, of
    /// the length of the frame, and nothing else changed but the bodies
    /// and colliders that the agents' tick touches. Where the solver cannot
    /// count what may leave the world, the agents have no tick, and
    /// nothing changes.
    pub open spec fn agents_ticked(&self, after: Simulation) -> bool {
        if self.world.can_count() {
            &&& self.same_settings(after)
            &&& after.sim_state == self.sim_state
            &&& after.elements == self.elements
            &&& crate::agent::ticked(
                self.agents.agents@,
                self.world@,
                after.agents.agents@,
                after.world@,
                self.sim_state.dt,
            )
            &&& crate::solver::keeps_colliders(self.world.collider_kinds(), after.world.collider_kinds())
        } else {
            after == *self
        }
    }

    /// Whether `after` is this simulation after one tick of its debris and
    /// a count of it, and nothing else changed.
    pub open spec fn elements_ticked(&self, after: Simulation) -> bool {
        &&& self.same_settings(after)
        &&& after.agents == self.agents
        &&& after.sim_state == (SimState { asteroids_num: after.sim_state.asteroids_num, ..self.sim_state })
        &&& after.sim_state.asteroids_num == self.elements.elements@.len()
        &&& crate::element::drifted(
            self.elements.elements@,
            self.world@,
            after.elements.elements@,
            after.world@,
        )
        &&& after.world.collider_kinds() == self.world.collider_kinds()
    }

    /// Whether `after` is this simulation after one step of the solver:
    /// the bodies are what the solver makes of them, the same handles are
    /// live, the colliders are as they were, and nothing else changed.
    pub open spec fn advanced(&self, after: Simulation) -> bool {
        &&& self.same_settings(after)
        &&& after.agents == self.agents
        &&& after.elements == self.elements
        &&& after.sim_state == self.sim_state
        &&& after.world@ == self.world.after_step()
        &&& after.world@.dom() == self.world@.dom()
        &&& after.world.collider_kinds() == self.world.collider_kinds()
    }

    /// Whether `after` is this simulation after the agents' tick and then
    /// the debris's.
    pub open spec fn entities_ticked(&self, after: Simulation) -> bool {
        exists|between: Simulation| #[trigger] self.agents_ticked(between) && between.elements_ticked(after)
    }

    /// Whether `after` is this simulation with its numbers made up and its
    /// entities ticked.
    pub open spec fn made_up_and_ticked(&self, refill: Agent, debris: Asteroid, after: Simulation) -> bool {
        exists|between: Simulation| #[trigger]
            self.numbers_made_up(refill, debris, between) && between.entities_ticked(after)
    }

    /// Whether `after` is this simulation with the frame noted, its numbers
    /// made up and its entities ticked.
    pub open spec fn noted_and_ticked(
        &self,
        dt: u64,
        fps: i32,
        refill: Agent,
        debris: Asteroid,
        after: Simulation,
    ) -> bool {
        exists|between: Simulation| #[trigger]
            self.frame_noted(dt, fps, between) && between.made_up_and_ticked(refill, debris, after)
    }

    /// Whether `after` is this simulation after the part of a tick before
    /// the solver steps: the wishes granted, the frame noted, the numbers
    /// made up, the agents ticked and then the debris, in this order.
    pub open spec fn prepared(&self, dt: u64, fps: i32, spawn: Spawn, after: Simulation) -> bool {
        exists|between: Simulation| #[trigger]
            self.wishes_granted(spawn.wished, between) && between.noted_and_ticked(
                dt,
                fps,
                spawn.refill,
                spawn.debris,
                after,
            )
    }

    /// Whether `after` is this simulation after one whole tick: prepared,
    /// and then advanced by one step of the solver.
    pub open spec fn updated(&self, dt: u64, fps: i32, spawn: Spawn, after: Simulation) -> bool {
        exists|between: Simulation| #[trigger] self.prepared(dt, fps, spawn, between) && between.advanced(after)
    }

    /// A simulation that holds nothing and does not run.
    pub fn new(configuration: SimConfig) -> (sim: Simulation)
        ensures
            sim.wf(),
            sim.is_empty(),
            !sim.running,
            sim.config == configuration,
            sim.selected == 0,
            !sim.signals.spawn_agent,
            !sim.signals.new_sim,
    {
        Simulation {
            simulation_name: String::new(),
            world: World::new(),
            running: false,
            config: configuration,
            sim_state: SimState::new(),
            signals: Signals::new(),
            selected: 0,
            agents: AgentsBox::new(),
            elements: DynamicCollector::new(),
        }
    }

    /// Throws the world and every entity away and runs anew under
    /// `sim_name`, or under no name.
    pub fn reset_sim(&mut self, sim_name: Option<&str>)
        ensures
            final(self).wf(),
            final(self).is_empty(),
            final(self).running,
            final(self).selected == 0,
            final(self).config == old(self).config,
            !final(self).signals.spawn_agent,
            !final(self).signals.new_sim,
            final(self).sim_state.sim_time == 0,
            final(self).sim_state.asteroids_num == 0,
            final(self).sim_state.sources_num == 0,
            final(self).sim_state.agents_num == 0,
            final(self).sim_state.physics_num == 0,
            match sim_name {
                Some(name) => final(self).simulation_name@ == name@,
                None => final(self).simulation_name@ == Seq::<char>::empty(),
            },
            final(self).sim_state.sim_name@ == final(self).simulation_name@,
    {
        self.simulation_name = match sim_name {
            Some(name) => name.to_owned(),
            None => String::new(),
        };
        self.world = World::new();
        self.agents.agents.clear();
        self.elements.elements.clear();
        self.sim_state = SimState::new();
        self.sim_state.sim_name = self.simulation_name.clone();
        self.signals = Signals::new();
        self.selected = 0;
        self.running = true;
    }

    /// Puts the first entities into the world and passes over those that
    /// the world refuses. The result is the number of agents and the number
    /// of pieces of debris taken.
    pub fn init(&mut self, agents: &Vec<Agent>, elements: Vec<Asteroid>) -> (taken: (usize, usize))
        requires
            old(self).wf(),
        ensures
            final(self).wf(),
            taken.0 == crate::agent::sized_count(agents@),
            taken.1 == crate::element::sound_count(elements@),
            old(self).populated(agents@, elements@, *final(self)),
            final(self).running == old(self).running,
            final(self).config == old(self).config,
            taken.0 <= agents@.len(),
            taken.1 <= elements@.len(),
            final(self).agents.agents@.len() <= old(self).agents.agents@.len() + taken.0,
            final(self).elements.elements@.len() <= old(self).elements.elements@.len() + taken.1,
    {
        let agents_taken = self.agents.add_many_agents(agents, &mut self.world);
        proof {
            self.lemma_agents_added(*old(self));
        }
        let ghost mid = *self;
        let elements_taken = self.elements.add_many_elements(elements, &mut self.world);
        proof {
            self.lemma_elements_added(mid);
            assert(crate::agent::admits_all(
                old(self).agents.agents@,
                old(self).world,
                agents@,
                self.agents.agents@,
                mid.world,
            ) && crate::element::admits_all(
                old(self).elements.elements@,
                mid.world,
                elements@,
                self.elements.elements@,
                self.world,
            ));
        }
        (agents_taken, elements_taken)
    }

    /// After agents were added to `before`, every entity still has a body
    /// of its own.
    proof fn lemma_agents_added(self, before: Simulation)
        requires
            before.wf(),
            self.agents.wf(),
            self.elements == before.elements,
            crate::solver::keeps_bodies(before.world@, self.world@),
            crate::agent::embodied(self.agents.agents@, self.world@),
            crate::agent::bodies_are_old_or_new(before.agents.agents@, self.agents.agents@, before.world@),
        ensures
            self.wf(),
    {
        assert forall|k: int| 0 <= k < self.elements.elements@.len() implies crate::element::has_live_body(
            #[trigger] self.elements.elements@[k],
            self.world@,
        ) by {
            assert(crate::element::has_live_body(before.elements.elements@[k], before.world@));
        }
        assert forall|i: int, j: int|
            0 <= i < self.agents.agents@.len() && 0 <= j < self.elements.elements@.len() implies self.agents.agents@[i].physics_handle
            != self.elements.elements@[j].physics_handle by {
            let handle = self.agents.agents@[i].physics_handle;
            assert(crate::element::has_live_body(before.elements.elements@[j], before.world@));
            if crate::agent::owns_body(before.agents.agents@, handle) {
                let k = choose|k: int|
                    0 <= k < before.agents.agents@.len() && #[trigger] before.agents.agents@[k].physics_handle
                        == handle;
                assert(before.agents.agents@[k].physics_handle != before.elements.elements@[j].physics_handle);
            }
        }
    }

    /// After debris was added to `before`, every entity still has a body
    /// of its own.
    proof fn lemma_elements_added(self, before: Simulation)
        requires
            before.wf(),
            self.elements.wf(),
            self.agents == before.agents,
            crate::solver::keeps_bodies(before.world@, self.world@),
            crate::element::embodied(self.elements.elements@, self.world@),
            crate::element::bodies_are_old_or_new(
                before.elements.elements@,
                self.elements.elements@,
                before.world@,
            ),
        ensures
            self.wf(),
    {
        assert forall|k: int| 0 <= k < self.agents.agents@.len() implies crate::agent::has_live_body(
            #[trigger] self.agents.agents@[k],
            self.world@,
        ) by {
            assert(crate::agent::has_live_body(before.agents.agents@[k], before.world@));
        }
        assert forall|i: int, j: int|
            0 <= i < self.agents.agents@.len() && 0 <= j < self.elements.elements@.len() implies self.agents.agents@[i].physics_handle
            != self.elements.elements@[j].physics_handle by {
            let handle = self.elements.elements@[j].physics_handle;
            assert(crate::agent::has_live_body(before.agents.agents@[i], before.world@));
            if crate::element::owns_body(before.elements.elements@, handle) {
                let k = choose|k: int|
                    0 <= k < before.elements.elements@.len() && #[trigger] before.elements.elements@[k].physics_handle
                        == handle;
                assert(before.agents.agents@[i].physics_handle != before.elements.elements@[k].physics_handle);
            }
        }
    }

    /// Asks for a new simulation under the name "Simulation".
    pub fn autorun_new_sim(&mut self)
        ensures
            final(self).signals.new_sim,
            final(self).signals.new_sim_name@ == "Simulation"@,
            final(self).signals.spawn_agent == old(self).signals.spawn_agent,
            final(self).world == old(self).world,
            final(self).agents == old(self).agents,
            final(self).elements == old(self).elements,
            final(self).running == old(self).running,
    {
        self.signals.new_sim = true;
        self.signals.new_sim_name = "Simulation".to_owned();
    }

    /// Grants the wishes of the panels: a wished agent is taken in, and a
    /// wished new simulation replaces this one, whatever was taken in.
    pub fn signals_check(&mut self, wished: Agent)
        requires
            old(self).wf(),
        ensures
            final(self).wf(),
            old(self).wishes_granted(wished, *final(self)),
            !final(self).signals.spawn_agent,
            !final(self).signals.new_sim,
            old(self).signals.new_sim ==> final(self).is_empty() && final(self).running
                && final(self).simulation_name@ == old(self).signals.new_sim_name@
                && final(self).sim_state.sim_time == 0,
            !old(self).signals.new_sim ==> final(self).running == old(self).running && final(self).elements
                == old(self).elements && crate::solver::keeps_bodies(old(self).world@, final(self).world@)
                && final(self).sim_state == old(self).sim_state,
            final(self).config == old(self).config,
            !old(self).signals.new_sim && !old(self).signals.spawn_agent ==> final(self).agents == old(
                self,
            ).agents && final(self).world == old(self).world,
    {
        if self.signals.spawn_agent {
            let _ = self.agents.add_agent(wished, &mut self.world);
            proof {
                self.lemma_agents_added(*old(self));
            }
            self.signals.spawn_agent = false;
        }
        if self.signals.new_sim {
            self.signals.new_sim = false;
            let name = self.signals.new_sim_name.clone();
            self.reset_sim(Some(name.as_str()));
        }
    }

    /// Notes the frame: its length `dt` in microseconds, its rate, and the
    /// numbers of agents and bodies.
    pub fn update_sim_state(&mut self, dt: u64, fps: i32)
        ensures
            old(self).frame_noted(dt, fps, *final(self)),
            final(self).sim_state.fps == fps,
            final(self).sim_state.dt == dt,
            final(self).sim_state.sim_time == (if old(self).sim_state.sim_time + dt > u64::MAX {
                u64::MAX
            } else {
                (old(self).sim_state.sim_time + dt) as u64
            }),
            final(self).sim_state.agents_num == old(self).agents.agents@.len(),
            crate::solver::holds_exactly(old(self).world@, final(self).sim_state.physics_num),
            final(self).sim_state.asteroids_num == old(self).sim_state.asteroids_num,
            final(self).world == old(self).world,
            final(self).agents == old(self).agents,
            final(self).elements == old(self).elements,
            final(self).config == old(self).config,
            final(self).running == old(self).running,
            final(self).signals == old(self).signals,
    {
        self.sim_state.fps = fps;
        self.sim_state.dt = dt;
        self.sim_state.sim_time = self.sim_state.sim_time.saturating_add(dt);
        self.sim_state.agents_num = self.agents.count();
        self.sim_state.physics_num = self.world.get_physics_obj_num();
    }

    /// The time that the simulation has run after a tick of `dt`
    /// microseconds: a new simulation starts from zero, and the time stops
    /// at the largest there is.
    pub open spec fn time_after(&self, dt: u64) -> u64 {
        let so_far = if self.signals.new_sim {
            0
        } else {
            self.sim_state.sim_time
        };
        if so_far + dt > u64::MAX {
            u64::MAX
        } else {
            (so_far + dt) as u64
        }
    }

    /// Whether the last count of agents is below the least number.
    pub open spec fn wants_agent(&self) -> bool {
        self.sim_state.agents_num < self.config.agent_min_num
    }

    /// Whether the last count of debris is below its number.
    pub open spec fn wants_debris(&self) -> bool {
        self.sim_state.asteroids_num < ASTER_NUM
    }

    /// Makes up the numbers: takes `refill` in if the agents were too few
    /// at the last count, and `debris` if the debris was.
    pub fn check_agents_num(&mut self, refill: Agent, debris: Asteroid)
        requires
            old(self).wf(),
        ensures
            final(self).wf(),
            old(self).numbers_made_up(refill, debris, *final(self)),
            old(self).made_up(refill, debris, *final(self)),
            crate::solver::keeps_bodies(old(self).world@, final(self).world@),
            !old(self).wants_agent() ==> final(self).agents == old(self).agents,
            !old(self).wants_debris() ==> final(self).elements == old(self).elements,
            !old(self).wants_agent() && !old(self).wants_debris() ==> final(self).world == old(self).world,
            final(self).running == old(self).running,
            final(self).sim_state == old(self).sim_state,
            final(self).config == old(self).config,
            final(self).signals == old(self).signals,
    {
        if self.sim_state.agents_num < self.config.agent_min_num {
            let _ = self.agents.add_agent(refill, &mut self.world);
            proof {
                self.lemma_agents_added(*old(self));
            }
        }
        let ghost mid = *self;
        if self.sim_state.asteroids_num < ASTER_NUM {
            let _ = self.elements.add_element(debris, &mut self.world);
            proof {
                self.lemma_elements_added(mid);
            }
        }
        proof {
            assert(old(self).debris_made_up(mid.world, debris, *self));
        }
    }

    /// One tick for the agents, of the length of the frame: see
    /// `AgentsBox::update_agents`.
    pub fn update_agents(&mut self)
        requires
            old(self).wf(),
        ensures
            final(self).wf(),
            old(self).agents_ticked(*final(self)),
            old(self).world.can_count() ==> forall|j: int|
                0 <= j < final(self).agents.agents@.len() ==> (#[trigger] final(self).agents.agents@[j]).alife
                    && in_arena(final(self).agents.agents@[j].pos),
            old(self).world.can_count() == final(self).world.can_count(),
            final(self).elements == old(self).elements,
            final(self).sim_state == old(self).sim_state,
            final(self).running == old(self).running,
            final(self).config == old(self).config,
            final(self).signals == old(self).signals,
    {
        if !self.world.is_countable() {
            return;
        }
        let dt = self.sim_state.dt;
        self.agents.update_agents(dt, &mut self.world);
        proof {
            assert forall|k: int| 0 <= k < self.elements.elements@.len() implies crate::element::has_live_body(
                #[trigger] self.elements.elements@[k],
                self.world@,
            ) by {
                let element = old(self).elements.elements@[k];
                assert(crate::element::has_live_body(element, old(self).world@));
                let h = element.physics_handle->0;
                if !self.world.is_live(h) {
                    let a = choose|a: int|
                        0 <= a < old(self).agents.agents@.len() && #[trigger] old(
                            self,
                        ).agents.agents@[a].physics_handle == Some(h);
                    assert(old(self).agents.agents@[a].physics_handle != element.physics_handle);
                }
            }
            assert forall|i: int, j: int|
                0 <= i < self.agents.agents@.len() && 0 <= j < self.elements.elements@.len() implies self.agents.agents@[i].physics_handle
                != self.elements.elements@[j].physics_handle by {
                let handle = self.agents.agents@[i].physics_handle;
                assert(crate::agent::owns_body(old(self).agents.agents@, handle));
                let k = choose|k: int|
                    0 <= k < old(self).agents.agents@.len() && #[trigger] old(self).agents.agents@[k].physics_handle
                        == handle;
                assert(old(self).agents.agents@[k].physics_handle != old(self).elements.elements@[j].physics_handle);
            }
        }
    }

    /// One tick for the debris, and a count of it: see
    /// `DynamicCollector::update_elements`.
    pub fn update_elements(&mut self)
        requires
            old(self).wf(),
        ensures
            final(self).wf(),
            old(self).elements_ticked(*final(self)),
            final(self).world.can_count() == old(self).world.can_count(),
            forall|j: int|
                0 <= j < final(self).elements.elements@.len() ==> near_arena(
                    (#[trigger] final(self).elements.elements@[j]).pos,
                ),
            final(self).sim_state.asteroids_num == old(self).elements.elements@.len(),
            final(self).sim_state.dt == old(self).sim_state.dt,
            final(self).sim_state.fps == old(self).sim_state.fps,
            final(self).sim_state.sim_time == old(self).sim_state.sim_time,
            final(self).agents == old(self).agents,
            final(self).running == old(self).running,
            final(self).config == old(self).config,
            final(self).signals == old(self).signals,
    {
        self.sim_state.asteroids_num = self.elements.count();
        let dt = self.sim_state.dt;
        self.elements.update_elements(dt, &mut self.world);
        proof {
            assert forall|k: int| 0 <= k < self.agents.agents@.len() implies crate::agent::has_live_body(
                #[trigger] self.agents.agents@[k],
                self.world@,
            ) by {
                assert(crate::agent::has_live_body(old(self).agents.agents@[k], old(self).world@));
            }
        }
    }

    /// One tick of the simulation for a frame of `dt` microseconds: the
    /// wishes of the panels are granted and the numbers made up, every
    /// agent pulls its pose, is held in the arena, senses and spends
    /// energy, every piece of debris pulls its pose and re-enters the
    /// arena, and then the solver steps once.
    pub fn update(&mut self, dt: u64, fps: i32, spawn: Spawn)
        requires
            old(self).wf(),
        ensures
            final(self).wf(),
            old(self).updated(dt, fps, spawn, *final(self)),
            final(self).world.can_count() ==> forall|j: int|
                0 <= j < final(self).agents.agents@.len() ==> (#[trigger] final(self).agents.agents@[j]).alife
                    && in_arena(final(self).agents.agents@[j].pos),
            forall|j: int|
                0 <= j < final(self).elements.elements@.len() ==> near_arena(
                    (#[trigger] final(self).elements.elements@[j]).pos,
                ),
            final(self).sim_state.dt == dt,
            final(self).sim_state.fps == fps,
            final(self).sim_state.sim_time == old(self).time_after(dt),
            final(self).running == (old(self).running || old(self).signals.new_sim),
            final(self).config == old(self).config,
            !final(self).signals.spawn_agent,
            !final(self).signals.new_sim,
    {
        let ghost offered = spawn;
        self.prepare(dt, fps, spawn);
        let ghost ready = *self;
        self.advance();
        proof {
            assert(old(self).prepared(dt, fps, offered, ready) && ready.advanced(*self));
        }
    }

    /// Whether every entity has a body of its own in the world, and no two
    /// entities of a kind share a key. Every function of the simulation
    /// keeps this so; it can fail only after the fields were written to
    /// from outside.
    pub fn is_sound(&self) -> (r: bool)
        ensures
            r == self.wf(),
    {
        if !self.agents.has_distinct_keys() || !self.elements.has_distinct_keys() {
            return false;
        }
        if !self.agents.is_embodied(&self.world) || !self.elements.is_embodied(&self.world) {
            return false;
        }
        let n = self.agents.agents.len();
        let m = self.elements.elements.len();
        let mut i: usize = 0;
        while i < n
            invariant
                i <= n,
                n == self.agents.agents@.len(),
                m == self.elements.elements@.len(),
                forall|a: int, b: int|
                    0 <= a < i && 0 <= b < m ==> self.agents.agents@[a].physics_handle
                        != self.elements.elements@[b].physics_handle,
            decreases n - i,
        {
            let mut j: usize = 0;
            while j < m
                invariant
                    i < n,
                    j <= m,
                    n == self.agents.agents@.len(),
                    m == self.elements.elements@.len(),
                    forall|b: int|
                        0 <= b < j ==> self.agents.agents@[i as int].physics_handle
                            != self.elements.elements@[b].physics_handle,
                decreases m - j,
            {
                if self.agents.agents[i].physics_handle == self.elements.elements[j].physics_handle {
                    return false;
                }
                j = j + 1;
            }
            i = i + 1;
        }
        true
    }

    /// The part of a tick before the solver steps: the wishes of the
    /// panels are granted and the numbers made up, every agent pulls its
    /// pose, is held in the arena, senses and spends energy, and every
    /// piece of debris pulls its pose and re-enters the arena. What the
    /// entities want of the solver for this tick is written to the world
    /// after this and before `advance`.
    pub fn prepare(&mut self, dt: u64, fps: i32, spawn: Spawn)
        requires
            old(self).wf(),
        ensures
            final(self).wf(),
            old(self).prepared(dt, fps, spawn, *final(self)),
            final(self).world.can_count() ==> forall|j: int|
                0 <= j < final(self).agents.agents@.len() ==> (#[trigger] final(self).agents.agents@[j]).alife
                    && in_arena(final(self).agents.agents@[j].pos),
            forall|j: int|
                0 <= j < final(self).elements.elements@.len() ==> near_arena(
                    (#[trigger] final(self).elements.elements@[j]).pos,
                ),
            final(self).sim_state.dt == dt,
            final(self).sim_state.fps == fps,
            final(self).sim_state.sim_time == old(self).time_after(dt),
            final(self).running == (old(self).running || old(self).signals.new_sim),
            final(self).config == old(self).config,
            !final(self).signals.spawn_agent,
            !final(self).signals.new_sim,
    {
        let ghost offered = spawn;
        self.signals_check(spawn.wished);
        let ghost granted = *self;
        self.update_sim_state(dt, fps);
        let ghost noted = *self;
        self.check_agents_num(spawn.refill, spawn.debris);
        let ghost made_up = *self;
        self.update_agents();
        let ghost ticked = *self;
        self.update_elements();
        proof {
            assert(made_up.agents_ticked(ticked) && ticked.elements_ticked(*self));
            assert(noted.numbers_made_up(offered.refill, offered.debris, made_up) && made_up.entities_ticked(
                *self,
            ));
            assert(granted.frame_noted(dt, fps, noted) && noted.made_up_and_ticked(
                offered.refill,
                offered.debris,
                *self,
            ));
            assert(old(self).wishes_granted(offered.wished, granted) && granted.noted_and_ticked(
                dt,
                fps,
                offered.refill,
                offered.debris,
                *self,
            ));
        }
    }

    /// The end of a tick: the solver steps once. No entity changes, and
    /// every body stays live.
    pub fn advance(&mut self)
        requires
            old(self).wf(),
        ensures
            final(self).wf(),
            old(self).advanced(*final(self)),
            final(self).agents == old(self).agents,
            final(self).elements == old(self).elements,
            final(self).sim_state == old(self).sim_state,
            final(self).running == old(self).running,
            final(self).config == old(self).config,
            final(self).signals == old(self).signals,
            final(self).world@.dom() == old(self).world@.dom(),
            final(self).world.can_count() == old(self).world.can_count(),
    {
        self.world.step_physics();
        proof {
            assert forall|k: int| 0 <= k < self.agents.agents@.len() implies crate::agent::has_live_body(
                #[trigger] self.agents.agents@[k],
                self.world@,
            ) by {}
            assert forall|k: int| 0 <= k < self.elements.elements@.len() implies crate::element::has_live_body(
                #[trigger] self.elements.elements@[k],
                self.world@,
            ) by {}
        }
    }

    /// Whether the simulation runs.
    pub fn is_running(&self) -> (r: bool)
        ensures
            r == self.running,
    {
        self.running
    }
}

} // verus!
