//! The boundary with `rapier2d`: the solver's types, what this crate reads
//! of its bodies and colliders, and one small function for each solver
//! call.
//!
//! The functions marked `external_body` are not proved. The contract of
//! each states what the solver's source shows of the call it wraps, and the
//! rest of the crate is proved from these contracts. The solver computes in
//! single precision; its numbers cross this boundary as encodings.
use crate::scalar::Scalar;
use rapier2d::dynamics::{
    CCDSolver, ImpulseJointSet, IntegrationParameters, IslandManager, MultibodyJointSet,
    RigidBodyBuilder, RigidBodyHandle, RigidBodySet,
};
use rapier2d::geometry::{
    BroadPhase, Collider, ColliderBuilder, ColliderHandle, ColliderSet, NarrowPhase,
};
use rapier2d::math::Real;
use rapier2d::na::{Isometry2, Point2, Vector2};
use rapier2d::pipeline::{ActiveEvents, PhysicsPipeline, QueryFilter, QueryFilterFlags, QueryPipeline};
use vstd::prelude::*;

verus! {

/// The solver's set of rigid bodies.
#[verifier::external_type_specification]
#[verifier::external_body]
pub struct ExRigidBodySet(RigidBodySet);

/// The solver's set of colliders.
#[verifier::external_type_specification]
#[verifier::external_body]
pub struct ExColliderSet(ColliderSet);

/// A collider of the solver.
#[verifier::external_type_specification]
#[verifier::external_body]
pub struct ExCollider(Collider);

/// The solver's parameters of integration.
#[verifier::external_type_specification]
#[verifier::external_body]
pub struct ExIntegrationParameters(IntegrationParameters);

/// The solver's pipeline that steps the world.
#[verifier::external_type_specification]
#[verifier::external_body]
pub struct ExPhysicsPipeline(PhysicsPipeline);

/// The solver's index for spatial queries.
#[verifier::external_type_specification]
#[verifier::external_body]
pub struct ExQueryPipeline(QueryPipeline);

/// The solver's book of the bodies that are awake.
#[verifier::external_type_specification]
#[verifier::external_body]
pub struct ExIslandManager(IslandManager);

/// The solver's broad phase of collision detection.
#[verifier::external_type_specification]
#[verifier::external_body]
pub struct ExBroadPhase(BroadPhase);

/// The solver's narrow phase of collision detection.
#[verifier::external_type_specification]
#[verifier::external_body]
pub struct ExNarrowPhase(NarrowPhase);

/// The solver's set of impulse joints.
#[verifier::external_type_specification]
#[verifier::external_body]
pub struct ExImpulseJointSet(ImpulseJointSet);

/// The solver's set of multibody joints.
#[verifier::external_type_specification]
#[verifier::external_body]
pub struct ExMultibodyJointSet(MultibodyJointSet);

/// The solver's continuous collision detection.
#[verifier::external_type_specification]
#[verifier::external_body]
pub struct ExCCDSolver(CCDSolver);

/// A point of the plane.
#[derive(Clone, Copy, Debug, PartialEq, Eq, Structural)]
pub struct Point {
    pub x: Scalar,
    pub y: Scalar,
}

/// A point with whole-number coordinates: a corner of an outline.
#[derive(Clone, Copy, Debug, PartialEq, Eq, Structural)]
pub struct GridPoint {
    pub x: i16,
    pub y: i16,
}

impl GridPoint {
    /// The same point with scalar coordinates.
    pub open spec fn spec_point(self) -> Point {
        Point { x: Scalar::of_int(self.x as int), y: Scalar::of_int(self.y as int) }
    }
}

/// The name of a rigid body in a body set: a slot and the generation of
/// its occupant. A handle whose body was removed names nothing.
#[derive(Clone, Copy, Debug, PartialEq, Eq, Structural, Hash)]
pub struct BodyHandle {
    pub index: u32,
    pub generation: u32,
}

/// The name of a collider in a collider set.
#[derive(Clone, Copy, Debug, PartialEq, Eq, Structural, Hash)]
pub struct ColliderId {
    pub index: u32,
    pub generation: u32,
}

/// What this crate reads of a rigid body.
#[derive(Clone, Copy, Debug, PartialEq, Eq, Structural)]
pub struct BodyState {
    /// The key of the entity that the body stands for: the low 64 bits of
    /// the body's user data.
    pub owner: u64,
    /// The body's translation.
    pub position: Point,
    /// The angle of the body's rotation, in radians, from `-pi` to `pi`.
    pub angle: Scalar,
    /// The body's linear velocity.
    pub velocity: Point,
    /// The body's angular velocity.
    pub spin: Scalar,
    /// Whether forces and contacts move the body.
    pub dynamic: bool,
}

impl BodyState {
    /// A dynamic body that moves at `drift` from `at`, without rotation or
    /// spin.
    pub open spec fn adrift(owner: u64, at: Point, drift: Point) -> BodyState {
        BodyState {
            owner,
            position: at,
            angle: Scalar::of_int(0),
            velocity: drift,
            spin: Scalar::of_int(0),
            dynamic: true,
        }
    }

    /// A dynamic body at rest at `at`, without rotation.
    pub open spec fn at_rest(owner: u64, at: Point) -> BodyState {
        Self::adrift(owner, at, Point::spec_origin())
    }
}

impl Point {
    /// The point at which both coordinates are `+0`.
    pub open spec fn spec_origin() -> Point {
        Point { x: Scalar::of_int(0), y: Scalar::of_int(0) }
    }

    /// The point at which both coordinates are `+0`.
    pub fn origin() -> (p: Point)
        ensures
            p == Self::spec_origin(),
    {
        Point { x: Scalar { bits: 0 }, y: Scalar { bits: 0 } }
    }

    /// The point with the whole-number coordinates `x` and `y`.
    pub fn on_grid(x: i16, y: i16) -> (p: Point)
        ensures
            p == (GridPoint { x, y }).spec_point(),
    {
        Point { x: Scalar::from_i16(x), y: Scalar::from_i16(y) }
    }
}

/// The shape of a collider, as far as this crate reads it.
#[derive(Clone, Copy, Debug, PartialEq, Eq, Structural)]
pub enum ShapeKind {
    Ball { radius: Scalar },
    Polygon,
    Other,
}

/// What this crate reads of a collider.
#[derive(Clone, Copy, Debug, PartialEq, Eq, Structural)]
pub struct ColliderKind {
    /// Whether the collider only senses overlap and takes no part in contacts.
    pub sensor: bool,
    /// The body that carries the collider, if any.
    pub parent: Option<BodyHandle>,
    pub shape: ShapeKind,
    /// The events that the collider reports, as the bits of the solver's
    /// flags.
    pub events: u32,
    /// The density of the collider.
    pub density: Scalar,
}

/// The live bodies of a body set, by handle.
pub uninterp spec fn body_map(bodies: RigidBodySet) -> Map<BodyHandle, BodyState>;

/// The live colliders of a collider set, by name.
pub uninterp spec fn collider_map(colliders: ColliderSet) -> Map<ColliderId, ColliderKind>;

/// The colliders that the body `handle` lists as attached to it, in the
/// order of the list; none for a handle that names no live body.
pub uninterp spec fn listed_colliders(bodies: RigidBodySet, handle: BodyHandle) -> Seq<ColliderId>;

/// The kinetic energy of the body `handle`, as `RigidBody::kinetic_energy`
/// works it out of the body's mass and velocities.
pub uninterp spec fn body_energy(bodies: RigidBodySet, handle: BodyHandle) -> Scalar;

/// The generation that a body set gives to the next body it takes. The
/// set counts the bodies that were removed from it, and a handle bears the
/// count at which its body came.
pub uninterp spec fn next_generation(bodies: RigidBodySet) -> u32;

/// The generation that a collider set gives to the next collider it
/// takes: the count of the colliders that were removed from it.
pub uninterp spec fn next_collider_generation(colliders: ColliderSet) -> u32;

/// The count that an island manager keeps of the steps it has taken part
/// in.
pub uninterp spec fn steps_counted(islands: IslandManager) -> u32;

/// Whether the parts are the state of one solver, as the solver's own
/// functions leave it: the parameters are the solver's defaults, every
/// collider on a body is live and listed by that body, which is live, and
/// the other parts know no body and no collider but those of the two sets.
pub uninterp spec fn fit_together(
    bodies: RigidBodySet,
    colliders: ColliderSet,
    parameters: IntegrationParameters,
    pipeline: PhysicsPipeline,
    query: QueryPipeline,
    islands: IslandManager,
    broad_phase: BroadPhase,
    narrow_phase: NarrowPhase,
    impulse_joints: ImpulseJointSet,
    multibody_joints: MultibodyJointSet,
    ccd_solver: CCDSolver,
) -> bool;

/// The colliders that `QueryPipeline::intersections_with_shape` reports for
/// the shape of the collider `sensor` at the pose of `body`, with that
/// collider and that body left out and the colliders that `flags` exclude,
/// in the order in which it reports them; none where `body` or `sensor`
/// names nothing.
pub uninterp spec fn reported_overlaps(
    query: QueryPipeline,
    bodies: RigidBodySet,
    colliders: ColliderSet,
    body: BodyHandle,
    sensor: ColliderId,
    flags: u32,
) -> Seq<ColliderId>;

/// The bodies that `PhysicsPipeline::step` makes of the solver's state
/// under the given gravity, without hooks or handler of events. The step
/// draws nothing at random, and the clock by which it times itself does
/// not bear on the bodies.
pub uninterp spec fn stepped_bodies(
    gravity: Point,
    pipeline: PhysicsPipeline,
    parameters: IntegrationParameters,
    islands: IslandManager,
    broad_phase: BroadPhase,
    narrow_phase: NarrowPhase,
    bodies: RigidBodySet,
    colliders: ColliderSet,
    impulse_joints: ImpulseJointSet,
    multibody_joints: MultibodyJointSet,
    ccd_solver: CCDSolver,
) -> Map<BodyHandle, BodyState>;

/// What this crate reads of a collider that is in no set.
pub uninterp spec fn kind_of(collider: Collider) -> ColliderKind;

/// Whether the solver takes the points, in their order, for the outline of
/// a convex polygon: the result of `ColliderBuilder::convex_polyline` is
/// `Some`.
pub uninterp spec fn polyline_accepted(points: Seq<GridPoint>) -> bool;

/// The Euclidean distance from `a` to `b` in single precision, as
/// `glam::Vec2::distance` rounds it.
pub uninterp spec fn distance_between(a: Point, b: Point) -> Scalar;

/// Whether every body of `before` is a body of `after`, unchanged.
pub open spec fn keeps_bodies(before: Map<BodyHandle, BodyState>, after: Map<BodyHandle, BodyState>) -> bool {
    forall|h: BodyHandle| #[trigger] before.contains_key(h) ==> after.contains_key(h) && after[h] == before[h]
}

/// The colliders of an empty set.
pub open spec fn no_colliders() -> Map<ColliderId, ColliderKind> {
    Map::empty()
}

/// The events that the colliders of this crate report: collisions, the
/// first bit of the solver's flags.
pub const COLLISION_EVENTS: u32 = 1;

/// The encoding of the density of the colliders of this crate: 1.
pub const UNIT_DENSITY: u32 = 0x3f80_0000;

/// A collider of the given shape on no body.
pub open spec fn loose(shape: ShapeKind, sensor: bool, events: u32, density: Scalar) -> ColliderKind {
    ColliderKind { sensor, parent: None, shape, events, density }
}

/// A ball of the radius `radius` on no body, of unit density, that reports
/// collisions.
pub open spec fn loose_ball(radius: Scalar, sensor: bool) -> ColliderKind {
    loose(ShapeKind::Ball { radius }, sensor, COLLISION_EVENTS, Scalar { bits: UNIT_DENSITY })
}

/// A solid polygon on no body, of unit density, that reports collisions.
pub open spec fn loose_polygon() -> ColliderKind {
    loose(ShapeKind::Polygon, false, COLLISION_EVENTS, Scalar { bits: UNIT_DENSITY })
}

/// The collider `kind` on the body `parent`.
pub open spec fn carried_by(kind: ColliderKind, parent: BodyHandle) -> ColliderKind {
    ColliderKind { parent: Some(parent), ..kind }
}

/// Whether every collider of `after` is a collider of `before`, unchanged:
/// colliders may have gone, and none has come or changed.
pub open spec fn keeps_colliders(
    before: Map<ColliderId, ColliderKind>,
    after: Map<ColliderId, ColliderKind>,
) -> bool {
    forall|c: ColliderId| #[trigger] after.contains_key(c) ==> before.contains_key(c) && before[c] == after[c]
}

/// The colliders without those of `listed`.
pub open spec fn without_listed(
    colliders: Map<ColliderId, ColliderKind>,
    listed: Seq<ColliderId>,
) -> Map<ColliderId, ColliderKind> {
    colliders.remove_keys(listed.to_set())
}

/// The bodies of an empty set.
pub open spec fn no_bodies() -> Map<BodyHandle, BodyState> {
    Map::empty()
}

/// Whether `a` and `b` are the same number: the same encoding, or zeros of
/// either sign.
pub open spec fn same_number(a: Scalar, b: Scalar) -> bool {
    !a.spec_is_nan() && !b.spec_is_nan() && a.rank() == b.rank()
}

/// Whether `after` is what the solver makes of `before` when it is set to
/// `target`: the solver writes `target`, unless it finds that nothing
/// changes as a number, and then it may leave what was there.
pub open spec fn settles(before: Scalar, after: Scalar, target: Scalar) -> bool {
    after == target || (after == before && same_number(before, target))
}

/// Whether `after` is `before` with one coordinate of the body `handle` set
/// to the whole number `value`: the abscissa for axis 0, the ordinate for
/// any other. A handle that names nothing changes nothing.
pub open spec fn moves_coordinate(
    before: Map<BodyHandle, BodyState>,
    after: Map<BodyHandle, BodyState>,
    handle: BodyHandle,
    axis: usize,
    value: i16,
) -> bool {
    if before.contains_key(handle) {
        let was = before[handle];
        let target = Scalar::of_int(value as int);
        &&& after.contains_key(handle)
        &&& after == before.insert(handle, after[handle])
        &&& after[handle] == BodyState { position: after[handle].position, ..was }
        &&& if axis == 0 {
            settles(was.position.x, after[handle].position.x, target) && after[handle].position.y
                == was.position.y
        } else {
            settles(was.position.y, after[handle].position.y, target) && after[handle].position.x
                == was.position.x
        }
    } else {
        after == before
    }
}

/// Whether `after` is `before` with the velocity of the body `handle` set
/// to `velocity`: a dynamic body takes it, and any other takes it or keeps
/// its own. A handle that names nothing changes nothing.
pub open spec fn changes_velocity(
    before: Map<BodyHandle, BodyState>,
    after: Map<BodyHandle, BodyState>,
    handle: BodyHandle,
    velocity: Point,
) -> bool {
    if before.contains_key(handle) {
        let was = before[handle];
        let kept = after[handle].velocity == was.velocity;
        &&& after.contains_key(handle)
        &&& after == before.insert(handle, after[handle])
        &&& after[handle] == BodyState { velocity: after[handle].velocity, ..was }
        &&& after[handle].velocity == velocity || kept
        &&& was.dynamic && kept ==> after[handle].velocity == velocity || (same_number(
            was.velocity.x,
            velocity.x,
        ) && same_number(was.velocity.y, velocity.y))
    } else {
        after == before
    }
}

/// Whether `after` is `before` with the angular velocity of the body
/// `handle` set to `spin`: a dynamic body takes it, and any other takes it
/// or keeps its own. A handle that names nothing changes nothing.
pub open spec fn changes_spin(
    before: Map<BodyHandle, BodyState>,
    after: Map<BodyHandle, BodyState>,
    handle: BodyHandle,
    spin: Scalar,
) -> bool {
    if before.contains_key(handle) {
        let was = before[handle];
        &&& after.contains_key(handle)
        &&& after == before.insert(handle, after[handle])
        &&& after[handle] == BodyState { spin: after[handle].spin, ..was }
        &&& after[handle].spin == spin || after[handle].spin == was.spin
        &&& was.dynamic ==> settles(was.spin, after[handle].spin, spin)
    } else {
        after == before
    }
}

/// Whether a body set that gave the generation `before` gives `after` once
/// a body was removed from it, or none was: each removal moves the count
/// on by one.
pub open spec fn counts_removal(before: u32, after: u32, removed: bool) -> bool {
    if removed {
        after == before + 1
    } else {
        after == before
    }
}

/// The state of a solver: the two sets, and the parts that step them and
/// answer queries on them.
pub struct Parts {
    pub rigid_bodies: RigidBodySet,
    pub colliders: ColliderSet,
    pub integration_parameters: IntegrationParameters,
    pub physics_pipeline: PhysicsPipeline,
    pub query_pipeline: QueryPipeline,
    pub island_manager: IslandManager,
    pub broad_phase: BroadPhase,
    pub narrow_phase: NarrowPhase,
    pub impulse_joint_set: ImpulseJointSet,
    pub multibody_joint_set: MultibodyJointSet,
    pub ccd_solver: CCDSolver,
}

impl Parts {
    /// Whether the parts fit together.
    pub open spec fn in_order(self) -> bool {
        fit_together(
            self.rigid_bodies,
            self.colliders,
            self.integration_parameters,
            self.physics_pipeline,
            self.query_pipeline,
            self.island_manager,
            self.broad_phase,
            self.narrow_phase,
            self.impulse_joint_set,
            self.multibody_joint_set,
            self.ccd_solver,
        )
    }

    /// Whether the two sets can count the removal of everything they
    /// hold: each counts in 32 bits, one for each body or collider that
    /// leaves.
    pub open spec fn can_count(self) -> bool {
        &&& body_map(self.rigid_bodies).dom().finite()
        &&& collider_map(self.colliders).dom().finite()
        &&& next_generation(self.rigid_bodies) + body_map(self.rigid_bodies).dom().len() <= u32::MAX
        &&& next_collider_generation(self.colliders) + collider_map(self.colliders).dom().len() <= u32::MAX
    }

    /// Whether the island manager can count one more step.
    pub open spec fn can_step(self) -> bool {
        steps_counted(self.island_manager) < u32::MAX
    }

    /// The generations of the two sets and the count of the steps.
    pub open spec fn counts(self) -> (u32, u32, u32) {
        (
            next_generation(self.rigid_bodies),
            next_collider_generation(self.colliders),
            steps_counted(self.island_manager),
        )
    }

    /// The parts with other bodies.
    pub open spec fn with_bodies(self, bodies: RigidBodySet) -> Parts {
        Parts { rigid_bodies: bodies, ..self }
    }

    /// The parts with other colliders.
    pub open spec fn with_colliders(self, colliders: ColliderSet) -> Parts {
        Parts { colliders, ..self }
    }

    /// The bodies after one step under the given gravity.
    pub open spec fn stepped(self, gravity: Point) -> Map<BodyHandle, BodyState> {
        stepped_bodies(
            gravity,
            self.physics_pipeline,
            self.integration_parameters,
            self.island_manager,
            self.broad_phase,
            self.narrow_phase,
            self.rigid_bodies,
            self.colliders,
            self.impulse_joint_set,
            self.multibody_joint_set,
            self.ccd_solver,
        )
    }
}

/// Whether `bodies` holds `count` bodies and no more.
pub open spec fn holds_exactly(bodies: Map<BodyHandle, BodyState>, count: usize) -> bool {
    bodies.dom().finite() && bodies.dom().len() == count
}

/// The parts of a new solver: `RigidBodySet::new`, `ColliderSet::new`,
/// `IntegrationParameters::default`, `PhysicsPipeline::new`,
/// `QueryPipeline::new`, `IslandManager::new`, `BroadPhase::new`,
/// `NarrowPhase::new`, `ImpulseJointSet::new`, `MultibodyJointSet::new` and
/// `CCDSolver::new`. Parts that are new together fit together; the two
/// sets are empty and at the generation 0, and no step is counted.
#[verifier::external_body]
pub(crate) fn fresh_parts() -> (parts: Parts)
    ensures
        fit_together(
            parts.rigid_bodies,
            parts.colliders,
            parts.integration_parameters,
            parts.physics_pipeline,
            parts.query_pipeline,
            parts.island_manager,
            parts.broad_phase,
            parts.narrow_phase,
            parts.impulse_joint_set,
            parts.multibody_joint_set,
            parts.ccd_solver,
        ),
        body_map(parts.rigid_bodies) == no_bodies(),
        collider_map(parts.colliders) == no_colliders(),
        parts.counts() == (0u32, 0u32, 0u32),
{
    Parts {
        rigid_bodies: RigidBodySet::new(),
        colliders: ColliderSet::new(),
        integration_parameters: IntegrationParameters::default(),
        physics_pipeline: PhysicsPipeline::new(),
        query_pipeline: QueryPipeline::new(),
        island_manager: IslandManager::new(),
        broad_phase: BroadPhase::new(),
        narrow_phase: NarrowPhase::new(),
        impulse_joint_set: ImpulseJointSet::new(),
        multibody_joint_set: MultibodyJointSet::new(),
        ccd_solver: CCDSolver::new(),
    }
}

/// `RigidBodySet::insert` of a dynamic body without rotation or spin at
/// `at`, with the velocity `drift` and with `owner` as its user data. The
/// handle that comes back named nothing before, and names the new body
/// after; no other body changes, and the new body lists no collider. The
/// handle bears the set's generation, which stays. Nothing but the body
/// set changes, and parts that fit together still do. The solver keeps
/// the numbers that it is given, encoding for encoding, and the angle of
/// the identity rotation is `+0`.
#[verifier::external_body]
pub(crate) fn insert_dynamic_body(
    parts: &mut Parts,
    owner: u64,
    at: Point,
    drift: Point,
    can_sleep: bool,
) -> (handle: BodyHandle)
    ensures
        !body_map(old(parts).rigid_bodies).contains_key(handle),
        body_map(final(parts).rigid_bodies) == body_map(old(parts).rigid_bodies).insert(
            handle,
            BodyState::adrift(owner, at, drift),
        ),
        listed_colliders(final(parts).rigid_bodies, handle).len() == 0,
        handle.generation == next_generation(old(parts).rigid_bodies),
        final(parts).counts() == old(parts).counts(),
        *final(parts) == old(parts).with_bodies(final(parts).rigid_bodies),
        old(parts).in_order() ==> final(parts).in_order(),
    no_unwind
{
    let body = RigidBodyBuilder::dynamic()
        .position(Isometry2::translation(Real::from_bits(at.x.bits), Real::from_bits(at.y.bits)))
        .linvel(Vector2::new(Real::from_bits(drift.x.bits), Real::from_bits(drift.y.bits)))
        .user_data(owner.into())
        .can_sleep(can_sleep)
        .build();
    let (index, generation) = parts.rigid_bodies.insert(body).into_raw_parts();
    BodyHandle { index, generation }
}

/// A ball of the given radius and density from `ColliderBuilder::ball`,
/// solid or sensor, that reports the given events. It is on no body yet.
/// The events are bits of the solver's flags, of which there are two.
#[verifier::external_body]
pub(crate) fn ball_collider(radius: Scalar, sensor: bool, events: u32, density: Scalar) -> (collider: Collider)
    requires
        events < 4,
    ensures
        kind_of(collider) == loose(ShapeKind::Ball { radius }, sensor, events, density),
{
    ColliderBuilder::ball(Real::from_bits(radius.bits))
        .sensor(sensor)
        .active_events(ActiveEvents::from_bits_truncate(events))
        .density(Real::from_bits(density.bits))
        .build()
}

/// A solid convex polygon of the given density from
/// `ColliderBuilder::convex_polyline`, that reports the given events. The
/// solver refuses outlines that it finds degenerate and panics on an empty
/// one. The events are bits of the solver's flags, of which there are two.
#[verifier::external_body]
pub(crate) fn polygon_collider(points: &Vec<GridPoint>, events: u32, density: Scalar) -> (collider: Option<
    Collider,
>)
    requires
        points@.len() > 0,
        events < 4,
    ensures
        collider.is_some() == polyline_accepted(points@),
        collider matches Some(c) ==> kind_of(c) == loose(ShapeKind::Polygon, false, events, density),
{
    let outline = points.iter().map(|p| Point2::new(p.x.into(), p.y.into())).collect();
    ColliderBuilder::convex_polyline(outline).map(
        |b| b.active_events(ActiveEvents::from_bits_truncate(events)).density(Real::from_bits(density.bits)).build(),
    )
}

/// `ColliderSet::insert_with_parent`, which panics unless `parent` is live.
/// The collider enters the set under a name that named nothing before, as
/// it was but for its parent, and at the end of the parent's list. The
/// parent changes its mass, and nothing that `body_map` reads. Nothing but
/// the two sets changes, no count moves, and parts that fit together
/// still do.
#[verifier::external_body]
pub(crate) fn attach_collider(parts: &mut Parts, parent: BodyHandle, collider: Collider) -> (id: ColliderId)
    requires
        body_map(old(parts).rigid_bodies).contains_key(parent),
    ensures
        body_map(final(parts).rigid_bodies) == body_map(old(parts).rigid_bodies),
        !collider_map(old(parts).colliders).contains_key(id),
        collider_map(final(parts).colliders) == collider_map(old(parts).colliders).insert(
            id,
            carried_by(kind_of(collider), parent),
        ),
        listed_colliders(final(parts).rigid_bodies, parent) == listed_colliders(
            old(parts).rigid_bodies,
            parent,
        ).push(id),
        final(parts).counts() == old(parts).counts(),
        *final(parts) == old(parts).with_bodies(final(parts).rigid_bodies).with_colliders(
            final(parts).colliders,
        ),
        old(parts).in_order() ==> final(parts).in_order(),
    no_unwind
{
    let parent = RigidBodyHandle::from_raw_parts(parent.index, parent.generation);
    let (index, generation) =
        parts.colliders.insert_with_parent(collider, parent, &mut parts.rigid_bodies).into_raw_parts();
    ColliderId { index, generation }
}

/// `RigidBodySet::remove` with the attached colliders, on parts that fit
/// together and can count what leaves: the body that `handle` names leaves
/// the set, the colliders that it lists leave theirs, and the result says
/// whether there was one. The body set's generation moves on by one for
/// the body, and that of the collider set by one for each collider that
/// leaves. No step is counted, and the parts still fit together.
#[verifier::external_body]
pub(crate) fn remove_body(parts: &mut Parts, handle: BodyHandle) -> (removed: bool)
    requires
        old(parts).in_order(),
        old(parts).can_count(),
    ensures
        removed == body_map(old(parts).rigid_bodies).contains_key(handle),
        body_map(final(parts).rigid_bodies) == body_map(old(parts).rigid_bodies).remove(handle),
        collider_map(final(parts).colliders) == (if body_map(old(parts).rigid_bodies).contains_key(handle) {
            without_listed(collider_map(old(parts).colliders), listed_colliders(old(parts).rigid_bodies, handle))
        } else {
            collider_map(old(parts).colliders)
        }),
        counts_removal(
            next_generation(old(parts).rigid_bodies),
            next_generation(final(parts).rigid_bodies),
            removed,
        ),
        next_collider_generation(final(parts).colliders) + collider_map(final(parts).colliders).dom().len()
            == next_collider_generation(old(parts).colliders) + collider_map(old(parts).colliders).dom().len(),
        steps_counted(final(parts).island_manager) == steps_counted(old(parts).island_manager),
        final(parts).in_order(),
    no_unwind
{
    let handle = RigidBodyHandle::from_raw_parts(handle.index, handle.generation);
    parts.rigid_bodies.remove(
        handle, &mut parts.island_manager, &mut parts.colliders, &mut parts.impulse_joint_set,
        &mut parts.multibody_joint_set, true,
    ).is_some()
}

/// Whether `colliders` holds `count` colliders and no more.
pub open spec fn counts_exactly(colliders: Map<ColliderId, ColliderKind>, count: usize) -> bool {
    colliders.dom().finite() && colliders.dom().len() == count
}

/// `RigidBodySet::len`: the number of live bodies, which is finite.
#[verifier::external_body]
pub(crate) fn body_count(bodies: &RigidBodySet) -> (count: usize)
    ensures
        holds_exactly(body_map(*bodies), count),
{
    bodies.len()
}

/// `ColliderSet::len`: the number of live colliders, which is finite.
#[verifier::external_body]
pub(crate) fn collider_count(colliders: &ColliderSet) -> (count: usize)
    ensures
        counts_exactly(collider_map(*colliders), count),
{
    colliders.len()
}

/// `RigidBodySet::get`: what `body_map` holds for the handle, and nothing
/// for a handle that names no live body.
#[verifier::external_body]
pub(crate) fn read_body(bodies: &RigidBodySet, handle: BodyHandle) -> (state: Option<BodyState>)
    ensures
        state == (if body_map(*bodies).contains_key(handle) {
            Some(body_map(*bodies)[handle])
        } else {
            None
        }),
{
    let handle = RigidBodyHandle::from_raw_parts(handle.index, handle.generation);
    bodies.get(handle).map(|rb| BodyState {
        owner: rb.user_data as u64,
        position: point(rb.translation().x.to_bits(), rb.translation().y.to_bits()),
        angle: Scalar { bits: rb.rotation().angle().to_bits() },
        velocity: point(rb.linvel().x.to_bits(), rb.linvel().y.to_bits()),
        spin: Scalar { bits: rb.angvel().to_bits() },
        dynamic: rb.is_dynamic(),
    })
}

/// `RigidBody::kinetic_energy` of a live body.
#[verifier::external_body]
pub(crate) fn kinetic_energy(bodies: &RigidBodySet, handle: BodyHandle) -> (energy: Option<Scalar>)
    ensures
        energy == (if body_map(*bodies).contains_key(handle) {
            Some(body_energy(*bodies, handle))
        } else {
            None
        }),
{
    let handle = RigidBodyHandle::from_raw_parts(handle.index, handle.generation);
    bodies.get(handle).map(|rb| Scalar { bits: rb.kinetic_energy().to_bits() })
}

/// `RigidBody::set_translation` with one coordinate replaced by a whole
/// number and the other kept: the body moves there at its rotation and
/// velocity. The solver writes nothing if it finds the translation the
/// same as a number, so a zero may keep its sign. Nothing but the body set
/// changes, no count moves, and parts that fit together still do.
#[verifier::external_body]
pub(crate) fn set_coordinate(parts: &mut Parts, handle: BodyHandle, axis: usize, value: i16)
    requires
        axis < 2,
    ensures
        moves_coordinate(
            body_map(old(parts).rigid_bodies),
            body_map(final(parts).rigid_bodies),
            handle,
            axis,
            value,
        ),
        final(parts).counts() == old(parts).counts(),
        *final(parts) == old(parts).with_bodies(final(parts).rigid_bodies),
        old(parts).in_order() ==> final(parts).in_order(),
    no_unwind
{
    let handle = RigidBodyHandle::from_raw_parts(handle.index, handle.generation);
    if let Some(rb) = parts.rigid_bodies.get_mut(handle) {
        let mut translation = *rb.translation();
        translation[axis] = value.into();
        rb.set_translation(translation, true);
    }
}

/// `RigidBody::set_linvel`. The solver writes the velocity to a dynamic
/// body, unless it finds it the same as a number, so that a zero may keep
/// its sign; a body that is fixed keeps its own. Nothing but the body set
/// changes, no count moves, and parts that fit together still do.
#[verifier::external_body]
pub(crate) fn set_linear_velocity(parts: &mut Parts, handle: BodyHandle, velocity: Point)
    ensures
        changes_velocity(
            body_map(old(parts).rigid_bodies),
            body_map(final(parts).rigid_bodies),
            handle,
            velocity,
        ),
        final(parts).counts() == old(parts).counts(),
        *final(parts) == old(parts).with_bodies(final(parts).rigid_bodies),
        old(parts).in_order() ==> final(parts).in_order(),
    no_unwind
{
    let handle = RigidBodyHandle::from_raw_parts(handle.index, handle.generation);
    if let Some(rb) = parts.rigid_bodies.get_mut(handle) {
        rb.set_linvel(Vector2::new(Real::from_bits(velocity.x.bits), Real::from_bits(velocity.y.bits)), true);
    }
}

/// `RigidBody::set_angvel`. The solver writes the angular velocity to a
/// dynamic body, unless it finds it the same as a number, so that a zero
/// may keep its sign; a body that is fixed keeps its own. Nothing but the
/// body set changes, no count moves, and parts that fit together still
/// do.
#[verifier::external_body]
pub(crate) fn set_angular_velocity(parts: &mut Parts, handle: BodyHandle, spin: Scalar)
    ensures
        changes_spin(body_map(old(parts).rigid_bodies), body_map(final(parts).rigid_bodies), handle, spin),
        final(parts).counts() == old(parts).counts(),
        *final(parts) == old(parts).with_bodies(final(parts).rigid_bodies),
        old(parts).in_order() ==> final(parts).in_order(),
    no_unwind
{
    let handle = RigidBodyHandle::from_raw_parts(handle.index, handle.generation);
    if let Some(rb) = parts.rigid_bodies.get_mut(handle) {
        rb.set_angvel(Real::from_bits(spin.bits), true);
    }
}

/// `PhysicsPipeline::step` under the given gravity, without hooks or event
/// handler, on parts that fit together, the island manager of which can
/// count one more step. Bodies move as the solver moves them; none is
/// added or removed, and none changes its user data. No collider is added
/// or removed, or changes its kind, shape or parent. The generations of
/// the two sets stay, one more step is counted, and the parts still fit
/// together.
#[verifier::external_body]
pub(crate) fn step(parts: &mut Parts, gravity: Point)
    requires
        old(parts).in_order(),
        old(parts).can_step(),
    ensures
        body_map(final(parts).rigid_bodies) == stepped_bodies(
            gravity,
            old(parts).physics_pipeline,
            old(parts).integration_parameters,
            old(parts).island_manager,
            old(parts).broad_phase,
            old(parts).narrow_phase,
            old(parts).rigid_bodies,
            old(parts).colliders,
            old(parts).impulse_joint_set,
            old(parts).multibody_joint_set,
            old(parts).ccd_solver,
        ),
        body_map(final(parts).rigid_bodies).dom() == body_map(old(parts).rigid_bodies).dom(),
        forall|h: BodyHandle|
            body_map(old(parts).rigid_bodies).contains_key(h) ==> (#[trigger] body_map(
                final(parts).rigid_bodies,
            )[h]).owner == body_map(old(parts).rigid_bodies)[h].owner,
        collider_map(final(parts).colliders) == collider_map(old(parts).colliders),
        next_generation(final(parts).rigid_bodies) == next_generation(old(parts).rigid_bodies),
        next_collider_generation(final(parts).colliders) == next_collider_generation(old(parts).colliders),
        steps_counted(final(parts).island_manager) == steps_counted(old(parts).island_manager) + 1,
        final(parts).in_order(),
    no_unwind
{
    let gravity = Vector2::new(Real::from_bits(gravity.x.bits), Real::from_bits(gravity.y.bits));
    parts.physics_pipeline.step(
        &gravity, &parts.integration_parameters, &mut parts.island_manager, &mut parts.broad_phase,
        &mut parts.narrow_phase, &mut parts.rigid_bodies, &mut parts.colliders,
        &mut parts.impulse_joint_set, &mut parts.multibody_joint_set, &mut parts.ccd_solver,
        Some(&mut parts.query_pipeline), &(), &(),
    );
}

/// `RigidBody::colliders`: the colliders that a body lists, none for a
/// handle that names no live body.
#[verifier::external_body]
pub(crate) fn attached_colliders(bodies: &RigidBodySet, handle: BodyHandle) -> (list: Vec<ColliderId>)
    ensures
        list@ == listed_colliders(*bodies, handle),
{
    let handle = RigidBodyHandle::from_raw_parts(handle.index, handle.generation);
    match bodies.get(handle) {
        Some(rb) => rb.colliders().iter().map(|c| collider_id(c.into_raw_parts())).collect(),
        None => Vec::new(),
    }
}

/// What this crate reads of a collider: `Collider::is_sensor`,
/// `Collider::parent`, `Collider::active_events`, `Collider::density`, and
/// of `Collider::shape` whether it is a ball, and of what radius, or a
/// convex polygon.
#[verifier::external_body]
pub(crate) fn read_kind(collider: &Collider) -> (kind: ColliderKind)
    ensures
        kind == kind_of(*collider),
{
    let shape = match (collider.shape().as_ball(), collider.shape().as_convex_polygon()) {
        (Some(ball), _) => ShapeKind::Ball { radius: Scalar { bits: ball.radius.to_bits() } },
        (_, Some(_)) => ShapeKind::Polygon,
        _ => ShapeKind::Other,
    };
    let parent = collider.parent().map(|p| body_handle(p.into_raw_parts()));
    let density = Scalar { bits: collider.density().to_bits() };
    ColliderKind { sensor: collider.is_sensor(), parent, shape, events: collider.active_events().bits(), density }
}

/// `ColliderSet::get`: what `collider_map` holds for the name, and nothing
/// for a name that names no live collider.
#[verifier::external_body]
pub(crate) fn collider_kind(colliders: &ColliderSet, id: ColliderId) -> (kind: Option<ColliderKind>)
    ensures
        kind == (if collider_map(*colliders).contains_key(id) {
            Some(collider_map(*colliders)[id])
        } else {
            None
        }),
{
    let handle = ColliderHandle::from_raw_parts(id.index, id.generation);
    colliders.get(handle).map(|c| read_kind(c))
}

/// `QueryPipeline::intersections_with_shape` for the shape of the collider
/// `sensor` at the pose of `body`, with that collider and that body left
/// out and the colliders that `flags` exclude: the colliders that it
/// reports, in the order in which it reports them. Each is live, and is
/// neither that collider nor on that body.
#[verifier::external_body]
pub(crate) fn sensor_overlaps(
    query: &QueryPipeline,
    bodies: &RigidBodySet,
    colliders: &ColliderSet,
    body: BodyHandle,
    sensor: ColliderId,
    flags: u32,
) -> (hits: Vec<ColliderId>)
    ensures
        hits@ == reported_overlaps(*query, *bodies, *colliders, body, sensor, flags),
        forall|k: int|
            0 <= k < hits@.len() ==> collider_map(*colliders).contains_key(#[trigger] hits@[k]) && hits@[k]
                != sensor && collider_map(*colliders)[hits@[k]].parent != Some(body),
{
    let mut found = Vec::new();
    let body = RigidBodyHandle::from_raw_parts(body.index, body.generation);
    let sensor = ColliderHandle::from_raw_parts(sensor.index, sensor.generation);
    if let (Some(rb), Some(co)) = (bodies.get(body), colliders.get(sensor)) {
        let filter = QueryFilter::from(QueryFilterFlags::from_bits_truncate(flags))
            .exclude_collider(sensor)
            .exclude_rigid_body(body);
        query.intersections_with_shape(bodies, colliders, rb.position(), co.shape(), filter, |c| {
            note_overlap(&mut found, c.into_raw_parts())
        });
    }
    found
}

/// The distance between the centres of two live bodies, from
/// `glam::Vec2::distance`.
#[verifier::external_body]
pub(crate) fn center_distance(bodies: &RigidBodySet, a: BodyHandle, b: BodyHandle) -> (distance: Option<Scalar>)
    ensures
        distance == (if body_map(*bodies).contains_key(a) && body_map(*bodies).contains_key(b) {
            Some(distance_between(body_map(*bodies)[a].position, body_map(*bodies)[b].position))
        } else {
            None
        }),
{
    let from = bodies.get(RigidBodyHandle::from_raw_parts(a.index, a.generation))?;
    let to = bodies.get(RigidBodyHandle::from_raw_parts(b.index, b.generation))?;
    let p = glam::Vec2::new(from.translation().x, from.translation().y);
    let q = glam::Vec2::new(to.translation().x, to.translation().y);
    Some(Scalar { bits: p.distance(q).to_bits() })
}

/// The point with the given encodings for coordinates.
pub fn point(x: u32, y: u32) -> (p: Point)
    ensures
        p.x.bits == x,
        p.y.bits == y,
{
    Point { x: Scalar { bits: x }, y: Scalar { bits: y } }
}

/// The body handle with the given parts.
pub fn body_handle(parts: (u32, u32)) -> (handle: BodyHandle)
    ensures
        handle.index == parts.0,
        handle.generation == parts.1,
{
    BodyHandle { index: parts.0, generation: parts.1 }
}

/// The collider name with the given parts.
pub fn collider_id(parts: (u32, u32)) -> (id: ColliderId)
    ensures
        id.index == parts.0,
        id.generation == parts.1,
{
    ColliderId { index: parts.0, generation: parts.1 }
}

/// Appends the collider with the given parts to `found` and asks for the
/// next one.
pub fn note_overlap(found: &mut Vec<ColliderId>, parts: (u32, u32)) -> (more: bool)
    ensures
        more,
        final(found)@ == old(found)@.push(ColliderId { index: parts.0, generation: parts.1 }),
{
    found.push(collider_id(parts));
    true
}

} // verus!
