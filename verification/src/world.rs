//! The physics world: the one owner of the solver's state.
use crate::outline::{convex_outline, is_convex_outline};
use crate::scalar::Scalar;
use crate::sensing::{nearest_of, select_nearest, Detected};
use crate::solver::{
    attach_collider, attached_colliders, ball_collider, body_count, body_energy, body_map, carried_by,
    center_distance, changes_spin, changes_velocity, collider_count, collider_kind, collider_map,
    counts_removal, distance_between, fresh_parts, holds_exactly, insert_dynamic_body, kind_of,
    kinetic_energy, listed_colliders, loose_ball, loose_polygon, moves_coordinate, next_collider_generation,
    next_generation, no_bodies, no_colliders, polygon_collider, polyline_accepted, read_body, remove_body,
    reported_overlaps, sensor_overlaps, set_angular_velocity, set_coordinate, set_linear_velocity, step,
    without_listed, COLLISION_EVENTS, UNIT_DENSITY, BodyHandle, BodyState, ColliderId, ColliderKind, GridPoint, Parts, Point,
};
use rapier2d::geometry::Collider;
use vstd::prelude::*;

verus! {

/// Why a body was not created.
#[derive(Clone, Copy, Debug, PartialEq, Eq, Structural)]
pub enum WorldError {
    /// A ball must have a positive radius.
    InvalidRadius,
    /// A polygon needs the corners of a convex outline, counter-clockwise,
    /// that the solver takes for one.
    InvalidPolygon,
}

/// The pose and energy of a body, as the solver has them.
#[derive(Clone, Copy, Debug, PartialEq, Eq, Structural)]
pub struct PhysicsData {
    pub position: Point,
    /// The angle of the body's rotation, in radians, from `-pi` to `pi`.
    pub rotation: Scalar,
    pub kin_eng: Option<Scalar>,
}

/// The rigid bodies, their colliders and the solver that moves them.
///
/// The world keeps count of what the solver counts in 32 bits: the bodies
/// and the colliders that were removed, and the steps. At the end of a
/// count it steps and removes no more.
pub struct World {
    parts: Parts,
    bodies_gone: u32,
    colliders_gone: u32,
    steps: u32,
}

impl View for World {
    type V = Map<BodyHandle, BodyState>;

    /// The live bodies, by handle.
    closed spec fn view(&self) -> Map<BodyHandle, BodyState> {
        body_map(self.parts.rigid_bodies)
    }
}

/// A handle whose body was removed names nothing, and the removal touches
/// no other body.
pub proof fn lemma_removed_handle_names_nothing(bodies: Map<BodyHandle, BodyState>, handle: BodyHandle)
    ensures
        !bodies.remove(handle).contains_key(handle),
        bodies.remove(handle).remove(handle) == bodies.remove(handle),
        forall|other: BodyHandle|
            other != handle ==> bodies.remove(handle).contains_key(other) == bodies.contains_key(other),
        forall|other: BodyHandle|
            other != handle && bodies.contains_key(other) ==> #[trigger] bodies.remove(handle)[other]
                == bodies[other],
{
}

/// The colliders that a sensing takes no account of: those of fixed
/// bodies, of kinematic bodies and of no body, and the sensors. The three
/// are the second, the third and the fifth bit of the solver's flags.
pub const SENSING_FILTER: u32 = 22;

/// Whether `after` is `before` with one more collider: `kind`, on the body
/// `parent`, under a name that named nothing before, and `listed`, the
/// list of `parent`, is just that name.
pub open spec fn gains_collider(
    before: Map<ColliderId, ColliderKind>,
    after: Map<ColliderId, ColliderKind>,
    parent: BodyHandle,
    kind: ColliderKind,
    listed: Seq<ColliderId>,
) -> bool {
    &&& listed.len() == 1
    &&& !before.contains_key(listed[0])
    &&& after == before.insert(listed[0], carried_by(kind, parent))
}

/// Whether `after` is `before` with a solid ball of `radius` on the body
/// `parent` and, if `detection_range` is given, a sensor ball of that
/// radius on it too, each under a name that named nothing before, and
/// `listed`, the list of `parent`, is just these names in this order.
pub open spec fn gains_balls(
    before: Map<ColliderId, ColliderKind>,
    after: Map<ColliderId, ColliderKind>,
    parent: BodyHandle,
    radius: Scalar,
    detection_range: Option<Scalar>,
    listed: Seq<ColliderId>,
) -> bool {
    match detection_range {
        Some(range) => {
            &&& listed.len() == 2
            &&& listed[0] != listed[1]
            &&& !before.contains_key(listed[0])
            &&& !before.contains_key(listed[1])
            &&& after == before.insert(listed[0], carried_by(loose_ball(radius, false), parent)).insert(
                listed[1],
                carried_by(loose_ball(range, true), parent),
            )
        },
        None => gains_collider(before, after, parent, loose_ball(radius, false), listed),
    }
}

/// Whether every handle that is spent in `before` is spent in `after`.
pub open spec fn keeps_spent(before: World, after: World) -> bool {
    forall|h: BodyHandle| #[trigger] before.is_spent(h) ==> after.is_spent(h)
}

/// Whether `after` is as orderly as `before`, no spent handle has come
/// back, and the generation has not fallen.
pub open spec fn stays_orderly(before: World, after: World) -> bool {
    &&& before.orderly() ==> after.orderly()
    &&& keeps_spent(before, after)
    &&& before.generation() <= after.generation()
}

/// A world stays orderly, and its spent handles stay spent, if its
/// generation does not fall and each body that has come bears the
/// generation at which it came.
proof fn lemma_stays_orderly(before: World, after: World)
    requires
        before.generation() <= after.generation(),
        forall|h: BodyHandle| #[trigger]
            after.is_live(h) ==> before.is_live(h) || h.generation == before.generation(),
    ensures
        stays_orderly(before, after),
{
    if before.orderly() {
        assert forall|h: BodyHandle| #[trigger] after.is_live(h) implies h.generation
            <= after.generation() by {
            if before.is_live(h) {
            }
        }
    }
    assert forall|h: BodyHandle| #[trigger] before.is_spent(h) implies after.is_spent(h) by {
        if after.is_live(h) {
        }
        assert forall|other: BodyHandle| #[trigger] after.is_live(other) implies other.generation
            <= after.generation() by {
            if before.is_live(other) {
            }
        }
    }
}

/// What stays orderly over one change stays orderly over the next.
pub proof fn lemma_stays_orderly_in_turn(first: World, second: World, third: World)
    requires
        stays_orderly(first, second),
        stays_orderly(second, third),
    ensures
        stays_orderly(first, third),
{
    assert forall|h: BodyHandle| #[trigger] first.is_spent(h) implies third.is_spent(h) by {
        assert(second.is_spent(h));
    }
}

/// A spent handle names no body again: in every world that stays orderly
/// after the one in which it was spent, nothing lives under it, and
/// nothing is sensed for it.
pub proof fn lemma_spent_handle_names_nothing(before: World, after: World, handle: BodyHandle)
    requires
        before.is_spent(handle),
        stays_orderly(before, after),
    ensures
        after.is_spent(handle),
        !after.is_live(handle),
        after.sensed(handle).len() == 0,
        after.spec_detection(handle) is None,
{
    after.lemma_sensed_are_candidates(handle);
}

impl World {
    /// Whether `handle` names a live body.
    pub open spec fn is_live(&self, handle: BodyHandle) -> bool {
        self@.contains_key(handle)
    }

    /// The generation of the next body: the number of bodies that were
    /// removed so far, as long as the solver can count them. A new body
    /// bears it in its handle.
    pub closed spec fn generation(&self) -> u32 {
        next_generation(self.parts.rigid_bodies)
    }

    /// Whether no live body is of a generation that is still to come.
    pub open spec fn orderly(&self) -> bool {
        forall|h: BodyHandle| #[trigger] self.is_live(h) ==> h.generation <= self.generation()
    }

    /// Whether `handle` is spent: it names no body, and its generation is
    /// past, so that no body to come will bear its name.
    pub open spec fn is_spent(&self, handle: BodyHandle) -> bool {
        &&& !self.is_live(handle)
        &&& handle.generation < self.generation()
        &&& self.orderly()
    }

    /// The live colliders, by name.
    pub closed spec fn collider_kinds(&self) -> Map<ColliderId, ColliderKind> {
        collider_map(self.parts.colliders)
    }

    /// The colliders that the body `handle` lists, in the order in which
    /// they were attached.
    pub closed spec fn listed(&self, handle: BodyHandle) -> Seq<ColliderId> {
        listed_colliders(self.parts.rigid_bodies, handle)
    }

    /// The kinetic energy of the body `handle`.
    pub closed spec fn energy(&self, handle: BodyHandle) -> Scalar {
        body_energy(self.parts.rigid_bodies, handle)
    }

    /// The colliders that the solver reports to overlap the collider
    /// `sensor` at the pose of the body `handle`, in its order: none of
    /// `handle` itself, and none that a sensing takes no account of.
    pub closed spec fn reports(&self, handle: BodyHandle, sensor: ColliderId) -> Seq<ColliderId> {
        reported_overlaps(self.parts.query_pipeline, self.parts.rigid_bodies, self.parts.colliders, handle, sensor, SENSING_FILTER)
    }

    /// Whether the solver can count one more step.
    pub closed spec fn can_step(&self) -> bool {
        self.steps < u32::MAX
    }

    /// Whether the solver can count the removal of every body and every
    /// collider that the world holds.
    pub closed spec fn can_count(&self) -> bool {
        &&& self@.dom().finite()
        &&& self.collider_kinds().dom().finite()
        &&& self.bodies_gone + self@.dom().len() <= u32::MAX
        &&& self.colliders_gone + self.collider_kinds().dom().len() <= u32::MAX
    }

    /// The bodies after one step of the solver, without gravity; the
    /// bodies as they are, where the solver can count no more steps.
    pub closed spec fn after_step(&self) -> Map<BodyHandle, BodyState> {
        if self.can_step() {
            self.parts.stepped(Point::spec_origin())
        } else {
            self@
        }
    }

    /// The parts of the solver fit together, and the solver has counted no
    /// further than the world.
    #[verifier::type_invariant]
    spec fn sound(&self) -> bool {
        &&& self.parts.in_order()
        &&& next_generation(self.parts.rigid_bodies) <= self.bodies_gone
        &&& next_collider_generation(self.parts.colliders) <= self.colliders_gone
        &&& crate::solver::steps_counted(self.parts.island_manager) <= self.steps
    }

    /// Whether `collider` is a live sensor on the body `handle`.
    pub open spec fn is_sensor_of(&self, handle: BodyHandle, collider: ColliderId) -> bool {
        self.collider_kinds().contains_key(collider) && self.collider_kinds()[collider].sensor
            && self.collider_kinds()[collider].parent == Some(handle)
    }

    /// What the solver reports for each of `listed` that is a sensor of the
    /// body `handle`, one report after the other.
    pub open spec fn reports_of(&self, handle: BodyHandle, listed: Seq<ColliderId>) -> Seq<ColliderId>
        decreases listed.len(),
    {
        if listed.len() == 0 {
            Seq::empty()
        } else if self.is_sensor_of(handle, listed.last()) {
            self.reports_of(handle, listed.drop_last()) + self.reports(handle, listed.last())
        } else {
            self.reports_of(handle, listed.drop_last())
        }
    }

    /// What the body `handle` senses: the candidates that the reports for
    /// its sensors stand for, in the order of its list and of each report;
    /// nothing for a handle that names no live body.
    pub open spec fn sensed(&self, handle: BodyHandle) -> Seq<Detected> {
        if self.is_live(handle) {
            self.candidates_among(handle, self.reports_of(handle, self.listed(handle)))
        } else {
            Seq::empty()
        }
    }

    /// The nearest of what the body `handle` senses.
    pub open spec fn spec_detection(&self, handle: BodyHandle) -> Option<Detected> {
        nearest_of(self.sensed(handle))
    }

    /// The nearest body that the body `handle` senses.
    pub open spec fn spec_closest(&self, handle: BodyHandle) -> Option<BodyHandle> {
        match self.spec_detection(handle) {
            Some(found) => Some(found.target_handle),
            None => None,
        }
    }

    /// Whether the body `handle` carries a collider that is a sensor, or
    /// one that is solid.
    pub open spec fn carries(&self, handle: BodyHandle, sensor: bool) -> bool {
        exists|id: ColliderId|
            self.collider_kinds().contains_key(id) && #[trigger] self.collider_kinds()[id].parent == Some(
                handle,
            ) && self.collider_kinds()[id].sensor == sensor
    }

    /// Whether `found` is a body other than `handle`, live as `handle` is,
    /// that carries a solid collider, as `handle` carries a sensor, with
    /// the distance between the two centres.
    pub open spec fn is_candidate(&self, handle: BodyHandle, found: Detected) -> bool {
        &&& found.target_handle != handle
        &&& self.is_live(handle)
        &&& self.is_live(found.target_handle)
        &&& self.carries(handle, true)
        &&& self.carries(found.target_handle, false)
        &&& found.dist == distance_between(
            self@[handle].position,
            self@[found.target_handle].position,
        )
    }

    /// The candidate that the collider `hit` stands for, when the body
    /// `handle` senses it: the body that carries `hit`, with the distance
    /// between the two centres, if `hit` is a live solid collider on a live
    /// dynamic body other than `handle`, and `handle` is live; and none
    /// otherwise.
    pub open spec fn candidate_for(&self, handle: BodyHandle, hit: ColliderId) -> Option<Detected> {
        if self.collider_kinds().contains_key(hit) {
            let kind = self.collider_kinds()[hit];
            match kind.parent {
                Some(target) => if !kind.sensor && target != handle && self.is_live(handle) && self.is_live(
                    target,
                ) && self@[target].dynamic {
                    Some(
                        Detected {
                            target_handle: target,
                            dist: distance_between(self@[handle].position, self@[target].position),
                        },
                    )
                } else {
                    None
                },
                None => None,
            }
        } else {
            None
        }
    }

    /// The candidates that the colliders `hits` stand for, in their order.
    pub open spec fn candidates_among(&self, handle: BodyHandle, hits: Seq<ColliderId>) -> Seq<Detected>
        decreases hits.len(),
    {
        if hits.len() == 0 {
            Seq::empty()
        } else {
            let before = self.candidates_among(handle, hits.drop_last());
            match self.candidate_for(handle, hits.last()) {
                Some(found) => before.push(found),
                None => before,
            }
        }
    }

    /// The candidates among two runs of colliders, one after the other, are
    /// those among the first and then those among the second.
    pub proof fn lemma_candidates_among_both(
        &self,
        handle: BodyHandle,
        first: Seq<ColliderId>,
        second: Seq<ColliderId>,
    )
        ensures
            self.candidates_among(handle, first + second) == self.candidates_among(handle, first)
                + self.candidates_among(handle, second),
        decreases second.len(),
    {
        if second.len() == 0 {
            assert(first + second == first);
        } else {
            assert((first + second).drop_last() == first + second.drop_last());
            assert((first + second).last() == second.last());
            self.lemma_candidates_among_both(handle, first, second.drop_last());
        }
    }

    /// What the colliders stand for are candidates, if the body `handle`
    /// carries a sensor.
    pub proof fn lemma_candidates_among_are_candidates(&self, handle: BodyHandle, hits: Seq<ColliderId>)
        requires
            self.carries(handle, true),
        ensures
            self.are_candidates(handle, self.candidates_among(handle, hits)),
        decreases hits.len(),
    {
        if hits.len() > 0 {
            self.lemma_candidates_among_are_candidates(handle, hits.drop_last());
            match self.candidate_for(handle, hits.last()) {
                Some(found) => {
                    assert(self.collider_kinds()[hits.last()].parent == Some(found.target_handle));
                    assert(self.is_candidate(handle, found));
                },
                None => {},
            }
        }
    }

    /// Where there are reports, there is a sensor.
    pub proof fn lemma_reports_need_a_sensor(&self, handle: BodyHandle, listed: Seq<ColliderId>)
        ensures
            self.reports_of(handle, listed).len() > 0 ==> self.carries(handle, true),
        decreases listed.len(),
    {
        if listed.len() > 0 {
            self.lemma_reports_need_a_sensor(handle, listed.drop_last());
            if self.is_sensor_of(handle, listed.last()) {
                assert(self.collider_kinds()[listed.last()].parent == Some(handle));
            }
        }
    }

    /// What a body senses are candidates: live bodies other than itself
    /// that carry a solid collider, each with its distance. A body that is
    /// not live, or carries no sensor, senses nothing, and what it senses
    /// nearest is one of the candidates.
    pub proof fn lemma_sensed_are_candidates(&self, handle: BodyHandle)
        ensures
            self.are_candidates(handle, self.sensed(handle)),
            !self.is_live(handle) || !self.carries(handle, true) ==> self.sensed(handle).len() == 0,
            !self.is_live(handle) || !self.carries(handle, true) ==> self.spec_detection(handle) is None,
            self.spec_detection(handle) matches Some(found) ==> self.is_candidate(handle, found),
    {
        crate::sensing::lemma_nearest_is_first_minimum(self.sensed(handle));
        if self.is_live(handle) {
            let reports = self.reports_of(handle, self.listed(handle));
            self.lemma_reports_need_a_sensor(handle, self.listed(handle));
            if reports.len() > 0 {
                self.lemma_candidates_among_are_candidates(handle, reports);
            }
        }
    }

    /// Whether the sensor `sensor`, which the body `handle` lists, had the
    /// collider `hit` reported to it, a live solid collider on the body
    /// `target`.
    pub open spec fn was_reported(
        &self,
        handle: BodyHandle,
        sensor: ColliderId,
        hit: ColliderId,
        target: BodyHandle,
    ) -> bool {
        &&& self.listed(handle).contains(sensor)
        &&& self.is_sensor_of(handle, sensor)
        &&& self.reports(handle, sensor).contains(hit)
        &&& self.collider_kinds().contains_key(hit)
        &&& !self.collider_kinds()[hit].sensor
        &&& self.collider_kinds()[hit].parent == Some(target)
    }

    /// Each candidate among colliders is what one of them stands for.
    pub proof fn lemma_candidate_has_its_collider(&self, handle: BodyHandle, hits: Seq<ColliderId>, found: Detected)
        requires
            self.candidates_among(handle, hits).contains(found),
        ensures
            exists|hit: ColliderId| hits.contains(hit) && #[trigger] self.candidate_for(handle, hit) == Some(found),
        decreases hits.len(),
    {
        if hits.len() > 0 {
            let before = self.candidates_among(handle, hits.drop_last());
            let i = choose|i: int|
                0 <= i < self.candidates_among(handle, hits).len() && self.candidates_among(handle, hits)[i]
                    == found;
            if i < before.len() {
                assert(before[i] == found);
                self.lemma_candidate_has_its_collider(handle, hits.drop_last(), found);
                let hit = choose|hit: ColliderId|
                    hits.drop_last().contains(hit) && #[trigger] self.candidate_for(handle, hit) == Some(found);
                let k = choose|k: int| 0 <= k < hits.drop_last().len() && hits.drop_last()[k] == hit;
                assert(hits[k] == hit);
            } else {
                assert(hits[hits.len() - 1] == hits.last());
                assert(self.candidate_for(handle, hits.last()) == Some(found));
            }
        }
    }

    /// Each collider among the reports was reported to a sensor of the
    /// body that is among those listed.
    pub proof fn lemma_report_has_its_sensor(&self, handle: BodyHandle, listed: Seq<ColliderId>, hit: ColliderId)
        requires
            self.reports_of(handle, listed).contains(hit),
        ensures
            exists|sensor: ColliderId|
                listed.contains(sensor) && self.is_sensor_of(handle, sensor) && #[trigger] self.reports(
                    handle,
                    sensor,
                ).contains(hit),
        decreases listed.len(),
    {
        if listed.len() > 0 {
            let before = self.reports_of(handle, listed.drop_last());
            let all = self.reports_of(handle, listed);
            let i = choose|i: int| 0 <= i < all.len() && all[i] == hit;
            if i < before.len() {
                assert(before[i] == hit);
                self.lemma_report_has_its_sensor(handle, listed.drop_last(), hit);
                let sensor = choose|sensor: ColliderId|
                    listed.drop_last().contains(sensor) && self.is_sensor_of(handle, sensor)
                        && #[trigger] self.reports(handle, sensor).contains(hit);
                let k = choose|k: int| 0 <= k < listed.drop_last().len() && listed.drop_last()[k] == sensor;
                assert(listed[k] == sensor);
                assert(listed.contains(sensor) && self.is_sensor_of(handle, sensor) && self.reports(
                    handle,
                    sensor,
                ).contains(hit));
            } else {
                let sensor = listed.last();
                assert(self.is_sensor_of(handle, sensor));
                assert(all == before + self.reports(handle, sensor));
                assert(self.reports(handle, sensor)[i - before.len()] == hit);
                assert(listed[listed.len() - 1] == sensor);
                assert(listed.contains(sensor) && self.is_sensor_of(handle, sensor) && self.reports(
                    handle,
                    sensor,
                ).contains(hit));
            }
        }
    }

    /// What a body senses nearest, the solver reported: one of the body's
    /// own sensors overlaps a solid collider of the target.
    pub proof fn lemma_detection_was_reported(&self, handle: BodyHandle)
        ensures
            self.spec_detection(handle) matches Some(found) ==> exists|sensor: ColliderId, hit: ColliderId|
                #[trigger] self.was_reported(handle, sensor, hit, found.target_handle),
    {
        crate::sensing::lemma_nearest_is_first_minimum(self.sensed(handle));
        match self.spec_detection(handle) {
            Some(found) => {
                let reports = self.reports_of(handle, self.listed(handle));
                let i = choose|i: int| 0 <= i < self.sensed(handle).len() && self.sensed(handle)[i] == found;
                assert(self.sensed(handle).contains(found));
                self.lemma_candidate_has_its_collider(handle, reports, found);
                let hit = choose|hit: ColliderId|
                    reports.contains(hit) && #[trigger] self.candidate_for(handle, hit) == Some(found);
                self.lemma_report_has_its_sensor(handle, self.listed(handle), hit);
                let sensor = choose|sensor: ColliderId|
                    self.listed(handle).contains(sensor) && self.is_sensor_of(handle, sensor)
                        && #[trigger] self.reports(handle, sensor).contains(hit);
                assert(self.was_reported(handle, sensor, hit, found.target_handle));
            },
            None => {},
        }
    }

    /// Whether each of `found` is a candidate for `handle`.
    pub open spec fn are_candidates(&self, handle: BodyHandle, found: Seq<Detected>) -> bool {
        forall|k: int| 0 <= k < found.len() ==> self.is_candidate(handle, #[trigger] found[k])
    }

    /// A world without bodies.
    pub fn new() -> (world: World)
        ensures
            world@ == no_bodies(),
            world.collider_kinds() == no_colliders(),
            world.orderly(),
            world.generation() == 0,
            world.can_count(),
            world.can_step(),
    {
        World { parts: fresh_parts(), bodies_gone: 0, colliders_gone: 0, steps: 0 }
    }

    /// Creates a dynamic body at `position` for the entity `key`, with a
    /// solid ball of `radius` and, if `detection_range` is given, a sensor
    /// ball of that radius on the same body, and nothing else. It fails
    /// for a radius that is no positive number, and only then; a failure
    /// leaves the world as it was.
    pub fn add_circle_body(
        &mut self,
        key: u64,
        position: &Point,
        radius: Scalar,
        detection_range: Option<Scalar>,
    ) -> (r: Result<BodyHandle, WorldError>)
        ensures
            r is Ok <==> radius.spec_gt(Scalar::of_int(0)),
            match r {
                Ok(handle) => !old(self).is_live(handle) && final(self)@ == old(self)@.insert(
                    handle,
                    BodyState::at_rest(key, *position),
                ) && gains_balls(
                    old(self).collider_kinds(),
                    final(self).collider_kinds(),
                    handle,
                    radius,
                    detection_range,
                    final(self).listed(handle),
                ),
                Err(e) => e == WorldError::InvalidRadius && *final(self) == *old(self),
            },
            stays_orderly(*old(self), *final(self)),
            final(self).generation() == old(self).generation(),
            r matches Ok(handle) ==> handle.generation == old(self).generation(),
    {
        if !radius.gt(Scalar::from_i16(0)) {
            return Err(WorldError::InvalidRadius);
        }
        proof {
            use_type_invariant(&*self);
        }
        let handle = insert_dynamic_body(&mut self.parts, key, *position, Point::origin(), true);
        let solid = attach_collider(&mut self.parts, handle, ball_collider(radius, false, COLLISION_EVENTS, Scalar::from_bits(UNIT_DENSITY)));
        assert(self.listed(handle) =~= seq![solid]);
        match detection_range {
            Some(range) => {
                let ring = attach_collider(&mut self.parts, handle, ball_collider(range, true, COLLISION_EVENTS, Scalar::from_bits(UNIT_DENSITY)));
                assert(self.listed(handle) =~= seq![solid, ring]);
            },
            None => {},
        }
        proof {
            lemma_stays_orderly(*old(self), *self);
        }
        Ok(handle)
    }

    /// Creates a dynamic body that never sleeps at `position` for the
    /// entity `key`, with the convex polygon `points` as its solid shape,
    /// and sets it adrift at the velocity `drift`. It fails for points that
    /// are not the corners of a convex outline, counter-clockwise, and for
    /// an outline that the solver refuses, and only then; a failure leaves
    /// the world as it was.
    pub fn add_poly_body(
        &mut self,
        key: u64,
        position: &Point,
        points: &Vec<GridPoint>,
        drift: Point,
    ) -> (r: Result<BodyHandle, WorldError>)
        ensures
            r is Ok <==> convex_outline(points@) && polyline_accepted(points@),
            match r {
                Ok(handle) => !old(self).is_live(handle) && final(self)@ == old(self)@.insert(
                    handle,
                    BodyState::adrift(key, *position, drift),
                ) && gains_collider(
                    old(self).collider_kinds(),
                    final(self).collider_kinds(),
                    handle,
                    loose_polygon(),
                    final(self).listed(handle),
                ),
                Err(e) => e == WorldError::InvalidPolygon && *final(self) == *old(self),
            },
            stays_orderly(*old(self), *final(self)),
            final(self).generation() == old(self).generation(),
            r matches Ok(handle) ==> handle.generation == old(self).generation(),
    {
        if !is_convex_outline(points) {
            return Err(WorldError::InvalidPolygon);
        }
        let shape = polygon_collider(points, COLLISION_EVENTS, Scalar::from_bits(UNIT_DENSITY));
        self.add_shaped_body(key, position, shape, drift)
    }

    /// Creates a dynamic body that never sleeps at `position` for the
    /// entity `key`, with `shape` as its solid collider, and sets it adrift
    /// at the velocity `drift`. Without a shape it fails and leaves the
    /// world as it was.
    pub fn add_shaped_body(
        &mut self,
        key: u64,
        position: &Point,
        shape: Option<Collider>,
        drift: Point,
    ) -> (r: Result<BodyHandle, WorldError>)
        ensures
            r is Ok <==> shape is Some,
            match r {
                Ok(handle) => !old(self).is_live(handle) && final(self)@ == old(self)@.insert(
                    handle,
                    BodyState::adrift(key, *position, drift),
                ) && gains_collider(
                    old(self).collider_kinds(),
                    final(self).collider_kinds(),
                    handle,
                    kind_of(shape->0),
                    final(self).listed(handle),
                ),
                Err(e) => e == WorldError::InvalidPolygon && *final(self) == *old(self),
            },
            stays_orderly(*old(self), *final(self)),
            final(self).generation() == old(self).generation(),
            r matches Ok(handle) ==> handle.generation == old(self).generation(),
    {
        match shape {
            Some(collider) => {
                proof {
                    use_type_invariant(&*self);
                }
                let handle = insert_dynamic_body(&mut self.parts, key, *position, drift, false);
                let id = attach_collider(&mut self.parts, handle, collider);
                assert(self.listed(handle) =~= seq![id]);
                proof {
                    lemma_stays_orderly(*old(self), *self);
                }
                Ok(handle)
            },
            None => Err(WorldError::InvalidPolygon),
        }
    }

    /// Whether the solver can count the removal of every body and every
    /// collider that the world holds.
    pub fn is_countable(&self) -> (r: bool)
        ensures
            r == self.can_count(),
    {
        proof {
            use_type_invariant(self);
        }
        let bodies = body_count(&self.parts.rigid_bodies);
        let colliders = collider_count(&self.parts.colliders);
        bodies <= 0xffff_ffff && colliders <= 0xffff_ffff && (self.bodies_gone as u64) + (bodies as u64)
            <= 0xffff_ffff && (self.colliders_gone as u64) + (colliders as u64) <= 0xffff_ffff
    }

    /// Removes the body and the colliders that it lists. A handle that
    /// names no live body changes nothing, and nothing changes where the
    /// solver cannot count what leaves. The handle of a body that was
    /// removed is spent, and stays so.
    pub fn remove_physics_object(&mut self, body_handle: BodyHandle)
        ensures
            old(self).can_count() ==> final(self)@ == old(self)@.remove(body_handle),
            old(self).can_count() ==> !final(self).is_live(body_handle),
            old(self).can_count() ==> final(self).collider_kinds() == (if old(self).is_live(body_handle) {
                without_listed(old(self).collider_kinds(), old(self).listed(body_handle))
            } else {
                old(self).collider_kinds()
            }),
            old(self).can_count() ==> counts_removal(
                old(self).generation(),
                final(self).generation(),
                old(self).is_live(body_handle),
            ),
            old(self).can_count() ==> final(self).can_count(),
            old(self).can_count() && old(self).orderly() && old(self).is_live(body_handle)
                ==> final(self).is_spent(body_handle),
            !old(self).can_count() ==> *final(self) == *old(self),
            stays_orderly(*old(self), *final(self)),
            final(self).can_step() == old(self).can_step(),
    {
        if self.is_countable() {
            proof {
                use_type_invariant(&*self);
            }
            let live = read_body(&self.parts.rigid_bodies, body_handle).is_some();
            let before = collider_count(&self.parts.colliders);
            let gone = self.colliders_gone;
            if live {
                self.bodies_gone = self.bodies_gone + 1;
            }
            self.colliders_gone = gone + (before as u32);
            let _ = remove_body(&mut self.parts, body_handle);
            proof {
                vstd::set_lib::lemma_len_subset(self.collider_kinds().dom(), old(self).collider_kinds().dom());
            }
            let after = collider_count(&self.parts.colliders);
            self.colliders_gone = gone + ((before - after) as u32);
            proof {
                lemma_stays_orderly(*old(self), *self);
                if old(self).orderly() && old(self).is_live(body_handle) {
                    assert(self.is_spent(body_handle));
                }
            }
        } else {
            proof {
                lemma_stays_orderly(*old(self), *self);
            }
        }
    }

    /// The number of live bodies.
    pub fn get_physics_obj_num(&self) -> (count: usize)
        ensures
            holds_exactly(self@, count),
    {
        body_count(&self.parts.rigid_bodies)
    }

    /// Whether the solver can count one more step.
    pub fn is_steppable(&self) -> (r: bool)
        ensures
            r == self.can_step(),
    {
        proof {
            use_type_invariant(self);
        }
        self.steps < 0xffff_ffff
    }

    /// Advances the solver by one tick, without gravity. The bodies are
    /// what the solver makes of them; the same handles stay live, each for
    /// the same entity, and the colliders stay as they are. Where the
    /// solver can count no more steps, nothing changes.
    pub fn step_physics(&mut self)
        ensures
            final(self)@ == old(self).after_step(),
            final(self)@.dom() == old(self)@.dom(),
            forall|h: BodyHandle|
                old(self).is_live(h) ==> (#[trigger] final(self)@[h]).owner == old(self)@[h].owner,
            final(self).collider_kinds() == old(self).collider_kinds(),
            stays_orderly(*old(self), *final(self)),
            final(self).generation() == old(self).generation(),
            final(self).can_count() == old(self).can_count(),
            !old(self).can_step() ==> *final(self) == *old(self),
    {
        if self.is_steppable() {
            proof {
                use_type_invariant(&*self);
            }
            self.steps = self.steps + 1;
            step(&mut self.parts, Point::origin());
        }
        proof {
            lemma_stays_orderly(*old(self), *self);
        }
    }

    /// The pose and kinetic energy of a live body; nothing for a handle
    /// that names none.
    pub fn get_physics_data(&self, handle: BodyHandle) -> (data: Option<PhysicsData>)
        ensures
            data is Some <==> self.is_live(handle),
            data matches Some(d) ==> d.position == self@[handle].position && d.rotation
                == self@[handle].angle && d.kin_eng == Some(self.energy(handle)),
    {
        match read_body(&self.parts.rigid_bodies, handle) {
            Some(state) => Some(
                PhysicsData {
                    position: state.position,
                    rotation: state.angle,
                    kin_eng: kinetic_energy(&self.parts.rigid_bodies, handle),
                },
            ),
            None => None,
        }
    }

    /// The position of a live body; nothing for a handle that names none.
    pub fn get_object_position(&self, handle: BodyHandle) -> (position: Option<Point>)
        ensures
            position == (if self.is_live(handle) {
                Some(self@[handle].position)
            } else {
                None
            }),
    {
        match read_body(&self.parts.rigid_bodies, handle) {
            Some(state) => Some(state.position),
            None => None,
        }
    }

    /// The linear and the angular velocity of a live body.
    pub fn get_velocity(&self, handle: BodyHandle) -> (velocity: Option<(Point, Scalar)>)
        ensures
            velocity == (if self.is_live(handle) {
                Some((self@[handle].velocity, self@[handle].spin))
            } else {
                None
            }),
    {
        match read_body(&self.parts.rigid_bodies, handle) {
            Some(state) => Some((state.velocity, state.spin)),
            None => None,
        }
    }

    /// The key of the entity that a live body stands for.
    pub fn get_owner_key(&self, handle: BodyHandle) -> (owner: Option<u64>)
        ensures
            owner == (if self.is_live(handle) {
                Some(self@[handle].owner)
            } else {
                None
            }),
    {
        match read_body(&self.parts.rigid_bodies, handle) {
            Some(state) => Some(state.owner),
            None => None,
        }
    }

    /// Moves a live body to the abscissa `x`, at its ordinate, rotation
    /// and velocity.
    pub fn set_body_x(&mut self, handle: BodyHandle, x: i16)
        ensures
            moves_coordinate(old(self)@, final(self)@, handle, 0, x),
            final(self).collider_kinds() == old(self).collider_kinds(),
            stays_orderly(*old(self), *final(self)),
            final(self).generation() == old(self).generation(),
            final(self).can_count() == old(self).can_count(),
            final(self).can_step() == old(self).can_step(),
    {
        proof {
            use_type_invariant(&*self);
        }
        set_coordinate(&mut self.parts, handle, 0, x);
        proof {
            assert(self@.dom() =~= old(self)@.dom());
            lemma_stays_orderly(*old(self), *self);
        }
    }

    /// Moves a live body to the ordinate `y`, at its abscissa, rotation
    /// and velocity.
    pub fn set_body_y(&mut self, handle: BodyHandle, y: i16)
        ensures
            moves_coordinate(old(self)@, final(self)@, handle, 1, y),
            final(self).collider_kinds() == old(self).collider_kinds(),
            stays_orderly(*old(self), *final(self)),
            final(self).generation() == old(self).generation(),
            final(self).can_count() == old(self).can_count(),
            final(self).can_step() == old(self).can_step(),
    {
        proof {
            use_type_invariant(&*self);
        }
        set_coordinate(&mut self.parts, handle, 1, y);
        proof {
            assert(self@.dom() =~= old(self)@.dom());
            lemma_stays_orderly(*old(self), *self);
        }
    }

    /// Writes to a live body the velocity that its entity wants of it
    /// before the solver steps. A dynamic body takes it, at its pose.
    pub fn set_body_linvel(&mut self, handle: BodyHandle, velocity: Point)
        ensures
            changes_velocity(old(self)@, final(self)@, handle, velocity),
            final(self).collider_kinds() == old(self).collider_kinds(),
            stays_orderly(*old(self), *final(self)),
            final(self).generation() == old(self).generation(),
            final(self).can_count() == old(self).can_count(),
            final(self).can_step() == old(self).can_step(),
    {
        proof {
            use_type_invariant(&*self);
        }
        set_linear_velocity(&mut self.parts, handle, velocity);
        proof {
            assert(self@.dom() =~= old(self)@.dom());
            lemma_stays_orderly(*old(self), *self);
        }
    }

    /// Writes to a live body the angular velocity that its entity wants of
    /// it before the solver steps. A dynamic body takes it, at its pose.
    pub fn set_body_angvel(&mut self, handle: BodyHandle, spin: Scalar)
        ensures
            changes_spin(old(self)@, final(self)@, handle, spin),
            final(self).collider_kinds() == old(self).collider_kinds(),
            stays_orderly(*old(self), *final(self)),
            final(self).generation() == old(self).generation(),
            final(self).can_count() == old(self).can_count(),
            final(self).can_step() == old(self).can_step(),
    {
        proof {
            use_type_invariant(&*self);
        }
        set_angular_velocity(&mut self.parts, handle, spin);
        proof {
            assert(self@.dom() =~= old(self)@.dom());
            lemma_stays_orderly(*old(self), *self);
        }
    }

    /// What a live collider is: solid or sensor, on which body, and of
    /// what shape.
    pub fn get_collider_kind(&self, collider_handle: ColliderId) -> (kind: Option<ColliderKind>)
        ensures
            kind == (if self.collider_kinds().contains_key(collider_handle) {
                Some(self.collider_kinds()[collider_handle])
            } else {
                None
            }),
    {
        collider_kind(&self.parts.colliders, collider_handle)
    }

    /// The body that carries the collider, if the collider is live and on
    /// a body.
    pub fn get_body_handle_from_collider(&self, collider_handle: ColliderId) -> (parent: Option<BodyHandle>)
        ensures
            parent == (if self.collider_kinds().contains_key(collider_handle) {
                self.collider_kinds()[collider_handle].parent
            } else {
                None
            }),
    {
        match collider_kind(&self.parts.colliders, collider_handle) {
            Some(kind) => kind.parent,
            None => None,
        }
    }

    /// Takes the parent of the solid collider `hit` for a candidate, unless
    /// it is `handle` itself or no live body: `found` gains what `hit`
    /// stands for, at its end.
    fn consider(&self, handle: BodyHandle, hit: ColliderId, found: &mut Vec<Detected>)
        ensures
            final(found)@ == (match self.candidate_for(handle, hit) {
                Some(candidate) => old(found)@.push(candidate),
                None => old(found)@,
            }),
    {
        match collider_kind(&self.parts.colliders, hit) {
            Some(kind) => match kind.parent {
                Some(target) => {
                    let dynamic = match read_body(&self.parts.rigid_bodies, target) {
                        Some(state) => state.dynamic,
                        None => false,
                    };
                    if !kind.sensor && target != handle && dynamic {
                        match center_distance(&self.parts.rigid_bodies, handle, target) {
                            Some(dist) => {
                                found.push(Detected { target_handle: target, dist });
                            },
                            None => {},
                        }
                    }
                },
                None => {},
            },
            None => {},
        }
    }

    /// Takes what the colliders `hits` stand for, in their order, for
    /// candidates: `found` gains them at its end.
    pub fn take_candidates(&self, handle: BodyHandle, hits: &Vec<ColliderId>, found: &mut Vec<Detected>)
        ensures
            final(found)@ == old(found)@ + self.candidates_among(handle, hits@),
    {
        let mut j: usize = 0;
        while j < hits.len()
            invariant
                j <= hits.len(),
                found@ == old(found)@ + self.candidates_among(handle, hits@.take(j as int)),
            decreases hits.len() - j,
        {
            assert(hits@.take(j + 1).drop_last() == hits@.take(j as int));
            assert(hits@.take(j + 1).last() == hits@[j as int]);
            self.consider(handle, hits[j], found);
            j = j + 1;
        }
        assert(hits@.take(j as int) == hits@);
    }

    /// What the body `handle` senses: the bodies that its sensors overlap,
    /// in the order in which the solver reports them, each with the
    /// distance between the two centres.
    pub fn sensed_candidates(&self, handle: BodyHandle) -> (found: Vec<Detected>)
        ensures
            found@ == self.sensed(handle),
            !self.is_live(handle) || !self.carries(handle, true) ==> found@.len() == 0,
            self.are_candidates(handle, found@),
    {
        let mut found: Vec<Detected> = Vec::new();
        proof {
            self.lemma_sensed_are_candidates(handle);
        }
        if read_body(&self.parts.rigid_bodies, handle).is_none() {
            return found;
        }
        let attached = attached_colliders(&self.parts.rigid_bodies, handle);
        let mut i: usize = 0;
        while i < attached.len()
            invariant
                i <= attached.len(),
                found@ == self.candidates_among(handle, self.reports_of(handle, attached@.take(i as int))),
            decreases attached.len() - i,
        {
            let own = attached[i];
            let sensor = match collider_kind(&self.parts.colliders, own) {
                Some(kind) => kind.sensor && kind.parent == Some(handle),
                None => false,
            };
            proof {
                assert(attached@.take(i + 1).drop_last() == attached@.take(i as int));
                assert(attached@.take(i + 1).last() == own);
                assert(sensor == self.is_sensor_of(handle, own));
            }
            if sensor {
                let hits = sensor_overlaps(
                    &self.parts.query_pipeline,
                    &self.parts.rigid_bodies,
                    &self.parts.colliders,
                    handle,
                    own,
                    SENSING_FILTER,
                );
                self.take_candidates(handle, &hits, &mut found);
                proof {
                    self.lemma_candidates_among_both(
                        handle,
                        self.reports_of(handle, attached@.take(i as int)),
                        hits@,
                    );
                }
            }
            i = i + 1;
        }
        assert(attached@.take(i as int) == attached@);
        found
    }

    /// The nearest body that the body `handle` senses, with its distance:
    /// never `handle` itself, always a live body with a solid collider, and
    /// nothing for a handle that names no live body or carries no sensor.
    pub fn get_detection(&self, handle: BodyHandle) -> (nearest: Option<Detected>)
        ensures
            nearest == self.spec_detection(handle),
            !self.is_live(handle) || !self.carries(handle, true) ==> nearest is None,
            nearest matches Some(found) ==> self.is_candidate(handle, found),
    {
        let candidates = self.sensed_candidates(handle);
        proof {
            self.lemma_sensed_are_candidates(handle);
        }
        select_nearest(&candidates)
    }

    /// The handle of the nearest body that the body `agent_body_handle`
    /// senses.
    pub fn get_closesd_agent(&self, agent_body_handle: BodyHandle) -> (nearest: Option<BodyHandle>)
        ensures
            nearest == self.spec_closest(agent_body_handle),
            !self.is_live(agent_body_handle) || !self.carries(agent_body_handle, true) ==> nearest is None,
            nearest matches Some(target) ==> target != agent_body_handle && self.is_live(target)
                && self.carries(target, false),
    {
        match self.get_detection(agent_body_handle) {
            Some(found) => Some(found.target_handle),
            None => None,
        }
    }
}

} // verus!
