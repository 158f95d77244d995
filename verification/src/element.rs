//! Debris: polygonal bodies that drift through the arena.
use crate::chance::random_key;
use crate::consts::{WORLD_H, WORLD_W, WRAP_MARGIN};
use crate::containment::{lemma_wrap_reenters, moved_to, spec_wrap, within, wrap};
use crate::outline::convex_outline;
use crate::scalar::{lemma_of_int_order, Scalar};
use crate::solver::{keeps_bodies, polyline_accepted, BodyHandle, BodyState, GridPoint, Point};
use crate::world::{World, WorldError};
use vstd::prelude::*;

verus! {

/// What moves with the physics world.
pub trait DynamicElement {
    /// The handle of the element's body, if it has one.
    spec fn body(&self) -> Option<BodyHandle>;

    /// The step of every tick. It touches no body but the element's own,
    /// and adds and removes none.
    fn update(&mut self, dt: u64, physics: &mut World)
        ensures
            final(self).body() == old(self).body(),
            final(physics)@.dom() == old(physics)@.dom(),
            final(physics).collider_kinds() == old(physics).collider_kinds(),
            final(physics).can_count() == old(physics).can_count(),
            forall|h: BodyHandle|
                old(physics).is_live(h) && old(self).body() != Some(h) ==> #[trigger] final(physics)@[h]
                    == old(physics)@[h],
    ;
}

/// A piece of debris: a convex polygon.
#[derive(Clone, Debug)]
pub struct Asteroid {
    pub key: u64,
    /// Where the body is created.
    pub origin: Point,
    /// The position of the body when it was last pulled from the world.
    pub pos: Point,
    /// The angle of the body when it was last pulled from the world.
    pub rot: Scalar,
    /// The velocity that the body is set adrift at.
    pub drift: Point,
    pub size: u16,
    /// The outline, about the centre of the body.
    pub points: Vec<GridPoint>,
    pub physics_handle: Option<BodyHandle>,
    /// The kinetic energy of the body when it was last pulled from the
    /// world.
    pub kin_eng: Scalar,
}

/// The body `state` after it re-enters the arena, if it has left it by
/// more than the margin.
pub open spec fn wrapped_state(state: BodyState) -> BodyState {
    BodyState {
        position: Point {
            x: moved_to(state.position.x, spec_wrap(state.position.x, WORLD_W)),
            y: moved_to(state.position.y, spec_wrap(state.position.y, WORLD_H)),
        },
        ..state
    }
}

/// Whether `after` is `before` but for its pose and its kinetic energy.
pub open spec fn same_make(before: Asteroid, after: Asteroid) -> bool {
    after == (Asteroid { pos: after.pos, rot: after.rot, kin_eng: after.kin_eng, ..before })
}

/// Whether each coordinate of `p` that is a number lies within the margin
/// of the arena.
pub open spec fn near_arena(p: Point) -> bool {
    &&& p.x.spec_is_nan() || within(p.x, -WRAP_MARGIN, WORLD_W + WRAP_MARGIN)
    &&& p.y.spec_is_nan() || within(p.y, -WRAP_MARGIN, WORLD_H + WRAP_MARGIN)
}

/// A body that has re-entered lies within the margin of the arena, and
/// does not re-enter again. A body that crosses the far margin on one axis
/// re-enters at the margin inside the near edge, whatever its other
/// coordinate and its angle, which it keeps if it lies within the margin
/// there.
pub proof fn lemma_wrapped_state_near_arena(state: BodyState)
    ensures
        near_arena(wrapped_state(state).position),
        wrapped_state(wrapped_state(state)) == wrapped_state(state),
        wrapped_state(state).angle == state.angle,
        wrapped_state(state).owner == state.owner,
        wrapped_state(state).velocity == state.velocity,
        wrapped_state(state).spin == state.spin,
        state.position.x.spec_gt(Scalar::of_int(WORLD_W + WRAP_MARGIN)) ==> wrapped_state(
            state,
        ).position.x == Scalar::of_int(WRAP_MARGIN as int),
        state.position.y.spec_gt(Scalar::of_int(WORLD_H + WRAP_MARGIN)) ==> wrapped_state(
            state,
        ).position.y == Scalar::of_int(WRAP_MARGIN as int),
        within(state.position.x, -WRAP_MARGIN, WORLD_W + WRAP_MARGIN) ==> wrapped_state(state).position.x
            == state.position.x,
        within(state.position.y, -WRAP_MARGIN, WORLD_H + WRAP_MARGIN) ==> wrapped_state(state).position.y
            == state.position.y,
{
    lemma_wrap_reenters(state.position.x, WORLD_W);
    lemma_wrap_reenters(state.position.y, WORLD_H);
    lemma_wrap_reenters(wrapped_state(state).position.x, WORLD_W);
    lemma_wrap_reenters(wrapped_state(state).position.y, WORLD_H);
}

impl Asteroid {
    /// The bodies after the body `handle`, if live, re-enters the arena.
    pub open spec fn contained(
        handle: Option<BodyHandle>,
        bodies: Map<BodyHandle, BodyState>,
    ) -> Map<BodyHandle, BodyState> {
        match handle {
            Some(h) if bodies.contains_key(h) => bodies.insert(h, wrapped_state(bodies[h])),
            _ => bodies,
        }
    }

    /// A piece of debris of the given size and outline at `origin`, with a
    /// fresh key and no body yet.
    pub fn new(origin: Point, size: u16, points: Vec<GridPoint>, drift: Point) -> (asteroid:
        Asteroid)
        ensures
            asteroid.origin == origin,
            asteroid.pos == origin,
            asteroid.rot == Scalar::of_int(0),
            asteroid.drift == drift,
            asteroid.size == size,
            asteroid.points == points,
            asteroid.physics_handle is None,
            asteroid.kin_eng == Scalar::of_int(0),
    {
        let zero = Scalar::from_i16(0);
        Asteroid {
            key: random_key(),
            origin,
            pos: origin,
            rot: zero,
            drift,
            size,
            points,
            physics_handle: None,
            kin_eng: zero,
        }
    }
}

impl DynamicElement for Asteroid {
    open spec fn body(&self) -> Option<BodyHandle> {
        self.physics_handle
    }

    /// Pulls the pose and the kinetic energy of the body from the world,
    /// and lets a body that has left the arena by more than the margin
    /// re-enter at the margin inside the opposite edge, at its rotation.
    /// Debris without a live body stays as it is.
    fn update(&mut self, dt: u64, physics: &mut World)
        ensures
            final(physics)@ == Asteroid::contained(old(self).physics_handle, old(physics)@),
            match old(self).physics_handle {
                Some(h) if old(physics).is_live(h) => final(self).pos == wrapped_state(
                    old(physics)@[h],
                ).position && final(self).rot == old(physics)@[h].angle && final(self).kin_eng == old(
                    physics,
                ).energy(h),
                _ => final(self).pos == old(self).pos && final(self).rot == old(self).rot
                    && final(self).kin_eng == old(self).kin_eng,
            },
            same_make(*old(self), *final(self)),
    {
        proof {
            lemma_of_int_order(-WRAP_MARGIN as int, WORLD_W - WRAP_MARGIN);
            lemma_of_int_order(WRAP_MARGIN as int, WORLD_W + WRAP_MARGIN);
            lemma_of_int_order(-WRAP_MARGIN as int, WORLD_H - WRAP_MARGIN);
            lemma_of_int_order(WRAP_MARGIN as int, WORLD_H + WRAP_MARGIN);
        }
        match self.physics_handle {
            Some(handle) => match physics.get_physics_data(handle) {
                Some(data) => {
                    let ghost before = physics@;
                    let mut pos = data.position;
                    match wrap(pos.x, WORLD_W) {
                        Some(x) => {
                            physics.set_body_x(handle, x);
                            pos.x = Scalar::from_i16(x);
                        },
                        None => {},
                    }
                    match wrap(pos.y, WORLD_H) {
                        Some(y) => {
                            physics.set_body_y(handle, y);
                            pos.y = Scalar::from_i16(y);
                        },
                        None => {},
                    }
                    self.pos = pos;
                    self.rot = data.rotation;
                    match data.kin_eng {
                        Some(energy) => {
                            self.kin_eng = energy;
                        },
                        None => {},
                    }
                    assert(physics@ == before.insert(handle, wrapped_state(before[handle])));
                },
                None => {},
            },
            None => {},
        }
    }
}

/// Whether no two of the elements have the same key.
pub open spec fn distinct_keys(elements: Seq<Asteroid>) -> bool {
    forall|i: int, j: int| 0 <= i < j < elements.len() ==> elements[i].key != elements[j].key
}

/// Whether the element has a live body among `bodies`.
pub open spec fn has_live_body(element: Asteroid, bodies: Map<BodyHandle, BodyState>) -> bool {
    match element.physics_handle {
        Some(h) => bodies.contains_key(h),
        None => false,
    }
}

/// Whether each of the elements has a live body among `bodies`, and no two
/// have the same.
pub open spec fn embodied(elements: Seq<Asteroid>, bodies: Map<BodyHandle, BodyState>) -> bool {
    &&& forall|k: int| 0 <= k < elements.len() ==> has_live_body(#[trigger] elements[k], bodies)
    &&& forall|i: int, j: int|
        0 <= i < j < elements.len() ==> elements[i].physics_handle != elements[j].physics_handle
}

/// Whether one of the elements has the body `handle`.
pub open spec fn owns_body(elements: Seq<Asteroid>, handle: Option<BodyHandle>) -> bool {
    exists|k: int| 0 <= k < elements.len() && #[trigger] elements[k].physics_handle == handle
}

/// Whether each of `after` has a body that one of `before` had, or a body
/// that was not live among `bodies`.
pub open spec fn bodies_are_old_or_new(
    before: Seq<Asteroid>,
    after: Seq<Asteroid>,
    bodies: Map<BodyHandle, BodyState>,
) -> bool {
    forall|j: int|
        0 <= j < after.len() ==> owns_body(before, (#[trigger] after[j]).physics_handle) || (
        after[j].physics_handle is Some && !has_live_body(after[j], bodies))
}

/// Whether one of the elements has the key `id`.
pub open spec fn has_key(elements: Seq<Asteroid>, id: u64) -> bool {
    exists|i: int| 0 <= i < elements.len() && elements[i].key == id
}

/// The place of the element with the key `id`, if there is one.
pub open spec fn place_of(elements: Seq<Asteroid>, id: u64) -> Option<int> {
    if has_key(elements, id) {
        Some(choose|i: int| 0 <= i < elements.len() && elements[i].key == id)
    } else {
        None
    }
}

/// Among elements with distinct keys, the element with a key has one place.
pub proof fn lemma_place_is_unique(elements: Seq<Asteroid>, id: u64, i: int)
    requires
        distinct_keys(elements),
        0 <= i < elements.len(),
        elements[i].key == id,
    ensures
        place_of(elements, id) == Some(i),
{
    let j = choose|j: int| 0 <= j < elements.len() && elements[j].key == id;
    if j < i {
        assert(elements[j].key != elements[i].key);
    } else if i < j {
        assert(elements[i].key != elements[j].key);
    }
}

/// The elements with `element` among them: in the place of the one that had
/// its key, or else at the end.
pub open spec fn with_element(elements: Seq<Asteroid>, element: Asteroid) -> Seq<Asteroid> {
    match place_of(elements, element.key) {
        Some(i) => elements.update(i, element),
        None => elements.push(element),
    }
}

/// The keys of the elements with `element` among them are the keys of the
/// elements and the key of `element`.
pub proof fn lemma_with_element_keys(elements: Seq<Asteroid>, element: Asteroid, id: u64)
    ensures
        has_key(with_element(elements, element), id) <==> has_key(elements, id) || id == element.key,
{
    let after = with_element(elements, element);
    match place_of(elements, element.key) {
        Some(i) => {
            assert(after[i].key == element.key);
            if has_key(elements, id) {
                let k = choose|k: int| 0 <= k < elements.len() && elements[k].key == id;
                assert(after[k].key == id);
            }
            if has_key(after, id) {
                let k = choose|k: int| 0 <= k < after.len() && after[k].key == id;
                if k != i {
                    assert(elements[k].key == id);
                }
            }
        },
        None => {
            assert(after[elements.len() as int].key == element.key);
            if has_key(elements, id) {
                let k = choose|k: int| 0 <= k < elements.len() && elements[k].key == id;
                assert(after[k].key == id);
            }
            if has_key(after, id) {
                let k = choose|k: int| 0 <= k < after.len() && after[k].key == id;
                if k < elements.len() {
                    assert(elements[k].key == id);
                }
            }
        },
    }
}

/// Whether the world takes the outline of `element` for a body.
pub open spec fn has_sound_outline(element: Asteroid) -> bool {
    convex_outline(element.points@) && polyline_accepted(element.points@)
}

/// Whether one of `offered` from the place `from` on has the key `id` and
/// a sound outline, so that it is taken.
pub open spec fn is_taken(offered: Seq<Asteroid>, from: int, id: u64) -> bool {
    exists|i: int| from <= i < offered.len() && (#[trigger] offered[i]).key == id && has_sound_outline(offered[i])
}

/// Whether `after` and `after_world` are `before` and `world` with
/// `element` among the elements and its body under `handle`, which named
/// nothing before: a body adrift from where the element is created, that
/// carries a solid polygon and nothing else.
pub open spec fn embodies(
    before: Seq<Asteroid>,
    world: World,
    element: Asteroid,
    handle: BodyHandle,
    after: Seq<Asteroid>,
    after_world: World,
) -> bool {
    &&& !world.is_live(handle)
    &&& after_world@ == world@.insert(handle, BodyState::adrift(element.key, element.origin, element.drift))
    &&& crate::world::gains_collider(
        world.collider_kinds(),
        after_world.collider_kinds(),
        handle,
        crate::solver::loose_polygon(),
        after_world.listed(handle),
    )
    &&& after == with_element(before, Asteroid { physics_handle: Some(handle), ..element })
}

/// Whether `after` and `after_world` are what taking `element` in makes
/// of `before` and `world`: an element with a sound outline gets a body
/// and is among the elements, and any other changes nothing.
pub open spec fn admits(
    before: Seq<Asteroid>,
    world: World,
    element: Asteroid,
    after: Seq<Asteroid>,
    after_world: World,
) -> bool {
    if has_sound_outline(element) {
        exists|handle: BodyHandle| #[trigger] embodies(before, world, element, handle, after, after_world)
    } else {
        after == before && after_world == world
    }
}

/// Whether `after` and `after_world` are what taking each of `offered`
/// in, from the last to the first, makes of `before` and `world`.
pub open spec fn admits_all(
    before: Seq<Asteroid>,
    world: World,
    offered: Seq<Asteroid>,
    after: Seq<Asteroid>,
    after_world: World,
) -> bool
    decreases offered.len(),
{
    if offered.len() == 0 {
        after == before && after_world == world
    } else {
        exists|between: Seq<Asteroid>, between_world: World|
            admits_all(before, world, offered.drop_first(), between, between_world) && #[trigger] admits(
                between,
                between_world,
                offered.first(),
                after,
                after_world,
            )
    }
}

/// The number of `offered` that have a sound outline, so that they are
/// taken.
pub open spec fn sound_count(offered: Seq<Asteroid>) -> nat
    decreases offered.len(),
{
    if offered.len() == 0 {
        0
    } else if has_sound_outline(offered.first()) {
        sound_count(offered.drop_first()) + 1
    } else {
        sound_count(offered.drop_first())
    }
}

/// The elements without the one that has the key `id`.
pub open spec fn without_key(elements: Seq<Asteroid>, id: u64) -> Seq<Asteroid> {
    match place_of(elements, id) {
        Some(i) => elements.remove(i),
        None => elements,
    }
}

/// Whether `after` and `after_bodies` are what one tick makes of the
/// elements `before` and the bodies `bodies`:
/// - each element is as it was but for its pose and its kinetic energy;
/// - the same bodies are live, each as it was or re-entered;
/// - a body that is no element's is as it was;
/// - and if every element had a live body of its own, then it still has,
///   and lies within the margin of the arena.
pub open spec fn drifted(
    before: Seq<Asteroid>,
    bodies: Map<BodyHandle, BodyState>,
    after: Seq<Asteroid>,
    after_bodies: Map<BodyHandle, BodyState>,
) -> bool {
    &&& after.len() == before.len()
    &&& forall|k: int| 0 <= k < before.len() ==> same_make(before[k], #[trigger] after[k])
    &&& after_bodies.dom() == bodies.dom()
    &&& forall|h: BodyHandle| #[trigger]
        after_bodies.contains_key(h) ==> after_bodies[h] == bodies[h] || after_bodies[h] == wrapped_state(
            bodies[h],
        )
    &&& forall|h: BodyHandle|
        bodies.contains_key(h) && !owns_body(before, Some(h)) ==> #[trigger] after_bodies[h] == bodies[h]
    &&& embodied(before, bodies) ==> embodied(after, after_bodies) && (forall|j: int|
        0 <= j < after.len() ==> near_arena((#[trigger] after[j]).pos))
}

/// The debris, each piece under its own key.
pub struct DynamicCollector {
    pub elements: Vec<Asteroid>,
}

impl DynamicCollector {
    /// Whether no two elements share a key.
    pub open spec fn wf(&self) -> bool {
        distinct_keys(self.elements@)
    }

    /// A collector without elements.
    pub fn new() -> (r: DynamicCollector)
        ensures
            r.wf(),
            r.elements@.len() == 0,
    {
        DynamicCollector { elements: Vec::new() }
    }

    /// The place of the element with the key `id`.
    pub fn find(&self, id: u64) -> (place: Option<usize>)
        requires
            self.wf(),
        ensures
            match place {
                Some(i) => place_of(self.elements@, id) == Some(i as int) && i < self.elements@.len()
                    && self.elements@[i as int].key == id,
                None => place_of(self.elements@, id) is None,
            },
    {
        let mut i: usize = 0;
        while i < self.elements.len()
            invariant
                self.wf(),
                i <= self.elements.len(),
                forall|k: int| 0 <= k < i ==> self.elements@[k].key != id,
            decreases self.elements.len() - i,
        {
            if self.elements[i].key == id {
                proof {
                    lemma_place_is_unique(self.elements@, id, i as int);
                }
                return Some(i);
            }
            i = i + 1;
        }
        None
    }

    /// Gives `element` a body in the world, with its outline as the solid
    /// shape, and takes it into the collector under its key, in place of
    /// any element that had that key. An element whose outline is refused
    /// is refused, and nothing changes.
    pub fn add_element(&mut self, element: Asteroid, physics_world: &mut World) -> (r: Result<u64, WorldError>)
        requires
            old(self).wf(),
        ensures
            final(self).wf(),
            r is Ok <==> has_sound_outline(element),
            admits(
                old(self).elements@,
                *old(physics_world),
                element,
                final(self).elements@,
                *final(physics_world),
            ),
            forall|id: u64|
                #[trigger] has_key(final(self).elements@, id) <==> has_key(old(self).elements@, id) || (id
                    == element.key && has_sound_outline(element)),
            match r {
                Ok(key) => key == element.key && exists|handle: BodyHandle|
                    {
                        &&& !old(physics_world).is_live(handle)
                        &&& final(physics_world)@ == old(physics_world)@.insert(
                            handle,
                            BodyState::adrift(key, element.origin, element.drift),
                        )
                        &&& final(self).elements@ == with_element(
                            old(self).elements@,
                            (Asteroid { physics_handle: Some(handle), ..element }),
                        )
                    },
                Err(e) => e == WorldError::InvalidPolygon && *final(self) == *old(self)
                    && *final(physics_world) == *old(physics_world),
            },
            keeps_bodies(old(physics_world)@, final(physics_world)@),
            bodies_are_old_or_new(old(self).elements@, final(self).elements@, old(physics_world)@),
            embodied(old(self).elements@, old(physics_world)@) ==> embodied(
                final(self).elements@,
                final(physics_world)@,
            ),
    {
        let key = element.key;
        let created = physics_world.add_poly_body(key, &element.origin, &element.points, element.drift);
        match created {
            Ok(handle) => {
                let ghost offered = element;
                let mut element = element;
                element.physics_handle = Some(handle);
                let ghost added = element;
                match self.find(key) {
                    Some(i) => {
                        self.elements.set(i, element);
                    },
                    None => {
                        self.elements.push(element);
                    },
                }
                proof {
                    assert(embodies(
                        old(self).elements@,
                        *old(physics_world),
                        offered,
                        handle,
                        self.elements@,
                        *physics_world,
                    ));
                    assert forall|id: u64| #[trigger]
                        has_key(self.elements@, id) <==> has_key(old(self).elements@, id) || id == key by {
                        lemma_with_element_keys(old(self).elements@, added, id);
                    }
                    assert forall|j: int| 0 <= j < self.elements@.len() implies owns_body(
                        old(self).elements@,
                        (#[trigger] self.elements@[j]).physics_handle,
                    ) || (self.elements@[j].physics_handle is Some && !has_live_body(
                        self.elements@[j],
                        old(physics_world)@,
                    )) by {
                        if self.elements@[j] != added {
                            assert(old(self).elements@[j].physics_handle == self.elements@[j].physics_handle);
                        }
                    }
                    if embodied(old(self).elements@, old(physics_world)@) {
                        assert forall|k: int| 0 <= k < self.elements@.len() implies has_live_body(
                            #[trigger] self.elements@[k],
                            physics_world@,
                        ) by {
                            if self.elements@[k] != added {
                                assert(has_live_body(old(self).elements@[k], old(physics_world)@));
                            }
                        }
                        assert forall|a: int, b: int| 0 <= a < b < self.elements@.len() implies self.elements@[a].physics_handle
                            != self.elements@[b].physics_handle by {
                            if self.elements@[a] != added {
                                assert(has_live_body(old(self).elements@[a], old(physics_world)@));
                            }
                            if self.elements@[b] != added {
                                assert(has_live_body(old(self).elements@[b], old(physics_world)@));
                            }
                        }
                    }
                }
                Ok(key)
            },
            Err(e) => Err(e),
        }
    }

    /// Takes each of `elements` into the collector, from the last to the
    /// first, as `add_element` does, and passes over those that it
    /// refuses. The result is the number taken.
    pub fn add_many_elements(&mut self, elements: Vec<Asteroid>, physics_world: &mut World) -> (taken: usize)
        requires
            old(self).wf(),
        ensures
            final(self).wf(),
            taken == sound_count(elements@),
            admits_all(
                old(self).elements@,
                *old(physics_world),
                elements@,
                final(self).elements@,
                *final(physics_world),
            ),
            taken <= elements@.len(),
            final(self).elements@.len() <= old(self).elements@.len() + taken,
            forall|id: u64|
                #[trigger] has_key(final(self).elements@, id) <==> has_key(old(self).elements@, id) || is_taken(
                    elements@,
                    0,
                    id,
                ),
            keeps_bodies(old(physics_world)@, final(physics_world)@),
            bodies_are_old_or_new(old(self).elements@, final(self).elements@, old(physics_world)@),
            embodied(old(self).elements@, old(physics_world)@) ==> embodied(
                final(self).elements@,
                final(physics_world)@,
            ),
    {
        let ghost offered = elements@;
        let mut elements = elements;
        let total = elements.len();
        let mut taken: usize = 0;
        while elements.len() > 0
            invariant
                elements@.len() <= total,
                total == offered.len(),
                elements@ == offered.take(elements@.len() as int),
                taken == sound_count(offered.skip(elements@.len() as int)),
                admits_all(
                    old(self).elements@,
                    *old(physics_world),
                    offered.skip(elements@.len() as int),
                    self.elements@,
                    *physics_world,
                ),
                forall|id: u64|
                    #[trigger] has_key(self.elements@, id) <==> has_key(old(self).elements@, id) || is_taken(
                        offered,
                        elements@.len() as int,
                        id,
                    ),
                taken <= total - elements@.len(),
                self.wf(),
                self.elements@.len() <= old(self).elements@.len() + taken,
                keeps_bodies(old(physics_world)@, physics_world@),
                bodies_are_old_or_new(old(self).elements@, self.elements@, old(physics_world)@),
                embodied(old(self).elements@, old(physics_world)@) ==> embodied(self.elements@, physics_world@),
            decreases elements@.len(),
        {
            let ghost earlier = self.elements@;
            let ghost before = physics_world@;
            let ghost world_before = *physics_world;
            proof {
                assert forall|j: int| 0 <= j < earlier.len() implies owns_body(
                    earlier,
                    (#[trigger] earlier[j]).physics_handle,
                ) by {
                    assert(earlier[j].physics_handle == earlier[j].physics_handle);
                }
            }
            let ghost left = elements@.len();
            match elements.pop() {
                Some(element) => match self.add_element(element, physics_world) {
                    Ok(_) => {
                        taken = taken + 1;
                    },
                    Err(_) => {},
                },
                None => {},
            }
            proof {
                let last = left - 1;
                let so_far = offered.skip(last);
                assert(so_far.len() == total - last);
                assert(so_far.drop_first() == offered.skip(left as int));
                assert(so_far.first() == offered[last]);
                assert(admits_all(
                    old(self).elements@,
                    *old(physics_world),
                    so_far.drop_first(),
                    earlier,
                    world_before,
                ) && admits(earlier, world_before, so_far.first(), self.elements@, *physics_world));
                assert(admits_all(
                    old(self).elements@,
                    *old(physics_world),
                    so_far,
                    self.elements@,
                    *physics_world,
                ));
            }
            proof {
                let last = left - 1;
                assert(elements@ == offered.take(last));
                assert forall|id: u64| #[trigger]
                    has_key(self.elements@, id) <==> has_key(old(self).elements@, id) || is_taken(
                        offered,
                        last,
                        id,
                    ) by {
                    assert(has_key(earlier, id) <==> has_key(old(self).elements@, id) || is_taken(
                        offered,
                        left as int,
                        id,
                    ));
                    if is_taken(offered, left as int, id) {
                        let w = choose|w: int|
                            left <= w < offered.len() && (#[trigger] offered[w]).key == id && has_sound_outline(
                                offered[w],
                            );
                        assert(offered[w].key == id && has_sound_outline(offered[w]));
                    }
                    if is_taken(offered, last, id) && !is_taken(offered, left as int, id) {
                        let w = choose|w: int|
                            last <= w < offered.len() && (#[trigger] offered[w]).key == id && has_sound_outline(
                                offered[w],
                            );
                        assert(w == last);
                    }
                    if id == offered[last].key && has_sound_outline(offered[last]) {
                        assert(offered[last].key == id);
                    }
                }
            }
            proof {
                assert forall|j: int| 0 <= j < self.elements@.len() implies owns_body(
                    old(self).elements@,
                    (#[trigger] self.elements@[j]).physics_handle,
                ) || (self.elements@[j].physics_handle is Some && !has_live_body(
                    self.elements@[j],
                    old(physics_world)@,
                )) by {
                    let handle = self.elements@[j].physics_handle;
                    if owns_body(earlier, handle) {
                        let k = choose|k: int|
                            0 <= k < earlier.len() && #[trigger] earlier[k].physics_handle == handle;
                        assert(owns_body(old(self).elements@, earlier[k].physics_handle) || (
                        earlier[k].physics_handle is Some && !has_live_body(earlier[k], old(physics_world)@)));
                    } else {
                        assert(!has_live_body(self.elements@[j], before));
                    }
                }
            }
        }
        taken
    }

    /// The element with the key `id`.
    pub fn get(&self, id: u64) -> (r: Option<&Asteroid>)
        requires
            self.wf(),
        ensures
            match r {
                Some(element) => place_of(self.elements@, id) matches Some(i) && self.elements@[i] == *element
                    && element.key == id,
                None => !has_key(self.elements@, id),
            },
    {
        match self.find(id) {
            Some(i) => Some(&self.elements[i]),
            None => None,
        }
    }

    /// Drops the element with the key `id`, if there is one. Its body stays
    /// in the world.
    pub fn remove(&mut self, id: u64)
        requires
            old(self).wf(),
        ensures
            final(self).wf(),
            final(self).elements@ == without_key(old(self).elements@, id),
            !has_key(final(self).elements@, id),
    {
        match self.find(id) {
            Some(i) => {
                let _ = self.elements.remove(i);
            },
            None => {},
        }
    }

    /// One tick for every element: each pulls its pose, and a body that
    /// has left the arena by more than the margin re-enters on the other
    /// side.
    pub fn update_elements(&mut self, dt: u64, physics_world: &mut World)
        ensures
            drifted(old(self).elements@, old(physics_world)@, final(self).elements@, final(physics_world)@),
            final(self).elements@.len() == old(self).elements@.len(),
            forall|k: int|
                0 <= k < old(self).elements@.len() ==> same_make(
                    old(self).elements@[k],
                    #[trigger] final(self).elements@[k],
                ),
            forall|k: int|
                0 <= k < final(self).elements@.len() ==> ((#[trigger] final(self).elements@[k]).physics_handle matches Some(
                    h,
                ) && old(physics_world).is_live(h) ==> near_arena(final(self).elements@[k].pos)),
            final(physics_world)@.dom() == old(physics_world)@.dom(),
            final(physics_world).collider_kinds() == old(physics_world).collider_kinds(),
            final(physics_world).can_count() == old(physics_world).can_count(),
            forall|h: BodyHandle| #[trigger]
                final(physics_world).is_live(h) ==> final(physics_world)@[h] == old(physics_world)@[h]
                    || final(physics_world)@[h] == wrapped_state(old(physics_world)@[h]),
            forall|h: BodyHandle|
                old(physics_world).is_live(h) && (forall|k: int|
                    0 <= k < old(self).elements@.len() ==> (#[trigger] old(self).elements@[k]).physics_handle
                        != Some(h)) ==> final(physics_world)@[h] == old(physics_world)@[h],
            embodied(old(self).elements@, old(physics_world)@) ==> embodied(
                final(self).elements@,
                final(physics_world)@,
            ) && (forall|j: int|
                0 <= j < final(self).elements@.len() ==> near_arena(
                    (#[trigger] final(self).elements@[j]).pos,
                )),
    {
        let n = self.elements.len();
        let mut i: usize = 0;
        while i < n
            invariant
                physics_world.can_count() == old(physics_world).can_count(),
                i <= n,
                self.elements@.len() == n,
                old(self).elements@.len() == n,
                forall|k: int| 0 <= k < n ==> same_make(old(self).elements@[k], #[trigger] self.elements@[k]),
                forall|k: int|
                    0 <= k < i ==> ((#[trigger] self.elements@[k]).physics_handle matches Some(h) && old(
                        physics_world,
                    ).is_live(h) ==> near_arena(self.elements@[k].pos)),
                physics_world@.dom() == old(physics_world)@.dom(),
                physics_world.collider_kinds() == old(physics_world).collider_kinds(),
                forall|h: BodyHandle| #[trigger]
                    physics_world@.contains_key(h) ==> physics_world@[h] == old(physics_world)@[h]
                        || physics_world@[h] == wrapped_state(old(physics_world)@[h]),
                forall|h: BodyHandle|
                    old(physics_world)@.contains_key(h) && (forall|k: int|
                        0 <= k < n ==> (#[trigger] old(self).elements@[k]).physics_handle != Some(h))
                        ==> physics_world@[h] == old(physics_world)@[h],
            decreases n - i,
        {
            let ghost before = physics_world@;
            let ghost earlier = self.elements@;
            proof {
                match self.elements@[i as int].physics_handle {
                    Some(h) => {
                        if physics_world.is_live(h) {
                            lemma_wrapped_state_near_arena(before[h]);
                            lemma_wrapped_state_near_arena(old(physics_world)@[h]);
                        }
                    },
                    None => {},
                }
            }
            self.elements[i].update(dt, physics_world);
            proof {
                assert forall|h: BodyHandle|
                    old(physics_world)@.contains_key(h) && (forall|k: int|
                        0 <= k < n ==> (#[trigger] old(self).elements@[k]).physics_handle != Some(h)) implies physics_world@[h]
                    == old(physics_world)@[h] by {
                    assert(old(self).elements@[i as int].physics_handle != Some(h));
                    assert(earlier[i as int].physics_handle == old(self).elements@[i as int].physics_handle);
                    assert(before.contains_key(h));
                }
            }
            proof {
                assert forall|h: BodyHandle| #[trigger] physics_world@.contains_key(h) implies physics_world@[h]
                    == old(physics_world)@[h] || physics_world@[h] == wrapped_state(
                    old(physics_world)@[h],
                ) by {
                    assert(before.contains_key(h));
                }
            }
            i = i + 1;
        }
    }

    /// Whether no two elements share a key.
    pub fn has_distinct_keys(&self) -> (r: bool)
        ensures
            r == self.wf(),
    {
        let n = self.elements.len();
        let mut j: usize = 0;
        while j < n
            invariant
                j <= n,
                n == self.elements@.len(),
                forall|a: int, b: int| 0 <= a < b < j ==> self.elements@[a].key != self.elements@[b].key,
            decreases n - j,
        {
            let mut i: usize = 0;
            while i < j
                invariant
                    i <= j < n,
                    n == self.elements@.len(),
                    forall|a: int| 0 <= a < i ==> self.elements@[a].key != self.elements@[j as int].key,
                decreases j - i,
            {
                if self.elements[i].key == self.elements[j].key {
                    return false;
                }
                i = i + 1;
            }
            j = j + 1;
        }
        true
    }

    /// Whether every element has a live body in the world, and no two have
    /// the same.
    pub fn is_embodied(&self, physics_world: &World) -> (r: bool)
        ensures
            r == embodied(self.elements@, physics_world@),
    {
        let n = self.elements.len();
        let mut j: usize = 0;
        while j < n
            invariant
                j <= n,
                n == self.elements@.len(),
                forall|k: int| 0 <= k < j ==> has_live_body(#[trigger] self.elements@[k], physics_world@),
                forall|a: int, b: int|
                    0 <= a < b < j ==> self.elements@[a].physics_handle != self.elements@[b].physics_handle,
            decreases n - j,
        {
            let live = match self.elements[j].physics_handle {
                Some(handle) => physics_world.get_owner_key(handle).is_some(),
                None => false,
            };
            if !live {
                assert(!has_live_body(self.elements@[j as int], physics_world@));
                return false;
            }
            let mut i: usize = 0;
            while i < j
                invariant
                    i <= j < n,
                    n == self.elements@.len(),
                    forall|a: int|
                        0 <= a < i ==> self.elements@[a].physics_handle != self.elements@[j as int].physics_handle,
                decreases j - i,
            {
                if self.elements[i].physics_handle == self.elements[j].physics_handle {
                    return false;
                }
                i = i + 1;
            }
            j = j + 1;
        }
        true
    }

    /// The elements, in the order in which they were taken in.
    pub fn get_iter(&self) -> (r: &Vec<Asteroid>)
        ensures
            r@ == self.elements@,
    {
        &self.elements
    }

    /// The number of elements.
    pub fn count(&self) -> (r: usize)
        ensures
            r == self.elements@.len(),
    {
        self.elements.len()
    }
}

} // verus!
