//! What an entity detects and what it hits, kept by key.
use crate::scalar::{Scalar, SIGN_BIT};
use crate::solver::Point;
use parry2d::query::{contact, Contact};
use parry2d::shape::Ball;
use rapier2d::math::Real;
use rapier2d::na::{Isometry2, Vector2};
use std::collections::HashMap;
use vstd::prelude::*;
use vstd::std_specs::hash::group_hash_axioms;

verus! {

broadcast use group_hash_axioms;

/// The encoding that stands for no number.
pub const NAN_BITS: u32 = 0x7fc0_0000;

/// The encoding of 1.
pub const ONE_BITS: u32 = 0x3f80_0000;

/// Where two shapes touch, as `parry2d` has it.
#[verifier::external_type_specification]
#[verifier::external_body]
pub struct ExContact(Contact);

/// The radius of the pointer.
pub const POINTER_RADIUS: u16 = 2;

/// What `parry2d::query::contact` finds, without prediction, for two
/// balls: the first of the radius `rad1` at `pos1`, turned by `rot1`, and
/// the second likewise.
pub uninterp spec fn ball_contact(
    pos1: Point,
    rot1: Scalar,
    rad1: Scalar,
    pos2: Point,
    rot2: Scalar,
    rad2: Scalar,
) -> Option<Contact>;

/// The contact of two balls, from `parry2d::query::contact` without
/// prediction: where they touch, if they do. The query knows balls, so it
/// gives no error.
#[verifier::external_body]
pub fn contact_circles(pos1: Point, rot1: Scalar, rad1: Scalar, pos2: Point, rot2: Scalar, rad2: Scalar) -> (found:
    Option<Contact>)
    ensures
        found == ball_contact(pos1, rot1, rad1, pos2, rot2, rad2),
{
    let at1 = Isometry2::new(
        Vector2::new(Real::from_bits(pos1.x.bits), Real::from_bits(pos1.y.bits)),
        Real::from_bits(rot1.bits),
    );
    let at2 = Isometry2::new(
        Vector2::new(Real::from_bits(pos2.x.bits), Real::from_bits(pos2.y.bits)),
        Real::from_bits(rot2.bits),
    );
    let ball1 = Ball::new(Real::from_bits(rad1.bits));
    let ball2 = Ball::new(Real::from_bits(rad2.bits));
    contact(&at1, &ball1, &at2, &ball2, Real::from_bits(0)).ok().flatten()
}

/// Whether the pointer at `mouse_pos` touches the ball of the radius
/// `target_rad` at `target_pos`.
pub fn contact_mouse(mouse_pos: Point, target_pos: Point, target_rad: Scalar) -> (r: bool)
    ensures
        r == ball_contact(
            mouse_pos,
            Scalar::of_int(0),
            Scalar::of_int(POINTER_RADIUS as int),
            target_pos,
            Scalar::of_int(0),
            target_rad,
        ).is_some(),
{
    let still = Scalar::from_i16(0);
    contact_circles(mouse_pos, still, Scalar::from_u16(POINTER_RADIUS), target_pos, still, target_rad).is_some()
}

/// What kind of thing an object is.
#[derive(Clone, Copy, Debug, PartialEq, Eq, Structural)]
pub enum ObjectType {
    Empty,
    Agent,
    Source,
    Obstacle,
}

/// What kind of thing was detected.
#[derive(Clone, Copy, Debug, PartialEq, Eq, Structural)]
pub enum DetectionTypes {
    Enemy,
    Food,
    Rock,
}

/// A rotation, by the cosine and the sine of its angle.
#[derive(Clone, Copy, Debug, PartialEq, Eq, Structural)]
pub struct Rot {
    pub cos: Scalar,
    pub sin: Scalar,
}

impl Rot {
    /// The rotation by no angle: cosine 1 and sine 0.
    pub open spec fn spec_zero() -> Rot {
        Rot { cos: Scalar { bits: ONE_BITS }, sin: Scalar { bits: 0 } }
    }

    /// The scalar with the sign of `v` changed.
    pub open spec fn negated(v: Scalar) -> Scalar {
        if v.bits >= SIGN_BIT {
            Scalar { bits: (v.bits - SIGN_BIT) as u32 }
        } else {
            Scalar { bits: (v.bits + SIGN_BIT) as u32 }
        }
    }

    /// The rotation by no angle.
    pub fn zero() -> (r: Rot)
        ensures
            r == Self::spec_zero(),
    {
        Rot { cos: Scalar { bits: ONE_BITS }, sin: Scalar { bits: 0 } }
    }

    /// The rotation by the opposite angle: the same cosine and the sine
    /// with its sign changed, so that it ranks opposite and is a number if
    /// the sine was.
    pub fn inv(self) -> (r: Rot)
        ensures
            r.cos == self.cos,
            r.sin == Self::negated(self.sin),
            r.sin.rank() == -self.sin.rank(),
            r.sin.spec_is_nan() == self.sin.spec_is_nan(),
            Self::negated(r.sin) == self.sin,
    {
        let sin = if self.sin.bits >= SIGN_BIT {
            Scalar { bits: self.sin.bits - SIGN_BIT }
        } else {
            Scalar { bits: self.sin.bits + SIGN_BIT }
        };
        Rot { cos: self.cos, sin }
    }
}

impl Default for Rot {
    fn default() -> (r: Rot)
        ensures
            r == Rot::spec_zero(),
    {
        Rot::zero()
    }
}

/// Something detected: how far, at what angle and where.
#[derive(Clone, Copy, Debug, PartialEq, Eq, Structural)]
pub struct Detection {
    pub distance: Scalar,
    pub angle: Scalar,
    pub pos: Point,
    pub target_type: ObjectType,
}

impl Detection {
    /// Whether nothing is detected: the distance or the angle is not a
    /// number.
    pub open spec fn spec_is_empty(&self) -> bool {
        self.angle.spec_is_nan() || self.distance.spec_is_nan()
    }

    /// The detection of an agent.
    pub open spec fn of_agent(distance: Scalar, angle: Scalar, pos: Point) -> Detection {
        Detection { distance, angle, pos, target_type: ObjectType::Agent }
    }

    /// The detection of nothing.
    pub open spec fn nothing() -> Detection {
        Detection {
            distance: Scalar { bits: NAN_BITS },
            angle: Scalar { bits: NAN_BITS },
            pos: Point { x: Scalar { bits: NAN_BITS }, y: Scalar { bits: NAN_BITS } },
            target_type: ObjectType::Empty,
        }
    }

    /// The detection of an agent.
    pub fn new(distance: Scalar, angle: Scalar, pos: Point) -> (r: Detection)
        ensures
            r == Self::of_agent(distance, angle, pos),
    {
        Detection { distance, angle, pos, target_type: ObjectType::Agent }
    }

    /// The detection of nothing.
    pub fn new_empty() -> (r: Detection)
        ensures
            r == Self::nothing(),
            r.spec_is_empty(),
    {
        let nan = Scalar { bits: NAN_BITS };
        Detection { distance: nan, angle: nan, pos: Point { x: nan, y: nan }, target_type: ObjectType::Empty }
    }

    /// Takes the detection of an agent in place of this one if this one is
    /// empty or farther.
    pub fn add_closer(&mut self, distance: Scalar, angle: Scalar, pos: Point)
        ensures
            *final(self) == (if old(self).spec_is_empty() || old(self).distance.spec_gt(distance) {
                Detection::of_agent(distance, angle, pos)
            } else {
                *old(self)
            }),
    {
        if self.is_empty() || self.distance.gt(distance) {
            self.distance = distance;
            self.angle = angle;
            self.pos = pos;
            self.target_type = ObjectType::Agent;
        }
    }

    /// Whether nothing is detected.
    pub fn is_empty(&self) -> (r: bool)
        ensures
            r == self.spec_is_empty(),
    {
        if self.angle.is_nan() || self.distance.is_nan() {
            return true;
        }
        return false;
    }
}

/// Of two detections for one key, the one that stays: the nearer, the
/// earlier of two at one distance as the detection of an agent, and the
/// detection of an agent at no distance if the two do not compare.
pub open spec fn nearer_of(held: Detection, offered: Detection) -> Detection {
    if held.distance.spec_gt(offered.distance) {
        offered
    } else if held.distance.spec_le(offered.distance) {
        Detection::of_agent(held.distance, held.angle, held.pos)
    } else {
        Detection::of_agent(
            Scalar { bits: NAN_BITS },
            Scalar { bits: NAN_BITS },
            Point { x: Scalar { bits: NAN_BITS }, y: Scalar { bits: NAN_BITS } },
        )
    }
}

/// The nearest detection of each entity, by key.
pub struct DetectionsMap {
    pub detections: HashMap<u64, Detection>,
    pub sources: HashMap<u64, Detection>,
}

impl DetectionsMap {
    /// No detections.
    pub fn new() -> (r: DetectionsMap)
        ensures
            r.detections@ == Map::<u64, Detection>::empty(),
            r.sources@ == Map::<u64, Detection>::empty(),
    {
        DetectionsMap { detections: HashMap::new(), sources: HashMap::new() }
    }

    /// Takes `detection` for the entity `id`, unless the one held for it
    /// is as near or nearer.
    pub fn add_detection(&mut self, id: u64, detection: Detection)
        ensures
            final(self).detections@ == old(self).detections@.insert(
                id,
                if old(self).detections@.contains_key(id) {
                    nearer_of(old(self).detections@[id], detection)
                } else {
                    detection
                },
            ),
            final(self).sources@ == old(self).sources@,
    {
        let actual = match self.detections.get(&id) {
            Some(held) => {
                if held.distance.gt(detection.distance) {
                    detection
                } else if held.distance.le(detection.distance) {
                    Detection::new(held.distance, held.angle, held.pos)
                } else {
                    let nan = Scalar { bits: NAN_BITS };
                    Detection::new(nan, nan, Point { x: nan, y: nan })
                }
            },
            None => detection,
        };
        self.detections.insert(id, actual);
    }

    /// Forgets every detection of an agent.
    pub fn clear(&mut self)
        ensures
            final(self).detections@ == Map::<u64, Detection>::empty(),
            final(self).sources@ == old(self).sources@,
    {
        self.detections.clear();
    }

    /// Forgets the detection of the entity `id`.
    pub fn remove_detection(&mut self, id: u64)
        ensures
            final(self).detections@ == old(self).detections@.remove(id),
            final(self).sources@ == old(self).sources@,
    {
        let _ = self.detections.remove(&id);
    }

    /// The detection of the entity `id`.
    pub fn get_detection(&self, id: u64) -> (r: Option<&Detection>)
        ensures
            match r {
                Some(d) => self.detections@.contains_key(id) && self.detections@[id] == *d,
                None => !self.detections@.contains_key(id),
            },
    {
        self.detections.get(&id)
    }
}

/// A contact: the direction to push along, how deep, and with what.
#[derive(Clone, Copy, Debug, PartialEq, Eq, Structural)]
pub struct Hit {
    pub normal: Point,
    pub overlap: Scalar,
    pub target_type: ObjectType,
    pub target_id: u64,
}

/// The contact of each entity, by key.
pub struct CollisionsMap {
    pub contacts: HashMap<u64, Hit>,
}

impl CollisionsMap {
    /// No contacts.
    pub fn new() -> (r: CollisionsMap)
        ensures
            r.contacts@ == Map::<u64, Hit>::empty(),
    {
        CollisionsMap { contacts: HashMap::new() }
    }

    /// Takes `hit` for the entity `id`, in place of any held for it.
    pub fn add_collision(&mut self, id: u64, hit: Hit)
        ensures
            final(self).contacts@ == old(self).contacts@.insert(id, hit),
    {
        self.contacts.insert(id, hit);
    }

    /// Forgets every contact.
    pub fn clear(&mut self)
        ensures
            final(self).contacts@ == Map::<u64, Hit>::empty(),
    {
        self.contacts.clear();
    }

    /// Forgets the contact of the entity `id`.
    pub fn remove_collision(&mut self, id: u64)
        ensures
            final(self).contacts@ == old(self).contacts@.remove(id),
    {
        let _ = self.contacts.remove(&id);
    }

    /// The contact of the entity `id`.
    pub fn get_collision(&self, id: u64) -> (r: Option<&Hit>)
        ensures
            match r {
                Some(hit) => self.contacts@.contains_key(id) && self.contacts@[id] == *hit,
                None => !self.contacts@.contains_key(id),
            },
    {
        self.contacts.get(&id)
    }
}

/// The contacts of one entity.
pub struct Collisions {
    pub collisions: Vec<Hit>,
}

/// The contacts of each entity, by number.
pub struct CollisionsList {
    pub collisions: HashMap<u32, Collisions>,
}

} // verus!
