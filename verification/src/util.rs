//! Small things that the simulation shares.
use crate::consts::{WORLD_H, WORLD_W, WRAP_MARGIN};
use crate::scalar::Scalar;
use crate::solver::Point;
use vstd::prelude::*;

verus! {

/// Where a coordinate `v` goes that has left the range from 0 to `max` by
/// more than the margin: to the margin beyond the opposite edge.
pub open spec fn spec_around(v: Scalar, max: int) -> Scalar {
    if v.spec_gt(Scalar::of_int(max + WRAP_MARGIN)) {
        Scalar::of_int(-WRAP_MARGIN)
    } else if v.spec_lt(Scalar::of_int(-WRAP_MARGIN)) {
        Scalar::of_int(max + WRAP_MARGIN)
    } else {
        v
    }
}

/// The point `v`, with each coordinate that has left the arena by more
/// than the margin put at the margin beyond the opposite edge.
pub fn wrap_around(v: &Point) -> (r: Point)
    ensures
        r.x == spec_around(v.x, WORLD_W as int),
        r.y == spec_around(v.y, WORLD_H as int),
{
    let mut vr = Point { x: v.x, y: v.y };
    if vr.x.gt(Scalar::from_i16(WORLD_W + WRAP_MARGIN)) {
        vr.x = Scalar::from_i16(-WRAP_MARGIN);
    } else if vr.x.lt(Scalar::from_i16(-WRAP_MARGIN)) {
        vr.x = Scalar::from_i16(WORLD_W + WRAP_MARGIN);
    }
    if vr.y.gt(Scalar::from_i16(WORLD_H + WRAP_MARGIN)) {
        vr.y = Scalar::from_i16(-WRAP_MARGIN);
    } else if vr.y.lt(Scalar::from_i16(-WRAP_MARGIN)) {
        vr.y = Scalar::from_i16(WORLD_H + WRAP_MARGIN);
    }
    vr
}

/// What the panels ask of the simulation.
pub struct Signals {
    /// A new agent is wanted.
    pub spawn_agent: bool,
    /// A new simulation is wanted, under the name `new_sim_name`.
    pub new_sim: bool,
    pub new_sim_name: String,
}

impl Signals {
    /// No wishes.
    pub fn new() -> (signals: Signals)
        ensures
            !signals.spawn_agent,
            !signals.new_sim,
            signals.new_sim_name@ == Seq::<char>::empty(),
    {
        Signals { spawn_agent: false, new_sim: false, new_sim_name: String::new() }
    }
}

} // verus!
