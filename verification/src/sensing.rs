//! Choosing the nearest of the bodies that a sensor reports.
use crate::scalar::{Scalar, INFINITY_BITS};
use crate::solver::BodyHandle;
use vstd::prelude::*;

verus! {

/// A sensed body and the distance to its centre.
#[derive(Clone, Copy, Debug, PartialEq, Eq, Structural)]
pub struct Detected {
    pub target_handle: BodyHandle,
    pub dist: Scalar,
}

/// The distance that a candidate has to beat: that of the best so far, or
/// infinity when there is none.
pub open spec fn distance_to_beat(best: Option<Detected>) -> Scalar {
    match best {
        Some(d) => d.dist,
        None => Scalar { bits: INFINITY_BITS },
    }
}

/// The nearest of the candidates: each one in turn replaces the best so far
/// if it is strictly nearer. So of several at the least distance the first
/// stays, and a candidate at an infinite distance, or at one that is not a
/// number, is never chosen.
pub open spec fn nearest_of(candidates: Seq<Detected>) -> Option<Detected>
    decreases candidates.len(),
{
    if candidates.len() == 0 {
        None
    } else {
        let best = nearest_of(candidates.drop_last());
        if candidates.last().dist.spec_lt(distance_to_beat(best)) {
            Some(candidates.last())
        } else {
            best
        }
    }
}

/// The best so far after one more candidate.
pub fn closer(best: Option<Detected>, candidate: Detected) -> (r: Option<Detected>)
    ensures
        r == (if candidate.dist.spec_lt(distance_to_beat(best)) {
            Some(candidate)
        } else {
            best
        }),
{
    let bound = match best {
        Some(d) => d.dist,
        None => Scalar { bits: INFINITY_BITS },
    };
    if candidate.dist.lt(bound) {
        Some(candidate)
    } else {
        best
    }
}

/// The nearest of the candidates, in the order in which they were found.
pub fn select_nearest(candidates: &Vec<Detected>) -> (r: Option<Detected>)
    ensures
        r == nearest_of(candidates@),
{
    let mut best: Option<Detected> = None;
    let mut i: usize = 0;
    while i < candidates.len()
        invariant
            i <= candidates.len(),
            best == nearest_of(candidates@.take(i as int)),
        decreases candidates.len() - i,
    {
        assert(candidates@.take(i + 1).drop_last() == candidates@.take(i as int));
        best = closer(best, candidates[i]);
        i = i + 1;
    }
    assert(candidates@.take(i as int) == candidates@);
    best
}

/// What the chosen candidate is: one of the candidates, at a finite
/// distance, with every earlier candidate strictly farther or at no
/// distance at all, and no later candidate strictly nearer.
pub proof fn lemma_nearest_is_first_minimum(candidates: Seq<Detected>)
    ensures
        match nearest_of(candidates) {
            Some(best) => exists|i: int|
                0 <= i < candidates.len() && candidates[i] == best
                    && best.dist.spec_lt(Scalar { bits: INFINITY_BITS })
                    && (forall|j: int| 0 <= j < i ==> !candidates[j].dist.spec_le(best.dist))
                    && (forall|j: int|
                    i <= j < candidates.len() ==> !candidates[j].dist.spec_lt(best.dist)),
            None => forall|j: int|
                0 <= j < candidates.len() ==> !candidates[j].dist.spec_lt(
                    Scalar { bits: INFINITY_BITS },
                ),
        },
    decreases candidates.len(),
{
    if candidates.len() > 0 {
        let init = candidates.drop_last();
        let last = candidates.last();
        let n = candidates.len() - 1;
        lemma_nearest_is_first_minimum(init);
        assert(forall|j: int| 0 <= j < n ==> init[j] == candidates[j]);
        match nearest_of(init) {
            Some(before) => {
                let i = choose|i: int|
                    0 <= i < init.len() && init[i] == before
                        && before.dist.spec_lt(Scalar { bits: INFINITY_BITS })
                        && (forall|j: int| 0 <= j < i ==> !init[j].dist.spec_le(before.dist))
                        && (forall|j: int| i <= j < init.len() ==> !init[j].dist.spec_lt(before.dist));
                if last.dist.spec_lt(before.dist) {
                    assert(candidates[n] == last);
                    assert forall|j: int| 0 <= j < n implies !candidates[j].dist.spec_le(last.dist) by {
                        if j < i {
                            assert(!init[j].dist.spec_le(before.dist));
                        } else {
                            assert(!init[j].dist.spec_lt(before.dist));
                        }
                    }
                } else {
                    assert(candidates[i] == before);
                    assert forall|j: int| i <= j < candidates.len() implies !candidates[j].dist.spec_lt(
                        before.dist,
                    ) by {
                        if j < n {
                            assert(!init[j].dist.spec_lt(before.dist));
                        }
                    }
                }
            },
            None => {
                if last.dist.spec_lt(Scalar { bits: INFINITY_BITS }) {
                    assert(candidates[n] == last);
                    assert forall|j: int| 0 <= j < n implies !candidates[j].dist.spec_le(last.dist) by {
                        assert(!init[j].dist.spec_lt(Scalar { bits: INFINITY_BITS }));
                    }
                } else {
                    assert forall|j: int| 0 <= j < candidates.len() implies !candidates[j].dist.spec_lt(
                        Scalar { bits: INFINITY_BITS },
                    ) by {
                        if j < n {
                            assert(!init[j].dist.spec_lt(Scalar { bits: INFINITY_BITS }));
                        }
                    }
                }
            },
        }
    }
}

} // verus!
