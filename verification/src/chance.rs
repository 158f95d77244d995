//! The boundary with `rand`: what this crate draws at random.
//!
//! Neither function is proved. Each contract states what holds of every
//! draw.
use rand::Rng;
use vstd::prelude::*;

verus! {

/// A key for a new entity, from `rand::Rng::gen` on the thread's generator.
#[verifier::external_body]
pub(crate) fn random_key() -> u64 {
    rand::thread_rng().gen::<u64>()
}

/// A number below `limit`, from `rand::Rng::gen_range` on the thread's
/// generator, which panics on an empty range.
#[verifier::external_body]
pub(crate) fn random_below(limit: u64) -> (r: u64)
    requires
        limit > 0,
    ensures
        r < limit,
{
    rand::thread_rng().gen_range(0..limit)
}

} // verus!
