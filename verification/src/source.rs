//! Sources of energy: round things that lie still and are drained.
use crate::chance::random_key;
use crate::consts::{WORLD_H, WORLD_W};
use crate::scalar::Scalar;
use crate::solver::Point;
use crate::util::{spec_around, wrap_around};
use std::collections::HashMap;
use vstd::prelude::*;
use vstd::std_specs::hash::group_hash_axioms;

verus! {

broadcast use group_hash_axioms;

/// The energy that a source holds for each unit of its size squared.
pub const ENERGY_PER_AREA: u64 = 10;

/// A source of energy.
#[derive(Clone, Copy, Debug, PartialEq, Eq, Structural)]
pub struct Source {
    pub pos: Point,
    pub rot: Scalar,
    pub size: u16,
    pub max_eng: u64,
    /// The energy left. One that is drained of more than it has is in debt
    /// until its next step.
    pub eng: i128,
    pub alife: bool,
}

impl Source {
    /// A live source of the given size at `pos`, with all its energy.
    pub fn new(pos: Point, size: u16) -> (source: Source)
        ensures
            source.pos == pos,
            source.rot == Scalar::of_int(0),
            source.size == size,
            source.max_eng == size * size * ENERGY_PER_AREA,
            source.eng == source.max_eng,
            source.alife,
    {
        assert(size * size <= 0xffff * 0xffff) by (nonlinear_arith)
            requires
                size <= 0xffff,
        ;
        let area: u64 = (size as u64) * (size as u64);
        let energy: u64 = area * ENERGY_PER_AREA;
        Source {
            pos,
            rot: Scalar::from_i16(0),
            size,
            max_eng: energy,
            eng: energy as i128,
            alife: true,
        }
    }

    /// The step of every tick: a source that has left the arena by more
    /// than the margin goes to the margin beyond the opposite edge, and a
    /// source without energy dies, and is quit of its debt.
    pub fn update(&mut self, _dt: u64)
        ensures
            final(self).pos.x == spec_around(old(self).pos.x, WORLD_W as int),
            final(self).pos.y == spec_around(old(self).pos.y, WORLD_H as int),
            final(self).alife == (old(self).alife && old(self).eng > 0),
            final(self).eng == (if old(self).eng > 0 {
                old(self).eng
            } else {
                0
            }),
            final(self).rot == old(self).rot,
            final(self).size == old(self).size,
            final(self).max_eng == old(self).max_eng,
    {
        self.pos = wrap_around(&self.pos);
        if self.eng <= 0 {
            self.eng = 0;
            self.alife = false;
        }
    }

    /// Takes `eng_loss` of the energy, into debt if there is less.
    pub fn drain_eng(&mut self, eng_loss: u64)
        requires
            old(self).eng - eng_loss >= i128::MIN,
        ensures
            final(self).eng == old(self).eng - eng_loss,
            *final(self) == (Source { eng: final(self).eng, ..*old(self) }),
    {
        self.eng = self.eng - (eng_loss as i128);
    }
}

/// The sources `held` with each of `sources` under the key of `keys` at
/// its place, taken in from the first to the last, so that of two under one
/// key the later stays.
pub open spec fn with_sources(held: Map<u64, Source>, keys: Seq<u64>, sources: Seq<Source>) -> Map<u64, Source>
    decreases sources.len(),
{
    if sources.len() == 0 || keys.len() != sources.len() {
        held
    } else {
        with_sources(held, keys.drop_last(), sources.drop_last()).insert(keys.last(), sources.last())
    }
}

/// The sources, by key.
pub struct SourcesBox {
    pub sources: HashMap<u64, Source>,
}

impl SourcesBox {
    /// A box without sources.
    pub fn new() -> (r: SourcesBox)
        ensures
            r.sources@ == Map::<u64, Source>::empty(),
    {
        SourcesBox { sources: HashMap::new() }
    }

    /// Takes each of `sources` in, as `add_source` does, from the first to
    /// the last: each under a key of its own, whatever keys are drawn.
    pub fn add_many(&mut self, sources: &Vec<Source>)
        ensures
            exists|keys: Seq<u64>|
                keys.len() == sources@.len() && final(self).sources@ == #[trigger] with_sources(
                    old(self).sources@,
                    keys,
                    sources@,
                ),
    {
        let ghost mut keys: Seq<u64> = Seq::empty();
        let mut i: usize = 0;
        while i < sources.len()
            invariant
                i <= sources.len(),
                keys.len() == i,
                self.sources@ == with_sources(old(self).sources@, keys, sources@.take(i as int)),
            decreases sources.len() - i,
        {
            let key = self.add_source(sources[i]);
            proof {
                let so_far = sources@.take(i + 1);
                assert(so_far.drop_last() == sources@.take(i as int));
                assert(so_far.last() == sources@[i as int]);
                assert(keys.push(key).drop_last() == keys);
                keys = keys.push(key);
            }
            i = i + 1;
        }
        assert(sources@.take(i as int) == sources@);
    }

    /// Takes `source` in under a fresh key, which is the result, in place
    /// of any source that had that key.
    pub fn add_source(&mut self, source: Source) -> (key: u64)
        ensures
            final(self).sources@ == old(self).sources@.insert(key, source),
    {
        let key: u64 = random_key();
        self.sources.insert(key, source);
        key
    }

    /// The source with the key `id`.
    pub fn get(&self, id: u64) -> (r: Option<&Source>)
        ensures
            match r {
                Some(source) => self.sources@.contains_key(id) && self.sources@[id] == *source,
                None => !self.sources@.contains_key(id),
            },
    {
        self.sources.get(&id)
    }

    /// Drops the source with the key `id`.
    pub fn remove(&mut self, id: u64)
        ensures
            final(self).sources@ == old(self).sources@.remove(id),
    {
        let _ = self.sources.remove(&id);
    }

    /// The number of sources.
    pub fn count(&self) -> (r: usize)
        ensures
            r == self.sources@.len(),
    {
        self.sources.len()
    }
}

} // verus!
