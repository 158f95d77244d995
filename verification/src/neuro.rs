//! The stand-in for the network that decides what an agent does.
use vstd::prelude::*;

verus! {

/// A network without weights: it only knows how many outputs it has.
#[derive(Clone, Copy, Debug, PartialEq, Eq, Structural)]
pub struct DummyNetwork {
    outputs: usize,
}

impl DummyNetwork {
    /// The number of outputs.
    pub closed spec fn spec_outputs(&self) -> usize {
        self.outputs
    }

    /// A network with `outputs_num` outputs.
    pub fn new(outputs_num: usize) -> (network: DummyNetwork)
        ensures
            network.spec_outputs() == outputs_num,
    {
        DummyNetwork { outputs: outputs_num }
    }

    /// The number of outputs.
    pub fn outputs(&self) -> (count: usize)
        ensures
            count == self.spec_outputs(),
    {
        self.outputs
    }
}

} // verus!
