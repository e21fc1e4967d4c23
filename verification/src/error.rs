use vstd::prelude::*;

verus! {

/// Why a network, or a pair of networks, could not be built.
#[derive(Clone, Copy, Debug, PartialEq, Eq, Structural)]
pub enum BuildError {
    /// A topology has fewer than two layers, or a layer without nodes.
    DegenerateTopology,
    /// The discriminator does not end in a single node, or the generator
    /// does not end in as many nodes as the discriminator starts with.
    ShapeMismatch,
}

} // verus!
