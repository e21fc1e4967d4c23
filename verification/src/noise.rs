use vstd::prelude::*;
use crate::scalar::Scalar;
use crate::fixed::{Fixed, fraction};

verus! {

/// A source of random scalars.
///
/// Every draw lies in the unit interval, zero included and one excluded. It
/// is meant to be uniform over that interval and independent of the draws
/// before it; nothing that is proved about a network depends on that.
pub trait NoiseSource<S: Scalar> {
    fn draw(&mut self) -> (r: S)
        ensures
            r.is_unit_spec(),
    ;
}

/// A noise vector for a layer of `width` nodes: one scalar of the unit
/// interval for each node.
pub open spec fn is_noise<S: Scalar>(noise: Seq<S>, width: nat) -> bool {
    &&& noise.len() == width
    &&& forall|i: int| 0 <= i < noise.len() ==> (#[trigger] noise[i]).is_unit_spec()
}

/// The generator that the `rand` crate keeps for the calling thread, as a
/// source of fixed-point numbers.
pub struct ThreadNoise {}

/// Calls `rand::random::<u32>()`, which hands out the next 32-bit word of the
/// calling thread's generator. Nothing is claimed of the word.
#[verifier::external_body]
fn random_word() -> u32 {
    rand::random::<u32>()
}

impl NoiseSource<Fixed> for ThreadNoise {
    /// A random word, read as the 32 binary places of a number below one.
    fn draw(&mut self) -> (r: Fixed) {
        fraction(random_word())
    }
}

} // verus!
