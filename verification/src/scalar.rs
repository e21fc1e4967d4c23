use vstd::prelude::*;

verus! {

/// The arithmetic that a network is built on.
///
/// A network never looks inside a scalar: it only combines scalars through
/// the operations below. Each executable operation returns what the
/// specification function of the same name says of the same operands, so
/// whatever is proved about a network is stated over these functions.
/// `Fixed` is a scalar whose operations are proved to do so. For a scalar
/// type defined elsewhere, such as one over hardware floating point, the
/// proofs hold as far as its operations are functions of their operands; in
/// a build without ghost code it gives each specification function the body
/// of the operation that it describes.
pub trait Scalar: Sized + Copy {
    /// The scalar that stands for the integer `n`.
    spec fn from_int_spec(n: i32) -> Self;

    /// `self + rhs`.
    spec fn plus_spec(self, rhs: Self) -> Self;

    /// `self - rhs`.
    spec fn minus_spec(self, rhs: Self) -> Self;

    /// `self * rhs`.
    spec fn times_spec(self, rhs: Self) -> Self;

    /// `self / rhs`.
    spec fn over_spec(self, rhs: Self) -> Self;

    /// `-self`.
    spec fn negate_spec(self) -> Self;

    /// `e` raised to the power `self`.
    spec fn exp_spec(self) -> Self;

    /// Whether `self` is greater than `rhs`.
    spec fn greater_spec(self, rhs: Self) -> bool;

    /// Whether `self` and `rhs` are the same number.
    spec fn equals_spec(self, rhs: Self) -> bool;

    /// Whether `self` lies in the unit interval, zero included and one
    /// excluded.
    spec fn is_unit_spec(self) -> bool;

    fn from_int(n: i32) -> (r: Self)
        ensures
            r == Self::from_int_spec(n),
    ;

    fn plus(self, rhs: Self) -> (r: Self)
        ensures
            r == self.plus_spec(rhs),
    ;

    fn minus(self, rhs: Self) -> (r: Self)
        ensures
            r == self.minus_spec(rhs),
    ;

    fn times(self, rhs: Self) -> (r: Self)
        ensures
            r == self.times_spec(rhs),
    ;

    fn over(self, rhs: Self) -> (r: Self)
        ensures
            r == self.over_spec(rhs),
    ;

    fn negate(self) -> (r: Self)
        ensures
            r == self.negate_spec(),
    ;

    fn exp(self) -> (r: Self)
        ensures
            r == self.exp_spec(),
    ;

    fn greater(self, rhs: Self) -> (r: bool)
        ensures
            r == self.greater_spec(rhs),
    ;

    fn equals(self, rhs: Self) -> (r: bool)
        ensures
            r == self.equals_spec(rhs),
    ;
}

/// The scalar zero.
pub open spec fn zero<S: Scalar>() -> S {
    S::from_int_spec(0)
}

/// The scalar one.
pub open spec fn one<S: Scalar>() -> S {
    S::from_int_spec(1)
}

} // verus!
