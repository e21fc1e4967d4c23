use vstd::prelude::*;
use crate::scalar::{Scalar, one};

verus! {

/// The logistic function `1 / (1 + e^-x)`.
pub open spec fn sigmoid_spec<S: Scalar>(x: S) -> S {
    one::<S>().over_spec(one::<S>().plus_spec(x.negate_spec().exp_spec()))
}

/// The slope of the logistic function at `x`, written over its value `y` at
/// `x` as `y * (1 - y)`.
pub open spec fn sigmoid_derivative_spec<S: Scalar>(x: S) -> S {
    sigmoid_spec(x).times_spec(one::<S>().minus_spec(sigmoid_spec(x)))
}

/// What a node emits for the weighted sum that reached it.
pub fn activation_function<S: Scalar>(value: S) -> (y: S)
    ensures
        y == sigmoid_spec(value),
{
    sigmoid(value)
}

/// The slope of the activation at the weighted sum that reached a node.
pub fn activation_derivative<S: Scalar>(value: S) -> (d: S)
    ensures
        d == sigmoid_derivative_spec(value),
{
    sigmoid_derivative(value)
}

/// The logistic function of `value`.
pub fn sigmoid<S: Scalar>(value: S) -> (y: S)
    ensures
        y == sigmoid_spec(value),
{
    let unit = S::from_int(1);
    unit.over(unit.plus(value.negate().exp()))
}

/// The slope of the logistic function at `value`.
pub fn sigmoid_derivative<S: Scalar>(value: S) -> (d: S)
    ensures
        d == sigmoid_derivative_spec(value),
{
    let y = sigmoid(value);
    y.times(S::from_int(1).minus(sigmoid(value)))
}

} // verus!
