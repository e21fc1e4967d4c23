//! Dense feed-forward networks trained by backpropagation, and a pair of
//! them trained against each other.
//!
//! A network is generic over its scalar: `scalar` names the arithmetic,
//! `fixed` is a scalar in saturating fixed-point arithmetic, and `noise` is
//! where random scalars come from. `model` says in mathematical terms what
//! evaluating and training a network mean; `dnn` holds the network itself and
//! `gan` the adversarial pair, with contracts over that model. `laws` holds
//! what follows for every network, and `mnist` reads digit images and labels
//! and runs whole epochs.

pub mod scalar;
pub mod fixed;
pub mod noise;
pub mod error;
pub mod activation;
pub mod model;
pub mod dnn;
pub mod gan;
pub mod laws;
pub mod mnist;
