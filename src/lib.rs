//! A small feed-forward neural network evaluator over exact integer arithmetic.
//!
//! Layers apply an affine map followed by an activation; a network chains them
//! after a leading input placeholder. Every shape rule is checked when a layer
//! or a network is built, and every arithmetic step of a forward pass is
//! checked for overflow.

pub mod error;
pub mod layers;
pub mod network;
