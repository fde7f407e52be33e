use vstd::prelude::*;

verus! {

/// Why a layer or a network could not be built, or an input not evaluated.
#[derive(Clone, Copy, Debug, PartialEq, Eq, Structural)]
pub enum NetError {
    /// The declared dimensions are empty or hold a zero.
    InvalidSpec,
    /// Parameter shapes disagree with each other or with a neighbouring layer.
    ShapeMismatch { expected: usize, actual: usize },
    /// An input vector does not have the length that the layer or network takes.
    DimensionMismatch { expected: usize, actual: usize },
    /// An intermediate value of the forward pass left the range of `i64`.
    Overflow,
}

} // verus!
