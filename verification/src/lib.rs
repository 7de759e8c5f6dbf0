//! A feedforward perceptron trainer over exact rational arithmetic: dense
//! matrices, ReLU activation, two-layer backpropagation and plain gradient
//! descent, with every arithmetic overflow surfaced as an explicit error.

use vstd::prelude::*;

pub mod activation;
pub mod array;
pub mod matrix;
pub mod perceptron;
pub mod rat;
pub mod trainer;

verus! {

/// The failures the numeric core can surface.
#[derive(Clone, Copy, Debug, PartialEq, Eq, Structural)]
pub enum Error {
    /// Incompatible matrix dimensions in a product or elementwise operation.
    ShapeMismatch,
    /// A value with no representable exact form; the analogue of a numerically
    /// corrupted state, surfaced at the operation instead of at the next pass.
    Overflow,
    /// A label outside `[0, num_classes)` during one-hot encoding.
    LabelOutOfRange,
}

} // verus!
