//! The ways a matrix operation can be refused.
use vstd::prelude::*;

verus! {

/// Why a matrix operation was refused.
#[derive(Debug, Clone, Copy, PartialEq, Eq, Structural)]
pub enum MatrixError {
    /// Ragged or empty rows, or a flat list whose length does not match the shape.
    ShapeError,
    /// A grow to a smaller size, or a shrink to a larger one.
    InvalidResize,
    /// Operands whose shapes do not fit the operation.
    DimensionMismatch,
    /// A 1-based coordinate outside the matrix.
    IndexOutOfBounds,
    /// A block decomposition of a matrix with an odd dimension, or a block
    /// that is not 2 by 2.
    InvalidBlockShape,
}

} // verus!
