//! The two kinds of failure that the operations report.
use vstd::prelude::*;

verus! {

/// Why a text could not be read as a matrix.
#[derive(Clone, Copy, Debug, PartialEq, Eq, Structural)]
pub enum ParseError {
    /// The text holds no row at all.
    EmptyInput,
    /// The first row holds no entry.
    EmptyRow,
    /// The entry at this row and column is not a number.
    InvalidNumber { row: usize, col: usize },
    /// This row does not have as many entries as the first row.
    InconsistentColumns { row: usize },
}

/// Why an operation does not apply to the matrices it was given.
#[derive(Clone, Copy, Debug, PartialEq, Eq, Structural)]
pub enum DimensionError {
    /// The operation needs a square matrix.
    NotSquare,
    /// The two operands do not have the same shape.
    Mismatch,
    /// The left operand has not as many columns as the right one has rows.
    Incompatible,
    /// The matrix is not a square system with one more column of constants.
    InvalidAugmented,
    /// The determinant is zero.
    Singular,
}

} // verus!
