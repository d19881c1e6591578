//! Dense matrix algebra: parsing and formatting of matrices, determinants,
//! inverses, the arithmetic operators, and two solvers for linear systems.
//!
//! Entries are values of any type that implements [`Scalar`]. Every operation
//! is specified over the view of a matrix, the sequence of its rows, and over
//! the model functions that a scalar type gives for its arithmetic. The
//! results are therefore exact statements also for rounded arithmetic: they
//! say which operations are applied to which entries, and in what order.
//!
//! The modules, from the leaves up:
//!
//! - [`scalar`], [`error`]: the numbers and the failures;
//! - [`matrix`]: the matrix type, transpose and minors;
//! - [`text`], [`parse`], [`format`]: reading and writing;
//! - [`arith`], [`determinant`], [`solve`]: the algebra and the solvers;
//! - [`ring`], [`sums`], [`expansion`], [`adjugate`], [`systems`],
//!   [`elimination`], [`round_trip`]: what follows where the scalars are
//!   exact;
//! - [`laws`]: what holds of the operations, whatever the matrices.
pub mod adjugate;
pub mod arith;
pub mod determinant;
pub mod elimination;
pub mod error;
pub mod expansion;
pub mod format;
pub mod laws;
pub mod matrix;
pub mod parse;
pub mod ring;
pub mod round_trip;
pub mod scalar;
pub mod solve;
pub mod sums;
pub mod systems;
pub mod text;

pub use error::{DimensionError, ParseError};
pub use matrix::Matrix;
pub use scalar::{Gf2, Scalar, Text};
