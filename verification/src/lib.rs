//! Fixed-shape vectors and matrices, and polynomials, over a scalar type:
//! arithmetic, row reduction, rank and inversion.
//!
//! The shapes are part of the types, so that operands of different shapes
//! do not meet. Every operation is a function of its arguments and gives a
//! new value. What a function returns is stated over the views of the
//! values: sequences of scalars for vectors and polynomials, sequences of
//! rows for matrices.
//!
//! - [`field`] holds the scalar abstraction and the algebraic laws that
//!   some results rest on; [`scalars`] makes scalars of the integer types.
//! - [`vector`], [`matrix`] and [`polynomial`] hold the types and their
//!   operations; [`graph`] holds adjacency matrices.
//! - [`reduction`] describes row reduction; [`echelon`] and [`inversion`]
//!   prove what it achieves; [`algebra`] holds the sums they are stated with.

pub mod algebra;
pub mod echelon;
pub mod error;
pub mod field;
pub mod graph;
pub mod inversion;
pub mod matrix;
pub mod polynomial;
pub mod reduction;
pub mod scalars;
pub mod vector;

pub use crate::matrix::{identity, madd, mdiv, mmul, mscale, msub, vmul, zero, Matrix};
pub use crate::vector::{dot, vadd, vdiv, vscale, vsub, Vector};
