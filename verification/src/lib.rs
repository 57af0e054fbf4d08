//! Dense 2-D matrices over integer element types, with verified
//! arithmetic operators, transpose, identity construction, and a
//! lossless widening conversion between element widths.

pub mod common;
pub mod matrix;
pub mod model;
pub mod wide_matrix;

pub use common::int_identity;
pub use matrix::{DimensionError, Matrix, MatrixIterator};
pub use model::MatView;
pub use wide_matrix::{WideMatrix, WideMatrixIterator};
