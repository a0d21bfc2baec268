//! A dense row-major matrix library.
//!
//! A [`Matrix`] owns a rectangular grid of elements.  Structural
//! operations (append, row and column access, swap, transpose) are generic;
//! scalar and algebraic arithmetic, the determinant engine and the inverse
//! are provided for `i64` elements, elementwise predicates and transforms
//! for `String` elements, and logical operations for `bool` elements.

pub mod boolean;
pub mod list;
pub mod matrix;
pub mod num;

pub use crate::matrix::Matrix;
pub use crate::matrix::MatrixError;
