//! Dense matrices over any copyable entry type: construction, shape
//! transforms, the determinant by cofactor expansion, elementary row
//! operations, row reduction to echelon form, and a column-aligned text
//! layout of formatted entries.
pub mod determinant;
pub mod echelon;
pub mod elimination;
pub mod matrix;
pub mod render;

pub use matrix::Matrix;
pub use render::render;
