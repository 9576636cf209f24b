//! A dense two-dimensional matrix of machine integers, with row and column
//! access, structural mutation (row/column append, augmentation), elementary
//! row operations, Gauss-Jordan reduction to reduced row-echelon form, and a
//! validator for that form.

pub mod matrix;
pub mod rowalg;
pub mod rref;
pub mod views;
