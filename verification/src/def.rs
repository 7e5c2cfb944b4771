pub mod maths;
pub mod text;
pub mod trigonometric;
pub mod vmatrix;
