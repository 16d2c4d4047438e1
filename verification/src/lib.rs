//! Exact rational matrices and the colour-conversion matrices derived from them.

pub mod error;
pub mod fraction;
pub mod inverse;
pub mod linalg;
pub mod matrix;
pub mod pipeline;
pub mod rational;
pub mod render;
pub mod report;
