//! Approximates a target raster image by stochastic hill climbing over line
//! primitives: random colored line segments are proposed, scored by how much
//! they change the squared-error distance to the target, and kept only when
//! they improve the approximation.

pub mod canvas;
pub mod compose;
pub mod loss;
pub mod raster;
pub mod search;
