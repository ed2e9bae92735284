//! Flattening of a block-structured CAD drawing into 2D line primitives.
//!
//! Coordinates are exact integers in drawing units; scale factors and
//! rotations are fixed-point ratios over [`transform::UNIT`].
pub mod geom;
pub mod transform;
pub mod drawing;
pub mod flatten;
pub mod viewport;
