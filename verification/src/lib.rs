//! The decision core of a Monte-Carlo path tracer.
//!
//! The crate holds the parts of the renderer that order, select and arrange:
//! the bounding-volume hierarchy and its traversal, the nearest-hit search,
//! the acceptance tests of the primitives and materials, and the pixel
//! schedule. Numbers are binary64 values carried by their bit patterns
//! (`scalar::Scalar`); the arithmetic on them is done by the caller.

pub mod scalar;
pub mod base;
pub mod ray;
pub mod aabb;
pub mod hit;
pub mod materials;
pub mod random;
pub mod render;
