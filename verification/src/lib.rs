//! The discrete core of a CPU path tracer: pixel buffers and their division
//! into row stripes, image framing, ordered scalars with the interval and box
//! lattices built on them, nearest-hit selection, and the construction and
//! traversal of a bounding volume hierarchy.
//!
//! The library orders, selects and arranges values; it does no real
//! arithmetic of its own. Numeric kernels are supplied by the caller.

pub mod color;
pub mod image;
pub mod integrator;
pub mod material;
pub mod math;
pub mod primitives;
pub mod renderer;
