//! Scalars, and the vectors, intervals and boxes built on them.

pub mod aabb;
pub mod interval;
pub mod scalar;
pub mod vec3;

pub use aabb::{Aabb, Axis};
pub use interval::Interval;
pub use scalar::Scalar;
pub use vec3::{vec3, Vec3};
