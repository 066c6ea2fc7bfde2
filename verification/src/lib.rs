//! A small offline ray tracer over fixed-point arithmetic.
//!
//! Scalars are `i64` values scaled by `2^16`: the stored integer `x`
//! stands for the real number `x / 65536`. Every arithmetic step is
//! stated exactly over the integers, so each component of the pipeline
//! (vector math, ray/primitive intersection, scene traversal, material
//! scattering, the camera integration loop) carries a contract that
//! pins down its result.

pub mod camera;
pub mod fixed;
pub mod hittable;
pub mod image_handler;
pub mod hittable_list;
pub mod interval;
pub mod material;
pub mod plane;
pub mod ray;
pub mod rng;
pub mod sphere;
pub mod vec3;
