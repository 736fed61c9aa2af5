//! The core of a stochastic ray tracer, verified.
//!
//! Scalars are fixed-point integers (`fixed`): an `i64` counts units of `1 / ONE`.
//! `vec3` holds the vector algebra, `random` an explicitly passed generator and the
//! sampling distributions, `ray` the ray type, `camera` the thin-lens camera,
//! `integrator` the recursive light transport against a `World`, and `render` the
//! per-pixel accumulation and gamma encoding.

pub mod fixed;
pub mod vec3;
pub mod random;
pub mod ray;
pub mod integrator;
pub mod camera;
pub mod render;
