//! A stochastic path tracer core over verified fixed-point arithmetic.
//!
//! Scenes of analytic spheres are rendered by sampling camera rays, tracing
//! them through recursive intersection and material scattering, and averaging
//! the resulting radiance samples into pixel colors.  All geometry and
//! radiance values are carried as fixed-point numbers (see [`fixed`]), so
//! every arithmetic step has an exact, machine-checked meaning.

pub mod camera;
pub mod fixed;
pub mod hittable;
pub mod hittable_list;
pub mod material;
pub mod ray;
pub mod rng;
pub mod sphere;
pub mod vec3;

pub use fixed::SCALE;
