//! A stochastic path tracer over fixed-point arithmetic.
//!
//! Every quantity of the renderer (coordinates, colors, ray parameters) is a
//! fixed-point number: an `i64` count of steps of size `1 / SCALE`. All
//! arithmetic has exact floor semantics, so every stage of the pipeline --
//! ray generation, sphere intersection, nearest-hit selection, material
//! scattering and the recursive shading loop -- carries a contract that pins
//! its result down as a mathematical function of its inputs.

pub mod camera;
pub mod color;
pub mod fixed;
pub mod hittable;
pub mod hittable_list;
pub mod interval;
pub mod material;
pub mod ray;
pub mod rng;
pub mod sphere;
pub mod trig;
pub mod vec3;
