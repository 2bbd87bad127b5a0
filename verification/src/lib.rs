//! A ray tracer core: homogeneous tuple algebra, square-matrix inversion,
//! ray/sphere intersection and Phong shading, all over fixed-point numbers.
//!
//! Every quantity is an `i64` counting millionths (`fixed::SCALE` units per
//! 1.0), so the arithmetic is exact integer arithmetic with explicit rounding,
//! and every operation carries a contract that pins its result down.

pub mod fixed;
pub mod intersection;
pub mod lights;
pub mod material;
pub mod matrix;
pub mod ray;
pub mod sphere;
pub mod transformation;
pub mod tuple;
pub mod world;
