//! A Monte Carlo ray tracer over fixed-point arithmetic.
//!
//! Real quantities (coordinates, colors, parametric distances) are carried as
//! `i128` values scaled by `2^32`, so that every arithmetic step has an exact
//! integer meaning that contracts can state and proofs can track.

pub mod fx;
pub mod vec;
pub mod vec3;
pub mod color;
pub mod util;
pub mod rng;
pub mod ray;
pub mod hitrecord;
pub mod material;
pub mod figure;
pub mod world;
pub mod camera;
pub mod render;
pub mod laws;
