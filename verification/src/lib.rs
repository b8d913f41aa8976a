//! Rendering core of a physically based offline ray tracer, built on exact
//! arithmetic: scene coordinates are integers (world units at the caller's
//! chosen scale) and parametric distances along a ray are exact rationals.
//! Quantities whose values are irrational (square roots, trigonometry, pi)
//! belong to the unverified shell around this crate.

pub mod aabb;
pub mod aarect;
pub mod bvh;
pub mod constant_medium;
pub mod cube;
pub mod hittable;
pub mod material;
pub mod num;
pub mod pdf;
pub mod ray;
pub mod render;
pub mod triangle;
pub mod util;
pub mod vec3;
