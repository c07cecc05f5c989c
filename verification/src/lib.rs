//! A verified path-tracing renderer over fixed-point arithmetic.
//!
//! Every real quantity (coordinate, direction component, colour channel)
//! is represented by a 64-bit scaled integer: the integer `v` stands for
//! the real number `v / SCALE`.  All geometry, material, camera, integrator
//! and image-buffer logic is carried out exactly on these integers, so each
//! function's result is pinned down by its contract.

use vstd::prelude::*;

pub mod fixed;
pub mod vec3;
pub mod ray;
pub mod rng;
pub mod geometry;
pub mod material;
pub mod object;
pub mod integrator;
pub mod camera;
pub mod render;
pub mod codec;
pub mod scene;

pub use camera::Camera;
pub use geometry::Sphere;
pub use material::{Dielectric, Lambertian, Material, Metal};
pub use object::{Intersection, Object};
pub use ray::Ray;
pub use render::render;
pub use rng::Rng;
pub use vec3::Vec3;

verus! {

} // verus!
