//! A small ray tracer over exact fixed-point arithmetic.
//!
//! Scalars are 48.16 fixed-point numbers stored in `i64`: a raw value `v`
//! stands for the real number `v / 65536`. Every arithmetic operation has an
//! exact integer specification, so the whole rendering pipeline — ray/sphere
//! intersection, closest-hit aggregation, recursive shading and color
//! quantization — is verified against exact contracts.

pub mod camera;
pub mod color;
pub mod fixed;
pub mod sampling;
pub mod sphere;
pub mod hittable;
pub mod hittable_list;
pub mod interval;
pub mod ray;
pub mod vec3;

use vstd::prelude::*;

verus! {

/// Rejected degenerate geometry: a sphere with a nonpositive (or outsized)
/// radius, an off-range center, or an empty or outsized image.
#[derive(Clone, Copy, Debug, PartialEq, Eq, Structural)]
pub struct InvalidGeometry;

} // verus!
