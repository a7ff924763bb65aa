//! The result record of a successful ray/geometry intersection, with the
//! front-face normal convention applied uniformly at construction.

use vstd::prelude::*;

use crate::fixed::lemma_fxm_neg;
use crate::ray::Ray;
use crate::vec3::{dot3, Point3, Vec3};

verus! {

/// Produced only on a successful intersection. The stored `normal` is the
/// outward normal re-oriented so that it always opposes the incoming ray.
#[derive(Clone, Copy, Debug)]
pub struct HitRecord {
    pub p: Point3,
    pub normal: Vec3,
    pub t: i64,
    pub front_face: bool,
}

impl HitRecord {
    /// Build a record from the hit point, ray parameter, ray, and *outward*
    /// normal. `front_face` is true exactly when the ray direction and the
    /// outward normal point against each other; the stored normal is flipped
    /// when the ray hits from the inside, so its dot product with the ray
    /// direction is never positive.
    pub fn new(p: Point3, t: i64, ray: &Ray, outward_normal: &Vec3) -> (r: Self)
        requires
            -0x4000_0000_0000_0000 <= outward_normal.x <= 0x4000_0000_0000_0000,
            -0x4000_0000_0000_0000 <= outward_normal.y <= 0x4000_0000_0000_0000,
            -0x4000_0000_0000_0000 <= outward_normal.z <= 0x4000_0000_0000_0000,
        ensures
            r.p == p,
            r.t == t,
            r.front_face == (dot3(ray.direction, *outward_normal) < 0),
            r.front_face ==> r.normal == *outward_normal,
            !r.front_face ==> r.normal.x == -outward_normal.x && r.normal.y == -outward_normal.y
                && r.normal.z == -outward_normal.z,
            dot3(ray.direction, r.normal) <= 0,
    {
        let dx: i128 = crate::fixed::fx_mul_wide(ray.direction.x, outward_normal.x);
        let dy: i128 = crate::fixed::fx_mul_wide(ray.direction.y, outward_normal.y);
        let dz: i128 = crate::fixed::fx_mul_wide(ray.direction.z, outward_normal.z);
        proof {
            lemma_dot_terms_wide(ray.direction, *outward_normal);
        }
        let front_face: bool = dx + dy + dz < 0;
        let normal = if front_face {
            *outward_normal
        } else {
            let n = outward_normal.neg();
            proof {
                lemma_fxm_neg(ray.direction.x as int, outward_normal.x as int);
                lemma_fxm_neg(ray.direction.y as int, outward_normal.y as int);
                lemma_fxm_neg(ray.direction.z as int, outward_normal.z as int);
                assert(dot3(ray.direction, n) == -dot3(ray.direction, *outward_normal));
            }
            n
        };
        HitRecord { p, normal, t, front_face }
    }
}

/// The three wide dot-product terms stay far from the `i128` limits.
proof fn lemma_dot_terms_wide(a: Vec3, b: Vec3)
    ensures
        -0x4000_0000_0000_0000_0000_0000_0000 <= crate::fixed::fxm(a.x as int, b.x as int)
            <= 0x4000_0000_0000_0000_0000_0000_0000,
        -0x4000_0000_0000_0000_0000_0000_0000 <= crate::fixed::fxm(a.y as int, b.y as int)
            <= 0x4000_0000_0000_0000_0000_0000_0000,
        -0x4000_0000_0000_0000_0000_0000_0000 <= crate::fixed::fxm(a.z as int, b.z as int)
            <= 0x4000_0000_0000_0000_0000_0000_0000,
{
    crate::fixed::lemma_fxm_bound(a.x as int, b.x as int, 0x8000_0000_0000_0000, 0x8000_0000_0000_0000);
    crate::fixed::lemma_fxm_bound(a.y as int, b.y as int, 0x8000_0000_0000_0000, 0x8000_0000_0000_0000);
    crate::fixed::lemma_fxm_bound(a.z as int, b.z as int, 0x8000_0000_0000_0000, 0x8000_0000_0000_0000);
}

} // verus!
