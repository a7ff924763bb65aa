//! A ray: origin plus direction, with point-at-parameter evaluation.

use vstd::prelude::*;

use crate::fixed::fxm;
use crate::vec3::{Point3, Vec3};

verus! {

/// A single ray
#[derive(Clone, Copy, Debug)]
pub struct Ray {
    pub origin: Point3,
    pub direction: Vec3,
}

/// The ray's origin is an admissible point and its direction has admissible
/// components; every ray the camera or the shading loop produces satisfies
/// this.
pub open spec fn ray_in_range(r: Ray) -> bool {
    crate::vec3::vec_in_coord_range(r.origin) && crate::vec3::vec_in_dir_range(r.direction)
}

/// The components of `origin + t * direction` in fixed-point arithmetic.
pub open spec fn at_x(r: Ray, t: int) -> int {
    r.origin.x + fxm(t, r.direction.x as int)
}

pub open spec fn at_y(r: Ray, t: int) -> int {
    r.origin.y + fxm(t, r.direction.y as int)
}

pub open spec fn at_z(r: Ray, t: int) -> int {
    r.origin.z + fxm(t, r.direction.z as int)
}

impl Ray {
    /// Create a new `Ray` starting in the given origin and moving in the
    /// given direction.
    pub fn new(origin: Point3, direction: Vec3) -> (r: Self)
        ensures
            r.origin == origin,
            r.direction == direction,
    {
        Ray { origin, direction }
    }

    /// Get the origin of this `Ray`.
    pub fn origin(&self) -> (r: Point3)
        ensures
            r == self.origin,
    {
        self.origin
    }

    /// Get the direction of this `Ray`.
    pub fn direction(&self) -> (r: Point3)
        ensures
            r == self.direction,
    {
        self.direction
    }

    /// Calculate the position of a `Ray` after a given time.
    pub fn at(&self, t: i64) -> (p: Vec3)
        requires
            i64::MIN <= at_x(*self, t as int) <= i64::MAX,
            i64::MIN <= at_y(*self, t as int) <= i64::MAX,
            i64::MIN <= at_z(*self, t as int) <= i64::MAX,
        ensures
            p.x == at_x(*self, t as int),
            p.y == at_y(*self, t as int),
            p.z == at_z(*self, t as int),
    {
        let px: i128 = (self.origin.x as i128) + crate::fixed::fx_mul_wide(t, self.direction.x);
        let py: i128 = (self.origin.y as i128) + crate::fixed::fx_mul_wide(t, self.direction.y);
        let pz: i128 = (self.origin.z as i128) + crate::fixed::fx_mul_wide(t, self.direction.z);
        proof {
            crate::fixed::lemma_fxm_bound(
                t as int,
                self.direction.x as int,
                0x8000_0000_0000_0000,
                0x8000_0000_0000_0000,
            );
            crate::fixed::lemma_fxm_bound(
                t as int,
                self.direction.y as int,
                0x8000_0000_0000_0000,
                0x8000_0000_0000_0000,
            );
            crate::fixed::lemma_fxm_bound(
                t as int,
                self.direction.z as int,
                0x8000_0000_0000_0000,
                0x8000_0000_0000_0000,
            );
        }
        Vec3 { x: px as i64, y: py as i64, z: pz as i64 }
    }
}

} // verus!
