//! Ray/sphere intersection by the half-b quadratic formula, computed in
//! exact fixed-point arithmetic and specified to the last bit.

use vstd::prelude::*;

use crate::fixed::{
    fxd, fxm, is_sqrt, isqrt_u128, lemma_fxm_bound, lemma_fxm_square_nonneg, lemma_quot_mono,
    lemma_sqrt_exists, quot, quot_i128, sqrt_floor, FX_ONE,
};
use crate::hittable::HitRecord;
use crate::interval::Interval;
use crate::ray::{at_x, at_y, at_z, ray_in_range, Ray};
use crate::vec3::{dot3, vec_in_coord_range, Point3, Vec3, COORD_MAX};
use crate::InvalidGeometry;

verus! {

/// Largest raw magnitude a hit record's point or normal component may take;
/// a geometrically valid hit far beyond the admitted coordinate range is
/// reported as a miss rather than stored truncated.
pub const REC_MAX: i64 = 0x4000_0000_0000_0000;

#[derive(Clone, Copy, Debug)]
pub struct Sphere {
    pub center: Point3,
    pub radius: i64,
}

/// Components of `origin - center`, the quadratic's offset vector.
pub open spec fn oc_x(s: Sphere, r: Ray) -> int {
    r.origin.x - s.center.x
}

pub open spec fn oc_y(s: Sphere, r: Ray) -> int {
    r.origin.y - s.center.y
}

pub open spec fn oc_z(s: Sphere, r: Ray) -> int {
    r.origin.z - s.center.z
}

/// Quadratic coefficient `a = |direction|^2` (fixed-point).
pub open spec fn hit_a(r: Ray) -> int {
    dot3(r.direction, r.direction)
}

/// Quadratic half-coefficient `half_b = (origin - center) . direction`.
pub open spec fn hit_half_b(s: Sphere, r: Ray) -> int {
    fxm(oc_x(s, r), r.direction.x as int) + fxm(oc_y(s, r), r.direction.y as int) + fxm(
        oc_z(s, r),
        r.direction.z as int,
    )
}

/// Quadratic coefficient `c = |origin - center|^2 - radius^2`.
pub open spec fn hit_c(s: Sphere, r: Ray) -> int {
    fxm(oc_x(s, r), oc_x(s, r)) + fxm(oc_y(s, r), oc_y(s, r)) + fxm(oc_z(s, r), oc_z(s, r)) - fxm(
        s.radius as int,
        s.radius as int,
    )
}

/// Discriminant `half_b^2 - a * c` of the intersection quadratic.
pub open spec fn hit_disc(s: Sphere, r: Ray) -> int {
    fxm(hit_half_b(s, r), hit_half_b(s, r)) - fxm(hit_a(r), hit_c(s, r))
}

/// Fixed-point square root of the discriminant.
pub open spec fn hit_sqrtd(s: Sphere, r: Ray) -> int {
    sqrt_floor(hit_disc(s, r) * FX_ONE)
}

/// The smaller candidate root `(-half_b - sqrtd) / a`.
pub open spec fn root_near(s: Sphere, r: Ray) -> int {
    quot((-hit_half_b(s, r) - hit_sqrtd(s, r)) * FX_ONE, hit_a(r))
}

/// The larger candidate root `(-half_b + sqrtd) / a`.
pub open spec fn root_far(s: Sphere, r: Ray) -> int {
    quot((-hit_half_b(s, r) + hit_sqrtd(s, r)) * FX_ONE, hit_a(r))
}

/// Components of the outward normal `(p - center) / radius` at parameter `t`.
pub open spec fn normal_x(s: Sphere, r: Ray, t: int) -> int {
    fxd(at_x(r, t) - s.center.x, s.radius as int)
}

pub open spec fn normal_y(s: Sphere, r: Ray, t: int) -> int {
    fxd(at_y(r, t) - s.center.y, s.radius as int)
}

pub open spec fn normal_z(s: Sphere, r: Ray, t: int) -> int {
    fxd(at_z(r, t) - s.center.z, s.radius as int)
}

/// The record the quadratic yields at `t` is representable: hit point and
/// outward normal stay within `REC_MAX`.
pub open spec fn record_ok(s: Sphere, r: Ray, t: int) -> bool {
    &&& -REC_MAX <= at_x(r, t) <= REC_MAX
    &&& -REC_MAX <= at_y(r, t) <= REC_MAX
    &&& -REC_MAX <= at_z(r, t) <= REC_MAX
    &&& -REC_MAX <= normal_x(s, r, t) <= REC_MAX
    &&& -REC_MAX <= normal_y(s, r, t) <= REC_MAX
    &&& -REC_MAX <= normal_z(s, r, t) <= REC_MAX
}

/// The root the intersection reports: the smaller root if the window
/// strictly surrounds it, else the larger root under the same test, else
/// none. A degenerate direction (`a == 0`) or a negative discriminant is a
/// miss.
pub open spec fn chosen_root(s: Sphere, r: Ray, tmin: int, tmax: int) -> Option<int> {
    if hit_a(r) == 0 || hit_disc(s, r) < 0 {
        None
    } else if tmin < root_near(s, r) < tmax {
        Some(root_near(s, r))
    } else if tmin < root_far(s, r) < tmax {
        Some(root_far(s, r))
    } else {
        None
    }
}

/// What `Sphere::hit` returns for window `(tmin, tmax)`: the chosen root,
/// provided its record is representable.
pub open spec fn sphere_hit(s: Sphere, r: Ray, tmin: int, tmax: int) -> Option<int> {
    match chosen_root(s, r, tmin, tmax) {
        Some(t) => if record_ok(s, r, t) {
            Some(t)
        } else {
            None
        },
        None => None,
    }
}

/// The fixed-point dot product of the ray direction with the outward normal
/// at `t`, which decides the front-face flag.
pub open spec fn outward_dot(s: Sphere, r: Ray, t: int) -> int {
    fxm(r.direction.x as int, normal_x(s, r, t)) + fxm(r.direction.y as int, normal_y(s, r, t))
        + fxm(r.direction.z as int, normal_z(s, r, t))
}

/// The returned record's fields are exactly those the quadratic dictates at
/// its parameter `hr.t`, with the front-face convention applied.
pub open spec fn record_matches(s: Sphere, r: Ray, hr: HitRecord) -> bool {
    &&& hr.p.x == at_x(r, hr.t as int)
    &&& hr.p.y == at_y(r, hr.t as int)
    &&& hr.p.z == at_z(r, hr.t as int)
    &&& hr.front_face == (outward_dot(s, r, hr.t as int) < 0)
    &&& (hr.front_face ==> hr.normal.x == normal_x(s, r, hr.t as int) && hr.normal.y == normal_y(
        s,
        r,
        hr.t as int,
    ) && hr.normal.z == normal_z(s, r, hr.t as int))
    &&& (!hr.front_face ==> hr.normal.x == -normal_x(s, r, hr.t as int) && hr.normal.y
        == -normal_y(s, r, hr.t as int) && hr.normal.z == -normal_z(s, r, hr.t as int))
    &&& dot3(r.direction, hr.normal) <= 0
}

impl Sphere {
    /// The sphere's geometry is admissible: positive, in-range radius and an
    /// in-range center.
    pub open spec fn wf(self) -> bool {
        vec_in_coord_range(self.center) && 0 < self.radius <= COORD_MAX
    }

    /// Create a new `Sphere`. Degenerate geometry — a nonpositive radius, or
    /// a radius or center beyond the admitted coordinate range — is rejected.
    pub fn new(center: Point3, radius: i64) -> (r: Result<Self, InvalidGeometry>)
        ensures
            (r is Ok) == (vec_in_coord_range(center) && 0 < radius <= COORD_MAX),
            r matches Ok(s) ==> s.center == center && s.radius == radius && s.wf(),
    {
        if radius <= 0 || radius > COORD_MAX || center.x < -COORD_MAX || center.x > COORD_MAX
            || center.y < -COORD_MAX || center.y > COORD_MAX || center.z < -COORD_MAX || center.z
            > COORD_MAX {
            Err(InvalidGeometry)
        } else {
            Ok(Sphere { center, radius })
        }
    }

    /// Intersect `ray` with this sphere, accepting only parameters strictly
    /// inside `ray_t`. Returns the record of the nearest accepted root, per
    /// `sphere_hit`.
    pub fn hit(&self, ray: &Ray, ray_t: &Interval) -> (r: Option<HitRecord>)
        requires
            self.wf(),
            ray_in_range(*ray),
        ensures
            match r {
                None => sphere_hit(*self, *ray, ray_t.min as int, ray_t.max as int) is None,
                Some(hr) => sphere_hit(*self, *ray, ray_t.min as int, ray_t.max as int) == Some(
                    hr.t as int,
                ) && record_matches(*self, *ray, hr),
            },
    {
        proof {
            lemma_hit_bounds(*self, *ray);
        }
        let dx = ray.direction.x;
        let dy = ray.direction.y;
        let dz = ray.direction.z;
        let ocx: i64 = ray.origin.x - self.center.x;
        let ocy: i64 = ray.origin.y - self.center.y;
        let ocz: i64 = ray.origin.z - self.center.z;
        let a: i64 = crate::fixed::fx_mul(dx, dx) + crate::fixed::fx_mul(dy, dy)
            + crate::fixed::fx_mul(dz, dz);
        let half_b: i64 = crate::fixed::fx_mul(ocx, dx) + crate::fixed::fx_mul(ocy, dy)
            + crate::fixed::fx_mul(ocz, dz);
        let c: i64 = crate::fixed::fx_mul(ocx, ocx) + crate::fixed::fx_mul(ocy, ocy)
            + crate::fixed::fx_mul(ocz, ocz) - crate::fixed::fx_mul(self.radius, self.radius);
        proof {
            assert(a == hit_a(*ray));
            assert(half_b == hit_half_b(*self, *ray));
            assert(c == hit_c(*self, *ray));
            lemma_fxm_bound(half_b as int, half_b as int, 0x60_0000_0000_0000, 0x60_0000_0000_0000);
            lemma_fxm_bound(a as int, c as int, 0x3_0000_0000_0000, 0x1000_0000_0000_0000);
        }
        let disc: i128 = crate::fixed::fx_mul_wide(half_b, half_b) - crate::fixed::fx_mul_wide(
            a,
            c,
        );
        if disc < 0 {
            return None;
        }
        if a == 0 {
            return None;
        }
        let nsq: u128 = (disc as u128) * 65536;
        let sqw: u128 = isqrt_u128(nsq);
        proof {
            assert(nsq as int == hit_disc(*self, *ray) * FX_ONE);
            assert(sqw < 0x100_0000_0000_0000u128) by (nonlinear_arith)
                requires
                    (sqw as int) * (sqw as int) <= nsq as int,
                    nsq as int <= 0x8000_0000_0000_0000_0000_0000 * 0x10000,
            ;
            assert(sqw as int == hit_sqrtd(*self, *ray));
        }
        let sq: i128 = sqw as i128;
        let neg_hb: i128 = -(half_b as i128);
        let num_near: i128 = (neg_hb - sq) * 65536;
        let root_n: i128 = quot_i128(num_near, a as i128);
        proof {
            assert(root_n == root_near(*self, *ray));
        }
        let tmin: i128 = ray_t.min as i128;
        let tmax: i128 = ray_t.max as i128;
        let root: i128 = if tmin < root_n && root_n < tmax {
            root_n
        } else {
            let num_far: i128 = (neg_hb + sq) * 65536;
            let root_f: i128 = quot_i128(num_far, a as i128);
            proof {
                assert(root_f == root_far(*self, *ray));
            }
            if tmin < root_f && root_f < tmax {
                root_f
            } else {
                return None;
            }
        };
        let t: i64 = root as i64;
        proof {
            assert(chosen_root(*self, *ray, ray_t.min as int, ray_t.max as int) == Some(
                root as int,
            ));
            lemma_fxm_bound(t as int, dx as int, 0x8000_0000_0000_0000, 0x1_0000_0000);
            lemma_fxm_bound(t as int, dy as int, 0x8000_0000_0000_0000, 0x1_0000_0000);
            lemma_fxm_bound(t as int, dz as int, 0x8000_0000_0000_0000, 0x1_0000_0000);
        }
        let px: i128 = (ray.origin.x as i128) + crate::fixed::fx_mul_wide(t, dx);
        let py: i128 = (ray.origin.y as i128) + crate::fixed::fx_mul_wide(t, dy);
        let pz: i128 = (ray.origin.z as i128) + crate::fixed::fx_mul_wide(t, dz);
        if px < -(REC_MAX as i128) || px > (REC_MAX as i128) || py < -(REC_MAX as i128) || py > (
        REC_MAX as i128) || pz < -(REC_MAX as i128) || pz > (REC_MAX as i128) {
            return None;
        }
        let nx: i128 = quot_i128((px - self.center.x as i128) * 65536, self.radius as i128);
        let ny: i128 = quot_i128((py - self.center.y as i128) * 65536, self.radius as i128);
        let nz: i128 = quot_i128((pz - self.center.z as i128) * 65536, self.radius as i128);
        proof {
            assert(nx == normal_x(*self, *ray, t as int));
            assert(ny == normal_y(*self, *ray, t as int));
            assert(nz == normal_z(*self, *ray, t as int));
        }
        if nx < -(REC_MAX as i128) || nx > (REC_MAX as i128) || ny < -(REC_MAX as i128) || ny > (
        REC_MAX as i128) || nz < -(REC_MAX as i128) || nz > (REC_MAX as i128) {
            return None;
        }
        let p = Vec3 { x: px as i64, y: py as i64, z: pz as i64 };
        let outward = Vec3 { x: nx as i64, y: ny as i64, z: nz as i64 };
        let hr = HitRecord::new(p, t, ray, &outward);
        proof {
            assert(record_ok(*self, *ray, t as int));
            assert(sphere_hit(*self, *ray, ray_t.min as int, ray_t.max as int) == Some(t as int));
            assert(outward_dot(*self, *ray, t as int) == dot3(ray.direction, outward));
            assert(record_matches(*self, *ray, hr));
        }
        Some(hr)
    }
}

/// Either no hit, or a hit no nearer than `t`.
pub open spec fn none_or_at_least(o: Option<int>, t: int) -> bool {
    match o {
        None => true,
        Some(u) => t <= u,
    }
}

/// Either no hit, or a hit strictly beyond `t`.
pub open spec fn none_or_beyond(o: Option<int>, t: int) -> bool {
    match o {
        None => true,
        Some(u) => t < u,
    }
}

/// The quadratic coefficient `a` is a sum of squares, hence nonnegative.
pub proof fn lemma_hit_a_nonneg(r: Ray)
    ensures
        0 <= hit_a(r),
{
    lemma_fxm_square_nonneg(r.direction.x as int);
    lemma_fxm_square_nonneg(r.direction.y as int);
    lemma_fxm_square_nonneg(r.direction.z as int);
}

/// With a positive `a` and a nonnegative discriminant, the near root never
/// exceeds the far root.
pub proof fn lemma_roots_ordered(s: Sphere, r: Ray)
    requires
        0 < hit_a(r),
        0 <= hit_disc(s, r),
    ensures
        0 <= hit_sqrtd(s, r),
        root_near(s, r) <= root_far(s, r),
{
    lemma_sqrt_exists(hit_disc(s, r) * FX_ONE);
    let sq = hit_sqrtd(s, r);
    let hb = hit_half_b(s, r);
    lemma_quot_mono((-hb - sq) * FX_ONE, (-hb + sq) * FX_ONE, hit_a(r));
}

/// Widening the far end of a window that already accepts a root does not
/// change the reported hit: the same root stays the nearest accepted one.
pub proof fn lemma_hit_window_up(s: Sphere, r: Ray, tmin: int, t1: int, t2: int)
    requires
        t1 <= t2,
        sphere_hit(s, r, tmin, t1) is Some,
    ensures
        sphere_hit(s, r, tmin, t2) == sphere_hit(s, r, tmin, t1),
{
    lemma_hit_a_nonneg(r);
    lemma_roots_ordered(s, r);
}

/// If the window up to `t1` reports a miss, any hit a wider window reports
/// lies at or beyond `t1`.
pub proof fn lemma_hit_window_none(s: Sphere, r: Ray, tmin: int, t1: int, t2: int)
    requires
        t1 <= t2,
        sphere_hit(s, r, tmin, t1) is None,
    ensures
        none_or_at_least(sphere_hit(s, r, tmin, t2), t1),
{
    lemma_hit_a_nonneg(r);
    if hit_a(r) != 0 && hit_disc(s, r) >= 0 {
        lemma_roots_ordered(s, r);
    }
}

/// A reported hit parameter lies strictly inside the query window.
pub proof fn lemma_hit_in_window(s: Sphere, r: Ray, tmin: int, tmax: int)
    requires
        sphere_hit(s, r, tmin, tmax) is Some,
    ensures
        none_or_at_least(sphere_hit(s, r, tmin, tmax), tmin + 1),
        sphere_hit(s, r, tmin, tmax) matches Some(t) && tmin < t < tmax,
{
}

/// Each candidate root solves its quadratic-formula equation
/// `a * t == (-half_b -/+ sqrtd) * FX_ONE` to within one division step, and
/// the fixed-point `sqrtd` squares back to the discriminant to within one
/// rounding step. Together these pin every reported hit parameter to the
/// exact real root of `|R(t) - center|^2 == radius^2` (as posed over the
/// fixed-point coefficients) up to truncation error.
pub proof fn lemma_roots_solve_quadratic(s: Sphere, r: Ray)
    requires
        0 < hit_a(r),
        0 <= hit_disc(s, r),
    ensures
        is_sqrt(hit_disc(s, r) * FX_ONE, hit_sqrtd(s, r)),
        -hit_a(r) < hit_a(r) * root_near(s, r) - (-hit_half_b(s, r) - hit_sqrtd(s, r)) * FX_ONE
            < hit_a(r),
        -hit_a(r) < hit_a(r) * root_far(s, r) - (-hit_half_b(s, r) + hit_sqrtd(s, r)) * FX_ONE
            < hit_a(r),
{
    lemma_sqrt_exists(hit_disc(s, r) * FX_ONE);
    crate::fixed::lemma_quot_residual(
        (-hit_half_b(s, r) - hit_sqrtd(s, r)) * FX_ONE,
        hit_a(r),
    );
    crate::fixed::lemma_quot_residual(
        (-hit_half_b(s, r) + hit_sqrtd(s, r)) * FX_ONE,
        hit_a(r),
    );
}

/// On-surface up to truncation: at each candidate root `t` the intersection
/// quadratic `a*t^2 + 2*half_b*FX_ONE*t + c*FX_ONE^2` — whose exact real
/// vanishing says `|R(t) - center|^2 == radius^2` over the fixed-point
/// coefficients — evaluates, scaled by `a`, to within
/// `2*sqrtd*FX_ONE*(FX_ONE + a) + a^2 + 2*FX_ONE^3` of zero. The error
/// collects one truncation step from each of the discriminant products, the
/// square root and the root division, and nothing more.
pub proof fn lemma_root_on_quadratic(s: Sphere, r: Ray, t: int)
    requires
        0 < hit_a(r),
        0 <= hit_disc(s, r),
        t == root_near(s, r) || t == root_far(s, r),
    ensures
        ({
            let a = hit_a(r);
            let hb = hit_half_b(s, r);
            let c = hit_c(s, r);
            let sq = hit_sqrtd(s, r);
            let q = a * (t * t) + 2 * hb * FX_ONE * t + c * (FX_ONE * FX_ONE);
            let bound = 2 * sq * FX_ONE * (FX_ONE + a) + a * a + 2 * (FX_ONE * FX_ONE * FX_ONE);
            -bound <= a * q <= bound
        }),
{
    let a = hit_a(r);
    let hb = hit_half_b(s, r);
    let c = hit_c(s, r);
    let disc = hit_disc(s, r);
    let sq = hit_sqrtd(s, r);
    let q = a * (t * t) + 2 * hb * FX_ONE * t + c * (FX_ONE * FX_ONE);
    crate::fixed::lemma_quot_residual(hb * hb, FX_ONE as int);
    crate::fixed::lemma_quot_residual(a * c, FX_ONE as int);
    lemma_sqrt_exists(disc * FX_ONE);
    let m: int = if t == root_near(s, r) {
        -sq
    } else {
        sq
    };
    if t == root_near(s, r) {
        assert((-hb + m) * FX_ONE == (-hb - sq) * FX_ONE);
    }
    crate::fixed::lemma_quot_residual((-hb + m) * FX_ONE, a);
    let e = a * t - (-hb + m) * FX_ONE;
    assert(-a < e < a);
    let tau = disc * FX_ONE - sq * sq;
    assert(0 <= tau <= 2 * sq) by (nonlinear_arith)
        requires
            tau == disc * FX_ONE - sq * sq,
            sq * sq <= disc * FX_ONE,
            disc * FX_ONE < (sq + 1) * (sq + 1),
            0 <= sq,
    ;
    // The discriminant's products each truncate by less than one step.
    let rr = FX_ONE * disc - (hb * hb - a * c);
    assert(-2 * FX_ONE < rr < 2 * FX_ONE) by (nonlinear_arith)
        requires
            disc == fxm(hb, hb) - fxm(a, c),
            -FX_ONE < FX_ONE * fxm(hb, hb) - hb * hb < FX_ONE,
            -FX_ONE < FX_ONE * fxm(a, c) - a * c < FX_ONE,
            rr == FX_ONE * disc - (hb * hb - a * c),
    ;
    // Ring identity for the scaled quadratic, in small steps.
    assert(a * q == (a * t) * (a * t) + 2 * hb * FX_ONE * (a * t) + (a * c) * (FX_ONE * FX_ONE))
        by (nonlinear_arith)
        requires
            q == a * (t * t) + 2 * hb * FX_ONE * t + c * (FX_ONE * FX_ONE),
    ;
    assert((a * t + hb * FX_ONE) * (a * t + hb * FX_ONE) == (a * t) * (a * t) + 2 * hb * FX_ONE * (
    a * t) + (hb * FX_ONE) * (hb * FX_ONE)) by (nonlinear_arith);
    assert((hb * FX_ONE) * (hb * FX_ONE) == (FX_ONE * FX_ONE) * (hb * hb)) by (nonlinear_arith);
    assert((a * c) * (FX_ONE * FX_ONE) == (FX_ONE * FX_ONE) * (a * c)) by (nonlinear_arith);
    assert(a * q == (a * t + hb * FX_ONE) * (a * t + hb * FX_ONE) - (FX_ONE * FX_ONE) * (hb * hb)
        + (FX_ONE * FX_ONE) * (a * c));
    assert(a * t + hb * FX_ONE == m * FX_ONE + e);
    assert((m * FX_ONE + e) * (m * FX_ONE + e) == (sq * sq) * (FX_ONE * FX_ONE) + 2 * (m * FX_ONE
        * e) + e * e) by (nonlinear_arith)
        requires
            m == sq || m == -sq,
    ;
    assert(-(2 * sq * FX_ONE * a) <= 2 * (m * FX_ONE * e) <= 2 * sq * FX_ONE * a)
        by (nonlinear_arith)
        requires
            -a < e < a,
            m == sq || m == -sq,
            0 <= sq,
            0 < a,
    ;
    assert(0 <= e * e <= a * a) by (nonlinear_arith)
        requires
            -a < e < a,
    ;
    assert((sq * sq) * (FX_ONE * FX_ONE) == disc * (FX_ONE * FX_ONE * FX_ONE) - tau * (FX_ONE
        * FX_ONE)) by (nonlinear_arith)
        requires
            tau == disc * FX_ONE - sq * sq,
    ;
    assert((FX_ONE * FX_ONE) * (hb * hb) - (FX_ONE * FX_ONE) * (a * c) == disc * (FX_ONE * FX_ONE
        * FX_ONE) - rr * (FX_ONE * FX_ONE)) by (nonlinear_arith)
        requires
            rr == FX_ONE * disc - (hb * hb - a * c),
    ;
    assert(-(2 * (FX_ONE * FX_ONE * FX_ONE)) <= rr * (FX_ONE * FX_ONE) <= 2 * (FX_ONE * FX_ONE
        * FX_ONE)) by (nonlinear_arith)
        requires
            -2 * FX_ONE < rr < 2 * FX_ONE,
    ;
    assert(-(2 * sq * (FX_ONE * FX_ONE)) <= -(tau * (FX_ONE * FX_ONE)) <= 0) by (nonlinear_arith)
        requires
            0 <= tau <= 2 * sq,
    ;
    assert(2 * sq * FX_ONE * (FX_ONE + a) == 2 * sq * (FX_ONE * FX_ONE) + 2 * sq * FX_ONE * a)
        by (nonlinear_arith);
}

/// Range facts for every intermediate of the intersection quadratic, given
/// an admissible sphere and ray.
pub proof fn lemma_hit_bounds(s: Sphere, r: Ray)
    requires
        s.wf(),
        ray_in_range(r),
    ensures
        0 <= fxm(r.direction.x as int, r.direction.x as int) <= 0x1_0000_0000_0000,
        0 <= fxm(r.direction.y as int, r.direction.y as int) <= 0x1_0000_0000_0000,
        0 <= fxm(r.direction.z as int, r.direction.z as int) <= 0x1_0000_0000_0000,
        0 <= hit_a(r) <= 0x3_0000_0000_0000,
        -0x20_0000_0000_0000 <= fxm(oc_x(s, r), r.direction.x as int) <= 0x20_0000_0000_0000,
        -0x20_0000_0000_0000 <= fxm(oc_y(s, r), r.direction.y as int) <= 0x20_0000_0000_0000,
        -0x20_0000_0000_0000 <= fxm(oc_z(s, r), r.direction.z as int) <= 0x20_0000_0000_0000,
        -0x60_0000_0000_0000 <= hit_half_b(s, r) <= 0x60_0000_0000_0000,
        0 <= fxm(oc_x(s, r), oc_x(s, r)) <= 0x400_0000_0000_0000,
        0 <= fxm(oc_y(s, r), oc_y(s, r)) <= 0x400_0000_0000_0000,
        0 <= fxm(oc_z(s, r), oc_z(s, r)) <= 0x400_0000_0000_0000,
        0 <= fxm(s.radius as int, s.radius as int) <= 0x100_0000_0000_0000,
        -0x1000_0000_0000_0000 <= hit_c(s, r) <= 0x1000_0000_0000_0000,
{
    lemma_fxm_bound(r.direction.x as int, r.direction.x as int, 0x1_0000_0000, 0x1_0000_0000);
    lemma_fxm_bound(r.direction.y as int, r.direction.y as int, 0x1_0000_0000, 0x1_0000_0000);
    lemma_fxm_bound(r.direction.z as int, r.direction.z as int, 0x1_0000_0000, 0x1_0000_0000);
    lemma_fxm_square_nonneg(r.direction.x as int);
    lemma_fxm_square_nonneg(r.direction.y as int);
    lemma_fxm_square_nonneg(r.direction.z as int);
    lemma_fxm_bound(oc_x(s, r), r.direction.x as int, 0x20_0000_0000, 0x1_0000_0000);
    lemma_fxm_bound(oc_y(s, r), r.direction.y as int, 0x20_0000_0000, 0x1_0000_0000);
    lemma_fxm_bound(oc_z(s, r), r.direction.z as int, 0x20_0000_0000, 0x1_0000_0000);
    lemma_fxm_bound(oc_x(s, r), oc_x(s, r), 0x20_0000_0000, 0x20_0000_0000);
    lemma_fxm_bound(oc_y(s, r), oc_y(s, r), 0x20_0000_0000, 0x20_0000_0000);
    lemma_fxm_bound(oc_z(s, r), oc_z(s, r), 0x20_0000_0000, 0x20_0000_0000);
    lemma_fxm_square_nonneg(oc_x(s, r));
    lemma_fxm_square_nonneg(oc_y(s, r));
    lemma_fxm_square_nonneg(oc_z(s, r));
    lemma_fxm_bound(s.radius as int, s.radius as int, 0x10_0000_0000, 0x10_0000_0000);
    lemma_fxm_square_nonneg(s.radius as int);
}

} // verus!
