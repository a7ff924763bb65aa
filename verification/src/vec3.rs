//! Three-component vectors over 48.16 fixed-point scalars, used both as free
//! vectors and as points.

use vstd::prelude::*;

use crate::fixed::{
    fxd, fxm, is_sqrt, lemma_fxm_neg, lemma_fxm_square_nonneg, lemma_quot_exact, lemma_quot_mono,
    lemma_quot_neg, lemma_quot_residual, quot, quot_i128, sqrt_floor, FX_ONE,
};
use crate::sampling::rand_range;

verus! {

/// Largest raw magnitude admitted for point coordinates and radii (2^36,
/// about a million world units): keeps every intersection intermediate well
/// inside the machine integer ranges.
pub const COORD_MAX: i64 = 0x10_0000_0000;

/// Largest raw magnitude admitted for ray direction components (2^32, about
/// sixty-five thousand world units).
pub const DIR_MAX: i64 = 0x1_0000_0000;

/// A point or direction; each field is a raw 48.16 fixed-point scalar.
#[derive(Clone, Copy, Debug, PartialEq, Eq, Structural)]
pub struct Vec3 {
    pub x: i64,
    pub y: i64,
    pub z: i64,
}

/// Type alias to make code clearer.
pub type Point3 = Vec3;

/// The vector is within the admitted coordinate range.
pub open spec fn vec_in_coord_range(v: Vec3) -> bool {
    &&& -COORD_MAX <= v.x <= COORD_MAX
    &&& -COORD_MAX <= v.y <= COORD_MAX
    &&& -COORD_MAX <= v.z <= COORD_MAX
}

/// The vector is within the admitted direction range.
pub open spec fn vec_in_dir_range(v: Vec3) -> bool {
    &&& -DIR_MAX <= v.x <= DIR_MAX
    &&& -DIR_MAX <= v.y <= DIR_MAX
    &&& -DIR_MAX <= v.z <= DIR_MAX
}

/// Fixed-point dot product: the sum of the truncated per-component products.
pub open spec fn dot3(a: Vec3, b: Vec3) -> int {
    fxm(a.x as int, b.x as int) + fxm(a.y as int, b.y as int) + fxm(a.z as int, b.z as int)
}

/// Exact sum of the squared raw components. This is `FX_ONE * FX_ONE` times
/// the squared real length, computed without any truncation.
pub open spec fn sq_len(v: Vec3) -> int {
    (v.x as int) * (v.x as int) + (v.y as int) * (v.y as int) + (v.z as int) * (v.z as int)
}

/// The raw fixed-point length of `v`: the floor of the square root of the
/// exact squared raw length.
pub open spec fn len_of(v: Vec3) -> int {
    sqrt_floor(sq_len(v))
}

impl Vec3 {
    /// Instantiate a new `Vec3`, the zero vector.
    pub fn new() -> (r: Self)
        ensures
            r.x == 0 && r.y == 0 && r.z == 0,
    {
        Vec3 { x: 0, y: 0, z: 0 }
    }

    /// Create a new `Vec3` with the given raw fixed-point components.
    pub fn new_with_data(x: i64, y: i64, z: i64) -> (r: Self)
        ensures
            r.x == x && r.y == y && r.z == z,
    {
        Vec3 { x, y, z }
    }

    /// Return the x component of this `Vec3`.
    pub fn x(&self) -> (r: i64)
        ensures
            r == self.x,
    {
        self.x
    }

    /// Return the y component of this `Vec3`.
    pub fn y(&self) -> (r: i64)
        ensures
            r == self.y,
    {
        self.y
    }

    /// Return the z component of this `Vec3`.
    pub fn z(&self) -> (r: i64)
        ensures
            r == self.z,
    {
        self.z
    }

    /// Generate a new Vec3 with random components in the range [0,1[.
    pub fn random() -> (r: Self)
        ensures
            0 <= r.x < FX_ONE,
            0 <= r.y < FX_ONE,
            0 <= r.z < FX_ONE,
    {
        Vec3 {
            x: rand_range(0, FX_ONE),
            y: rand_range(0, FX_ONE),
            z: rand_range(0, FX_ONE),
        }
    }

    /// Generate a new Vec3 where each component is random within the given
    /// bounds (inclusive low, exclusive high).
    pub fn random_range(min: i64, max: i64) -> (r: Self)
        requires
            min < max,
        ensures
            min <= r.x < max,
            min <= r.y < max,
            min <= r.z < max,
    {
        Vec3 {
            x: rand_range(min, max),
            y: rand_range(min, max),
            z: rand_range(min, max),
        }
    }

    /// Generate a random Vec3 which is inside the unit sphere and not the
    /// zero vector (a zero vector cannot be normalized). Rejection sampling
    /// with a bounded number of attempts and a fixed in-range fallback, so
    /// that termination is provable.
    pub fn random_in_unit_sphere() -> (r: Self)
        ensures
            -FX_ONE <= r.x <= FX_ONE,
            -FX_ONE <= r.y <= FX_ONE,
            -FX_ONE <= r.z <= FX_ONE,
            1 <= sq_len(r) <= (FX_ONE as int) * (FX_ONE as int),
    {
        let mut attempts: u32 = 0;
        while attempts < 1000
            invariant
                attempts <= 1000,
            decreases 1000 - attempts,
        {
            let p = Self::random_range(-FX_ONE, FX_ONE);
            proof {
                assert(0 <= (p.x as int) * (p.x as int) <= 65536 * 65536 && 0 <= (p.y as int)
                    * (p.y as int) <= 65536 * 65536 && 0 <= (p.z as int) * (p.z as int) <= 65536
                    * 65536) by (nonlinear_arith)
                    requires
                        -65536 <= p.x <= 65536,
                        -65536 <= p.y <= 65536,
                        -65536 <= p.z <= 65536,
                ;
            }
            let s: i64 = p.x * p.x + p.y * p.y + p.z * p.z;
            if 1 <= s && s <= 4294967296i64 {
                return p;
            }
            attempts = attempts + 1;
        }
        Vec3 { x: FX_ONE, y: 0, z: 0 }
    }

    /// Generate a random unit vector: its squared raw length is within a
    /// few truncation steps of one.
    pub fn random_unit_vector() -> (r: Self)
        ensures
            -FX_ONE <= r.x <= FX_ONE,
            -FX_ONE <= r.y <= FX_ONE,
            -FX_ONE <= r.z <= FX_ONE,
            FX_ONE * FX_ONE - 6 * FX_ONE <= sq_len(r),
            1 <= sq_len(r),
    {
        Self::unit_vector(&Self::random_in_unit_sphere())
    }

    /// Generate a random unit vector on the hemisphere oriented by `normal`:
    /// its fixed-point dot product with `normal` is never negative, and it
    /// is a unit vector up to a few truncation steps.
    pub fn random_on_hemisphere(normal: &Vec3) -> (r: Self)
        ensures
            -FX_ONE <= r.x <= FX_ONE,
            -FX_ONE <= r.y <= FX_ONE,
            -FX_ONE <= r.z <= FX_ONE,
            FX_ONE * FX_ONE - 6 * FX_ONE <= sq_len(r),
            1 <= sq_len(r),
            0 <= dot3(r, *normal),
    {
        let v = Self::random_unit_vector();
        let dx: i128 = crate::fixed::fx_mul_wide(v.x, normal.x);
        let dy: i128 = crate::fixed::fx_mul_wide(v.y, normal.y);
        let dz: i128 = crate::fixed::fx_mul_wide(v.z, normal.z);
        proof {
            lemma_fxm_wide_range(v.x as int, normal.x as int);
            lemma_fxm_wide_range(v.y as int, normal.y as int);
            lemma_fxm_wide_range(v.z as int, normal.z as int);
        }
        let d: i128 = dx + dy + dz;
        if d > 0 {
            v
        } else {
            let n = v.neg();
            proof {
                lemma_fxm_neg(v.x as int, normal.x as int);
                lemma_fxm_neg(v.y as int, normal.y as int);
                lemma_fxm_neg(v.z as int, normal.z as int);
                assert(sq_len(n) == sq_len(v)) by (nonlinear_arith)
                    requires
                        n.x == -v.x && n.y == -v.y && n.z == -v.z,
                        sq_len(n) == n.x * n.x + n.y * n.y + n.z * n.z,
                        sq_len(v) == v.x * v.x + v.y * v.y + v.z * v.z,
                ;
            }
            n
        }
    }

    /// Component-wise sum.
    pub fn add(self, rhs: Self) -> (r: Self)
        requires
            i64::MIN <= self.x + rhs.x <= i64::MAX,
            i64::MIN <= self.y + rhs.y <= i64::MAX,
            i64::MIN <= self.z + rhs.z <= i64::MAX,
        ensures
            r.x == self.x + rhs.x && r.y == self.y + rhs.y && r.z == self.z + rhs.z,
    {
        Vec3 { x: self.x + rhs.x, y: self.y + rhs.y, z: self.z + rhs.z }
    }

    /// Component-wise difference.
    pub fn sub(self, rhs: Self) -> (r: Self)
        requires
            i64::MIN <= self.x - rhs.x <= i64::MAX,
            i64::MIN <= self.y - rhs.y <= i64::MAX,
            i64::MIN <= self.z - rhs.z <= i64::MAX,
        ensures
            r.x == self.x - rhs.x && r.y == self.y - rhs.y && r.z == self.z - rhs.z,
    {
        Vec3 { x: self.x - rhs.x, y: self.y - rhs.y, z: self.z - rhs.z }
    }

    /// Component-wise negation.
    pub fn neg(self) -> (r: Self)
        requires
            self.x != i64::MIN && self.y != i64::MIN && self.z != i64::MIN,
        ensures
            r.x == -self.x && r.y == -self.y && r.z == -self.z,
    {
        Vec3 { x: -self.x, y: -self.y, z: -self.z }
    }

    /// Scaling by a fixed-point scalar.
    pub fn mul(self, rhs: i64) -> (r: Self)
        requires
            -0x7fff_ffff_ffff_ffff <= fxm(self.x as int, rhs as int) <= 0x7fff_ffff_ffff_ffff,
            -0x7fff_ffff_ffff_ffff <= fxm(self.y as int, rhs as int) <= 0x7fff_ffff_ffff_ffff,
            -0x7fff_ffff_ffff_ffff <= fxm(self.z as int, rhs as int) <= 0x7fff_ffff_ffff_ffff,
        ensures
            r.x == fxm(self.x as int, rhs as int),
            r.y == fxm(self.y as int, rhs as int),
            r.z == fxm(self.z as int, rhs as int),
    {
        Vec3 {
            x: crate::fixed::fx_mul(self.x, rhs),
            y: crate::fixed::fx_mul(self.y, rhs),
            z: crate::fixed::fx_mul(self.z, rhs),
        }
    }

    /// Division by a fixed-point scalar.
    pub fn div(self, rhs: i64) -> (r: Self)
        requires
            rhs != 0,
            -0x7fff_ffff_ffff_ffff <= fxd(self.x as int, rhs as int) <= 0x7fff_ffff_ffff_ffff,
            -0x7fff_ffff_ffff_ffff <= fxd(self.y as int, rhs as int) <= 0x7fff_ffff_ffff_ffff,
            -0x7fff_ffff_ffff_ffff <= fxd(self.z as int, rhs as int) <= 0x7fff_ffff_ffff_ffff,
        ensures
            r.x == fxd(self.x as int, rhs as int),
            r.y == fxd(self.y as int, rhs as int),
            r.z == fxd(self.z as int, rhs as int),
    {
        Vec3 {
            x: crate::fixed::fx_div(self.x, rhs),
            y: crate::fixed::fx_div(self.y, rhs),
            z: crate::fixed::fx_div(self.z, rhs),
        }
    }

    /// In-place component-wise sum.
    pub fn add_assign(&mut self, rhs: &Self)
        requires
            i64::MIN <= old(self).x + rhs.x <= i64::MAX,
            i64::MIN <= old(self).y + rhs.y <= i64::MAX,
            i64::MIN <= old(self).z + rhs.z <= i64::MAX,
        ensures
            final (self).x == old(self).x + rhs.x,
            final (self).y == old(self).y + rhs.y,
            final (self).z == old(self).z + rhs.z,
    {
        self.x = self.x + rhs.x;
        self.y = self.y + rhs.y;
        self.z = self.z + rhs.z;
    }

    /// In-place scaling by a fixed-point scalar.
    pub fn mul_assign(&mut self, rhs: i64)
        requires
            -0x7fff_ffff_ffff_ffff <= fxm(old(self).x as int, rhs as int)
                <= 0x7fff_ffff_ffff_ffff,
            -0x7fff_ffff_ffff_ffff <= fxm(old(self).y as int, rhs as int)
                <= 0x7fff_ffff_ffff_ffff,
            -0x7fff_ffff_ffff_ffff <= fxm(old(self).z as int, rhs as int)
                <= 0x7fff_ffff_ffff_ffff,
        ensures
            final (self).x == fxm(old(self).x as int, rhs as int),
            final (self).y == fxm(old(self).y as int, rhs as int),
            final (self).z == fxm(old(self).z as int, rhs as int),
    {
        self.x = crate::fixed::fx_mul(self.x, rhs);
        self.y = crate::fixed::fx_mul(self.y, rhs);
        self.z = crate::fixed::fx_mul(self.z, rhs);
    }

    /// In-place division by a fixed-point scalar.
    pub fn div_assign(&mut self, rhs: i64)
        requires
            rhs != 0,
            -0x7fff_ffff_ffff_ffff <= fxd(old(self).x as int, rhs as int)
                <= 0x7fff_ffff_ffff_ffff,
            -0x7fff_ffff_ffff_ffff <= fxd(old(self).y as int, rhs as int)
                <= 0x7fff_ffff_ffff_ffff,
            -0x7fff_ffff_ffff_ffff <= fxd(old(self).z as int, rhs as int)
                <= 0x7fff_ffff_ffff_ffff,
        ensures
            final (self).x == fxd(old(self).x as int, rhs as int),
            final (self).y == fxd(old(self).y as int, rhs as int),
            final (self).z == fxd(old(self).z as int, rhs as int),
    {
        self.x = crate::fixed::fx_div(self.x, rhs);
        self.y = crate::fixed::fx_div(self.y, rhs);
        self.z = crate::fixed::fx_div(self.z, rhs);
    }

    /// Calculate the dot product of 2 vectors.
    pub fn dot(&self, other: &Self) -> (r: i64)
        requires
            i64::MIN <= dot3(*self, *other) <= i64::MAX,
        ensures
            r == dot3(*self, *other),
    {
        let px: i128 = crate::fixed::fx_mul_wide(self.x, other.x);
        let py: i128 = crate::fixed::fx_mul_wide(self.y, other.y);
        let pz: i128 = crate::fixed::fx_mul_wide(self.z, other.z);
        proof {
            lemma_fxm_wide_range(self.x as int, other.x as int);
            lemma_fxm_wide_range(self.y as int, other.y as int);
            lemma_fxm_wide_range(self.z as int, other.z as int);
        }
        (px + py + pz) as i64
    }

    /// Calculate the cross vector of 2 vectors.
    pub fn cross(&self, other: &Self) -> (r: Vec3)
        requires
            i64::MIN <= fxm(self.y as int, other.z as int) - fxm(self.z as int, other.y as int)
                <= i64::MAX,
            i64::MIN <= fxm(self.z as int, other.x as int) - fxm(self.x as int, other.z as int)
                <= i64::MAX,
            i64::MIN <= fxm(self.x as int, other.y as int) - fxm(self.y as int, other.x as int)
                <= i64::MAX,
        ensures
            r.x == fxm(self.y as int, other.z as int) - fxm(self.z as int, other.y as int),
            r.y == fxm(self.z as int, other.x as int) - fxm(self.x as int, other.z as int),
            r.z == fxm(self.x as int, other.y as int) - fxm(self.y as int, other.x as int),
    {
        let cx: i128 = crate::fixed::fx_mul_wide(self.y, other.z) - crate::fixed::fx_mul_wide(
            self.z,
            other.y,
        );
        let cy: i128 = crate::fixed::fx_mul_wide(self.z, other.x) - crate::fixed::fx_mul_wide(
            self.x,
            other.z,
        );
        let cz: i128 = crate::fixed::fx_mul_wide(self.x, other.y) - crate::fixed::fx_mul_wide(
            self.y,
            other.x,
        );
        proof {
            lemma_fxm_wide_range(self.x as int, other.x as int);
            lemma_fxm_wide_range(self.y as int, other.z as int);
            lemma_fxm_wide_range(self.z as int, other.y as int);
            lemma_fxm_wide_range(self.z as int, other.x as int);
            lemma_fxm_wide_range(self.x as int, other.z as int);
            lemma_fxm_wide_range(self.x as int, other.y as int);
            lemma_fxm_wide_range(self.y as int, other.x as int);
        }
        Vec3 { x: cx as i64, y: cy as i64, z: cz as i64 }
    }

    /// Return the raw fixed-point length of this `Vec3`: the floor of the
    /// square root of the exact (untruncated) sum of squared raw components.
    pub fn len(&self) -> (r: i64)
        requires
            -0x1000_0000_0000_0000 <= self.x <= 0x1000_0000_0000_0000,
            -0x1000_0000_0000_0000 <= self.y <= 0x1000_0000_0000_0000,
            -0x1000_0000_0000_0000 <= self.z <= 0x1000_0000_0000_0000,
        ensures
            r == len_of(*self),
            is_sqrt(sq_len(*self), r as int),
            0 <= r,
            -r <= self.x <= r,
            -r <= self.y <= r,
            -r <= self.z <= r,
    {
        proof {
            lemma_square_in_range(self.x as int);
            lemma_square_in_range(self.y as int);
            lemma_square_in_range(self.z as int);
        }
        let ax: i128 = (self.x as i128) * (self.x as i128);
        let ay: i128 = (self.y as i128) * (self.y as i128);
        let az: i128 = (self.z as i128) * (self.z as i128);
        let s: u128 = (ax as u128) + (ay as u128) + (az as u128);
        let r: u128 = crate::fixed::isqrt_u128(s);
        proof {
            assert(r < 0x2000_0000_0000_0000u128) by (nonlinear_arith)
                requires
                    (r as int) * (r as int) <= (s as int),
                    (s as int) <= 3 * 1152921504606846976 * 1152921504606846976,
            ;
            lemma_comp_le_sqrt(self.x as int, sq_len(*self), r as int);
            lemma_comp_le_sqrt(self.y as int, sq_len(*self), r as int);
            lemma_comp_le_sqrt(self.z as int, sq_len(*self), r as int);
        }
        r as i64
    }

    /// Scales the vector to a unit vector: each component is divided by the
    /// fixed-point length. The result's components always lie in
    /// `[-FX_ONE, FX_ONE]`, and its squared raw length is within a few
    /// truncation steps of one: never zero, never far below unit.
    pub fn unit_vector(&self) -> (r: Vec3)
        requires
            1 <= sq_len(*self),
            -0x1000_0000_0000_0000 <= self.x <= 0x1000_0000_0000_0000,
            -0x1000_0000_0000_0000 <= self.y <= 0x1000_0000_0000_0000,
            -0x1000_0000_0000_0000 <= self.z <= 0x1000_0000_0000_0000,
        ensures
            r.x == fxd(self.x as int, len_of(*self)),
            r.y == fxd(self.y as int, len_of(*self)),
            r.z == fxd(self.z as int, len_of(*self)),
            -FX_ONE <= r.x <= FX_ONE,
            -FX_ONE <= r.y <= FX_ONE,
            -FX_ONE <= r.z <= FX_ONE,
            FX_ONE * FX_ONE - 6 * FX_ONE <= sq_len(r),
            1 <= sq_len(r),
    {
        let l: i64 = self.len();
        proof {
            if l == 0 {
                assert((l as int + 1) * (l as int + 1) == 1) by (nonlinear_arith)
                    requires
                        l == 0,
                ;
                assert(false);
            }
        }
        let qx: i128 = quot_i128((self.x as i128) * 65536, l as i128);
        let qy: i128 = quot_i128((self.y as i128) * 65536, l as i128);
        let qz: i128 = quot_i128((self.z as i128) * 65536, l as i128);
        proof {
            lemma_unit_comp_bounded(self.x as int, l as int);
            lemma_unit_comp_bounded(self.y as int, l as int);
            lemma_unit_comp_bounded(self.z as int, l as int);
        }
        let r = Vec3 { x: qx as i64, y: qy as i64, z: qz as i64 };
        proof {
            lemma_unit_nonzero(*self, r);
            lemma_unit_near_unit(*self, r);
        }
        r
    }

    /// Returns the length of this `Vec3` squared, in fixed-point arithmetic
    /// (each squared component is truncated before summing).
    pub fn length_squared(&self) -> (r: i64)
        requires
            dot3(*self, *self) <= i64::MAX,
        ensures
            r == dot3(*self, *self),
            r >= 0,
    {
        proof {
            lemma_fxm_square_nonneg(self.x as int);
            lemma_fxm_square_nonneg(self.y as int);
            lemma_fxm_square_nonneg(self.z as int);
        }
        self.dot(self)
    }
}

/// Squares of values up to `2^60` in magnitude stay within `2^120`.
proof fn lemma_square_in_range(a: int)
    requires
        -0x1000_0000_0000_0000 <= a <= 0x1000_0000_0000_0000,
    ensures
        0 <= a * a <= 1152921504606846976 * 1152921504606846976,
{
    assert(0 <= a * a <= 1152921504606846976 * 1152921504606846976) by (nonlinear_arith)
        requires
            -0x1000_0000_0000_0000 <= a <= 0x1000_0000_0000_0000,
    ;
}

/// A component whose square is part of `s` is bounded by the floor square
/// root of `s`.
proof fn lemma_comp_le_sqrt(a: int, s: int, r: int)
    requires
        a * a <= s,
        is_sqrt(s, r),
    ensures
        -r <= a <= r,
{
    assert(-r <= a <= r) by (nonlinear_arith)
        requires
            a * a <= s,
            0 <= r,
            s < (r + 1) * (r + 1),
    ;
}

/// Dividing a component bounded by `l` by the length `l` keeps the quotient
/// within one fixed-point unit.
proof fn lemma_unit_comp_bounded(a: int, l: int)
    requires
        1 <= l,
        -l <= a <= l,
    ensures
        -FX_ONE <= quot(a * FX_ONE, l) <= FX_ONE,
{
    lemma_quot_exact(65536, l);
    lemma_quot_exact(-65536, l);
    lemma_quot_mono(a * 65536, 65536 * l, l);
    lemma_quot_mono((-65536) * l, a * 65536, l);
}

/// A component at least as large (in square) as the others yields a
/// normalized component of at least one half.
proof fn lemma_big_comp(c: int, s: int, l: int)
    requires
        0 <= c,
        3 * (c * c) >= s,
        1 <= s,
        is_sqrt(s, l),
    ensures
        1 <= l,
        quot(c * FX_ONE, l) >= 32768,
{
    if l == 0 {
        assert((l + 1) * (l + 1) == 1) by (nonlinear_arith)
            requires
                l == 0,
        ;
        assert(false);
    }
    assert(2 * c >= l) by (nonlinear_arith)
        requires
            3 * (c * c) >= s,
            l * l <= s,
            0 <= l,
            0 <= c,
            0 <= s,
    ;
    lemma_quot_exact(32768, l);
    lemma_quot_mono(32768 * l, c * 65536, l);
}

/// A normalized vector is a unit vector up to truncation: each component's
/// quotient misses the exact ratio by less than one division step, so the
/// squared raw length falls short of one squared by at most a few steps.
proof fn lemma_unit_near_unit(v: Vec3, r: Vec3)
    requires
        1 <= sq_len(v),
        is_sqrt(sq_len(v), len_of(v)),
        r.x == quot(v.x * FX_ONE, len_of(v)),
        r.y == quot(v.y * FX_ONE, len_of(v)),
        r.z == quot(v.z * FX_ONE, len_of(v)),
        -len_of(v) <= v.x <= len_of(v),
        -len_of(v) <= v.y <= len_of(v),
        -len_of(v) <= v.z <= len_of(v),
    ensures
        FX_ONE * FX_ONE - 6 * FX_ONE <= sq_len(r),
{
    let l = len_of(v);
    if l == 0 {
        assert((l + 1) * (l + 1) == 1) by (nonlinear_arith)
            requires
                l == 0,
        ;
        assert(false);
    }
    lemma_quot_residual(v.x * FX_ONE, l);
    lemma_quot_residual(v.y * FX_ONE, l);
    lemma_quot_residual(v.z * FX_ONE, l);
    assert((l * r.x) * (l * r.x) >= (v.x * 65536) * (v.x * 65536) - 2 * 65536 * (l * l))
        by (nonlinear_arith)
        requires
            -l < l * r.x - v.x * 65536 < l,
            -l <= v.x <= l,
            1 <= l,
    ;
    assert((l * r.y) * (l * r.y) >= (v.y * 65536) * (v.y * 65536) - 2 * 65536 * (l * l))
        by (nonlinear_arith)
        requires
            -l < l * r.y - v.y * 65536 < l,
            -l <= v.y <= l,
            1 <= l,
    ;
    assert((l * r.z) * (l * r.z) >= (v.z * 65536) * (v.z * 65536) - 2 * 65536 * (l * l))
        by (nonlinear_arith)
        requires
            -l < l * r.z - v.z * 65536 < l,
            -l <= v.z <= l,
            1 <= l,
    ;
    assert(l * l * (r.x * r.x) == (l * r.x) * (l * r.x) && l * l * (r.y * r.y) == (l * r.y) * (l
        * r.y) && l * l * (r.z * r.z) == (l * r.z) * (l * r.z)) by (nonlinear_arith);
    assert(65536 * 65536 * (v.x * v.x) == (v.x * 65536) * (v.x * 65536) && 65536 * 65536 * (v.y
        * v.y) == (v.y * 65536) * (v.y * 65536) && 65536 * 65536 * (v.z * v.z) == (v.z * 65536) * (
    v.z * 65536)) by (nonlinear_arith);
    assert(l * l * sq_len(r) == l * l * (r.x * r.x) + l * l * (r.y * r.y) + l * l * (r.z * r.z))
        by (nonlinear_arith)
        requires
            sq_len(r) == r.x * r.x + r.y * r.y + r.z * r.z,
    ;
    assert(65536 * 65536 * sq_len(v) == 65536 * 65536 * (v.x * v.x) + 65536 * 65536 * (v.y * v.y)
        + 65536 * 65536 * (v.z * v.z)) by (nonlinear_arith)
        requires
            sq_len(v) == v.x * v.x + v.y * v.y + v.z * v.z,
    ;
    assert(65536 * 65536 * sq_len(v) >= 65536 * 65536 * (l * l)) by (nonlinear_arith)
        requires
            l * l <= sq_len(v),
    ;
    assert((65536 * 65536 - 6 * 65536) * (l * l) == 65536 * 65536 * (l * l) - 6 * 65536 * (l * l))
        by (nonlinear_arith);
    assert(l * l * sq_len(r) >= (65536 * 65536 - 6 * 65536) * (l * l)) by (nonlinear_arith)
        requires
            l * l * (r.x * r.x) == (l * r.x) * (l * r.x),
            l * l * (r.y * r.y) == (l * r.y) * (l * r.y),
            l * l * (r.z * r.z) == (l * r.z) * (l * r.z),
            (l * r.x) * (l * r.x) >= (v.x * 65536) * (v.x * 65536) - 2 * 65536 * (l * l),
            (l * r.y) * (l * r.y) >= (v.y * 65536) * (v.y * 65536) - 2 * 65536 * (l * l),
            (l * r.z) * (l * r.z) >= (v.z * 65536) * (v.z * 65536) - 2 * 65536 * (l * l),
            65536 * 65536 * (v.x * v.x) == (v.x * 65536) * (v.x * 65536),
            65536 * 65536 * (v.y * v.y) == (v.y * 65536) * (v.y * 65536),
            65536 * 65536 * (v.z * v.z) == (v.z * 65536) * (v.z * 65536),
            l * l * sq_len(r) == l * l * (r.x * r.x) + l * l * (r.y * r.y) + l * l * (r.z * r.z),
            65536 * 65536 * sq_len(v) == 65536 * 65536 * (v.x * v.x) + 65536 * 65536 * (v.y * v.y)
                + 65536 * 65536 * (v.z * v.z),
            65536 * 65536 * sq_len(v) >= 65536 * 65536 * (l * l),
    ;
    assert(sq_len(r) >= 65536 * 65536 - 6 * 65536) by (nonlinear_arith)
        requires
            l * l * sq_len(r) >= (65536 * 65536 - 6 * 65536) * (l * l),
            1 <= l,
    ;
}

/// A normalized vector is never the zero vector.
proof fn lemma_unit_nonzero(v: Vec3, r: Vec3)
    requires
        1 <= sq_len(v),
        is_sqrt(sq_len(v), len_of(v)),
        r.x == quot(v.x * FX_ONE, len_of(v)),
        r.y == quot(v.y * FX_ONE, len_of(v)),
        r.z == quot(v.z * FX_ONE, len_of(v)),
    ensures
        1 <= sq_len(r),
{
    let s = sq_len(v);
    let l = len_of(v);
    let big: int = if v.x * v.x >= v.y * v.y && v.x * v.x >= v.z * v.z {
        v.x as int
    } else if v.y * v.y >= v.x * v.x && v.y * v.y >= v.z * v.z {
        v.y as int
    } else {
        v.z as int
    };
    let bigq: int = if v.x * v.x >= v.y * v.y && v.x * v.x >= v.z * v.z {
        r.x as int
    } else if v.y * v.y >= v.x * v.x && v.y * v.y >= v.z * v.z {
        r.y as int
    } else {
        r.z as int
    };
    assert(3 * (big * big) >= s) by (nonlinear_arith)
        requires
            s == v.x * v.x + v.y * v.y + v.z * v.z,
            big == (if v.x * v.x >= v.y * v.y && v.x * v.x >= v.z * v.z {
                v.x as int
            } else if v.y * v.y >= v.x * v.x && v.y * v.y >= v.z * v.z {
                v.y as int
            } else {
                v.z as int
            }),
    ;
    assert(bigq == quot(big * FX_ONE, l));
    if big >= 0 {
        lemma_big_comp(big, s, l);
        assert(bigq >= 32768);
    } else {
        assert(3 * ((-big) * (-big)) >= s) by (nonlinear_arith)
            requires
                3 * (big * big) >= s,
        ;
        lemma_big_comp(-big, s, l);
        lemma_quot_neg(big * FX_ONE, l);
        assert(-(big * FX_ONE) == (-big) * FX_ONE) by (nonlinear_arith);
        assert(bigq <= -32768);
    }
    assert(1 <= sq_len(r)) by (nonlinear_arith)
        requires
            sq_len(r) == r.x * r.x + r.y * r.y + r.z * r.z,
            bigq == r.x || bigq == r.y || bigq == r.z,
            bigq >= 32768 || bigq <= -32768,
    ;
}

/// A fixed-point product of two `i64` values always stays well inside `i128`.
proof fn lemma_fxm_wide_range(a: int, b: int)
    requires
        -0x8000_0000_0000_0000 <= a <= 0x7fff_ffff_ffff_ffff,
        -0x8000_0000_0000_0000 <= b <= 0x7fff_ffff_ffff_ffff,
    ensures
        -0x4000_0000_0000_0000_0000_0000_0000 <= fxm(a, b) <= 0x4000_0000_0000_0000_0000_0000_0000,
{
    crate::fixed::lemma_fxm_bound(a, b, 0x8000_0000_0000_0000, 0x8000_0000_0000_0000);
}

} // verus!
