//! Exact 48.16 fixed-point arithmetic.
//!
//! A raw `i64` value `v` stands for the real number `v / 65536`. All
//! operations round toward zero; each executable operation is specified by an
//! exact integer-valued spec function, so callers can reason about results
//! to the last bit.

use vstd::prelude::*;

verus! {

/// The raw fixed-point representation of 1.
pub const FX_ONE: i64 = 65536;

/// Truncating (round-toward-zero) division by a positive divisor. This is the
/// rounding every fixed-point operation in this crate uses.
pub open spec fn quot(n: int, d: int) -> int {
    if n >= 0 {
        n / d
    } else {
        -((-n) / d)
    }
}

/// Fixed-point product: exact integer product, scaled back down with
/// truncation.
pub open spec fn fxm(a: int, b: int) -> int {
    quot(a * b, FX_ONE as int)
}

/// Fixed-point quotient: `a / b` in the reals, truncated toward zero.
/// Meaningful only for `b != 0`.
pub open spec fn fxd(a: int, b: int) -> int {
    if b >= 0 {
        quot(a * FX_ONE, b)
    } else {
        -quot(a * FX_ONE, -b)
    }
}

/// `r` is the floor of the square root of `n`.
pub open spec fn is_sqrt(n: int, r: int) -> bool {
    0 <= r && r * r <= n && n < (r + 1) * (r + 1)
}

/// The floor of the square root of a nonnegative integer.
pub open spec fn sqrt_floor(n: int) -> int {
    choose|r: int| is_sqrt(n, r)
}

pub proof fn lemma_quot_neg(n: int, d: int)
    requires
        0 < d,
    ensures
        quot(-n, d) == -quot(n, d),
{
    if n == 0 {
        assert(quot(0int, d) == 0) by {
            vstd::arithmetic::div_mod::lemma_div_of0(d);
        }
    }
}

pub proof fn lemma_quot_mono(n1: int, n2: int, d: int)
    requires
        0 < d,
        n1 <= n2,
    ensures
        quot(n1, d) <= quot(n2, d),
{
    if 0 <= n1 {
        vstd::arithmetic::div_mod::lemma_div_is_ordered(n1, n2, d);
    } else if n2 < 0 {
        vstd::arithmetic::div_mod::lemma_div_is_ordered(-n2, -n1, d);
    } else {
        vstd::arithmetic::div_mod::lemma_div_pos_is_pos(n2, d);
        vstd::arithmetic::div_mod::lemma_div_pos_is_pos(-n1, d);
    }
}

pub proof fn lemma_quot_exact(k: int, d: int)
    requires
        0 < d,
    ensures
        quot(k * d, d) == k,
{
    if k >= 0 {
        vstd::arithmetic::div_mod::lemma_div_by_multiple(k, d);
    } else {
        vstd::arithmetic::div_mod::lemma_div_by_multiple(-k, d);
        assert(-(k * d) == (-k) * d) by (nonlinear_arith);
    }
}

/// Division bracketing: `d * quot(n, d)` is within `d - 1` of `n`, on the
/// zero-ward side.
pub proof fn lemma_quot_bracket(n: int, d: int)
    requires
        0 < d,
        0 <= n,
    ensures
        0 <= quot(n, d),
        d * quot(n, d) <= n,
        n < d * (quot(n, d) + 1),
{
    vstd::arithmetic::div_mod::lemma_fundamental_div_mod(n, d);
    vstd::arithmetic::div_mod::lemma_div_pos_is_pos(n, d);
    assert(0 <= n % d < d) by {
        vstd::arithmetic::div_mod::lemma_mod_bound(n, d);
    }
    assert(d * (quot(n, d) + 1) == d * quot(n, d) + d) by (nonlinear_arith);
}

/// The truncation residual: `d * quot(n, d)` misses `n` by less than `d`.
pub proof fn lemma_quot_residual(n: int, d: int)
    requires
        0 < d,
    ensures
        -d < d * quot(n, d) - n < d,
{
    if n >= 0 {
        lemma_quot_bracket(n, d);
        assert(d * (quot(n, d) + 1) == d * quot(n, d) + d) by (nonlinear_arith);
    } else {
        lemma_quot_bracket(-n, d);
        lemma_quot_neg(n, d);
        assert(d * (quot(-n, d) + 1) == d * quot(-n, d) + d) by (nonlinear_arith);
        assert(d * quot(n, d) == -(d * quot(-n, d))) by (nonlinear_arith)
            requires
                quot(n, d) == -quot(-n, d),
        ;
    }
}

/// `|d * quot(n, d)| <= |n|`, stated without absolute values.
pub proof fn lemma_quot_within(n: int, d: int, b: int)
    requires
        0 < d,
        -b <= n <= b,
    ensures
        -b <= d * quot(n, d) <= b,
        -b <= quot(n, d) <= b,
{
    if n >= 0 {
        lemma_quot_bracket(n, d);
        assert(quot(n, d) <= d * quot(n, d)) by (nonlinear_arith)
            requires
                0 < d,
                0 <= quot(n, d),
        ;
        assert(-b <= d * quot(n, d));
    } else {
        lemma_quot_bracket(-n, d);
        lemma_quot_neg(n, d);
        assert(d * quot(n, d) == -(d * quot(-n, d))) by (nonlinear_arith);
        assert(d * quot(-n, d) <= d * quot(-n, d));
        assert(quot(-n, d) <= d * quot(-n, d)) by (nonlinear_arith)
            requires
                0 < d,
                0 <= quot(-n, d),
        ;
    }
}

/// Bounds on a fixed-point product from bounds on its factors.
pub proof fn lemma_fxm_bound(a: int, b: int, aa: int, bb: int)
    requires
        -aa <= a <= aa,
        -bb <= b <= bb,
    ensures
        -(aa * bb) <= FX_ONE * fxm(a, b) <= aa * bb,
        -(aa * bb) <= fxm(a, b) <= aa * bb,
{
    assert(-(aa * bb) <= a * b <= aa * bb) by (nonlinear_arith)
        requires
            -aa <= a <= aa,
            -bb <= b <= bb,
    ;
    lemma_quot_within(a * b, FX_ONE as int, aa * bb);
    assert(0 <= aa * bb) by (nonlinear_arith)
        requires
            -(aa * bb) <= a * b <= aa * bb,
            -aa <= a <= aa,
            -bb <= b <= bb,
    ;
}

pub proof fn lemma_fxm_neg(a: int, b: int)
    ensures
        fxm(-a, b) == -fxm(a, b),
        fxm(a, -b) == -fxm(a, b),
{
    assert((-a) * b == -(a * b) && a * (-b) == -(a * b)) by (nonlinear_arith);
    lemma_quot_neg(a * b, FX_ONE as int);
}

pub proof fn lemma_fxm_square_nonneg(a: int)
    ensures
        0 <= fxm(a, a),
{
    assert(0 <= a * a) by (nonlinear_arith);
    lemma_quot_bracket(a * a, FX_ONE as int);
}

/// Multiplying a nonnegative value by a factor in `[0, 1]` does not increase
/// it (and keeps it nonnegative).
pub proof fn lemma_fxm_attenuates(a: int, b: int)
    requires
        0 <= a,
        0 <= b <= FX_ONE,
    ensures
        0 <= fxm(a, b) <= a,
{
    assert(0 <= a * b <= a * FX_ONE) by (nonlinear_arith)
        requires
            0 <= a,
            0 <= b <= FX_ONE,
    ;
    lemma_quot_bracket(a * b, FX_ONE as int);
    lemma_quot_mono(a * b, a * FX_ONE, FX_ONE as int);
    lemma_quot_exact(a, FX_ONE as int);
}

pub proof fn lemma_sqrt_unique(n: int, r1: int, r2: int)
    requires
        is_sqrt(n, r1),
        is_sqrt(n, r2),
    ensures
        r1 == r2,
{
    assert(r1 == r2) by (nonlinear_arith)
        requires
            0 <= r1 && r1 * r1 <= n && n < (r1 + 1) * (r1 + 1),
            0 <= r2 && r2 * r2 <= n && n < (r2 + 1) * (r2 + 1),
    ;
}

/// Any witness of `is_sqrt` is the `sqrt_floor`.
pub proof fn lemma_sqrt_is_floor(n: int, r: int)
    requires
        is_sqrt(n, r),
    ensures
        sqrt_floor(n) == r,
{
    assert(exists|x: int| is_sqrt(n, x));
    lemma_sqrt_unique(n, choose|x: int| is_sqrt(n, x), r);
}

pub proof fn lemma_sqrt_exists(n: int)
    requires
        0 <= n,
    ensures
        is_sqrt(n, sqrt_floor(n)),
    decreases n,
{
    if n == 0 {
        assert(is_sqrt(0, 0)) by (nonlinear_arith);
        lemma_sqrt_is_floor(0, 0);
    } else {
        lemma_sqrt_exists(n - 1);
        let r = sqrt_floor(n - 1);
        if (r + 1) * (r + 1) <= n {
            assert(is_sqrt(n, r + 1)) by (nonlinear_arith)
                requires
                    is_sqrt(n - 1, r),
                    (r + 1) * (r + 1) <= n,
            ;
            lemma_sqrt_is_floor(n, r + 1);
        } else {
            assert(is_sqrt(n, r));
            lemma_sqrt_is_floor(n, r);
        }
    }
}

pub proof fn lemma_sqrt_square(k: int)
    requires
        0 <= k,
    ensures
        sqrt_floor(k * k) == k,
{
    assert(is_sqrt(k * k, k)) by (nonlinear_arith)
        requires
            0 <= k,
    ;
    lemma_sqrt_is_floor(k * k, k);
}

pub proof fn lemma_sqrt_mono(n1: int, n2: int)
    requires
        0 <= n1 <= n2,
    ensures
        sqrt_floor(n1) <= sqrt_floor(n2),
{
    lemma_sqrt_exists(n1);
    lemma_sqrt_exists(n2);
    assert(sqrt_floor(n1) <= sqrt_floor(n2)) by (nonlinear_arith)
        requires
            n1 <= n2,
            is_sqrt(n1, sqrt_floor(n1)),
            is_sqrt(n2, sqrt_floor(n2)),
    ;
}

/// Truncating division of a wide signed value by a positive divisor.
pub fn quot_i128(n: i128, d: i128) -> (r: i128)
    requires
        0 < d,
        -170141183460469231731687303715884105727i128 <= n,
    ensures
        r == quot(n as int, d as int),
{
    if n >= 0 {
        let q: u128 = (n as u128) / (d as u128);
        proof {
            vstd::arithmetic::div_mod::lemma_div_is_ordered(0, n as int, d as int);
            vstd::arithmetic::div_mod::lemma_div_nonincreasing(n as int, d as int);
        }
        q as i128
    } else {
        let m: u128 = (-n) as u128;
        let q: u128 = m / (d as u128);
        proof {
            vstd::arithmetic::div_mod::lemma_div_is_ordered(0, m as int, d as int);
            vstd::arithmetic::div_mod::lemma_div_nonincreasing(m as int, d as int);
        }
        -(q as i128)
    }
}

/// Fixed-point multiply with a wide (overflow-free) result.
pub fn fx_mul_wide(a: i64, b: i64) -> (r: i128)
    ensures
        r == fxm(a as int, b as int),
{
    proof {
        assert(-170141183460469231731687303715884105727 <= (a as int) * (b as int)
            <= 170141183460469231731687303715884105727) by (nonlinear_arith)
            requires
                -0x8000_0000_0000_0000 <= a as int <= 0x7fff_ffff_ffff_ffff,
                -0x8000_0000_0000_0000 <= b as int <= 0x7fff_ffff_ffff_ffff,
        ;
    }
    let p: i128 = (a as i128) * (b as i128);
    quot_i128(p, 65536)
}

/// Fixed-point multiply, narrowed back to `i64`; the result must fit.
pub fn fx_mul(a: i64, b: i64) -> (r: i64)
    requires
        -0x7fff_ffff_ffff_ffff <= fxm(a as int, b as int) <= 0x7fff_ffff_ffff_ffff,
    ensures
        r == fxm(a as int, b as int),
{
    let q: i128 = fx_mul_wide(a, b);
    q as i64
}

/// Fixed-point divide, narrowed back to `i64`; the result must fit.
pub fn fx_div(a: i64, b: i64) -> (r: i64)
    requires
        b != 0,
        -0x7fff_ffff_ffff_ffff <= fxd(a as int, b as int) <= 0x7fff_ffff_ffff_ffff,
    ensures
        r == fxd(a as int, b as int),
{
    let n: i128 = (a as i128) * 65536;
    let q: i128 = if b > 0 {
        quot_i128(n, b as i128)
    } else {
        let m: i128 = -(b as i128);
        let nn: i128 = -n;
        quot_i128(nn, m)
    };
    q as i64
}

/// Integer square root by binary search.
pub fn isqrt_u128(n: u128) -> (r: u128)
    ensures
        is_sqrt(n as int, r as int),
        r == sqrt_floor(n as int),
{
    let mut lo: u128 = 0;
    let mut hi: u128 = 0xffff_ffff_ffff_ffff;
    proof {
        assert((0xffff_ffff_ffff_ffffu128 + 1) * (0xffff_ffff_ffff_ffffu128 + 1)
            > 0xffff_ffff_ffff_ffff_ffff_ffff_ffff_ffffu128) by (nonlinear_arith);
    }
    while lo < hi
        invariant
            lo <= hi <= 0xffff_ffff_ffff_ffff,
            lo * lo <= n,
            n < (hi + 1) * (hi + 1),
        decreases hi - lo,
    {
        let mid: u128 = lo + (hi - lo + 1) / 2;
        assert(lo < mid <= hi);
        assert(mid * mid <= 0xffff_ffff_ffff_ffffu128 * 0xffff_ffff_ffff_ffffu128)
            by (nonlinear_arith)
            requires
                mid <= 0xffff_ffff_ffff_ffffu128,
        ;
        if mid * mid <= n {
            lo = mid;
        } else {
            hi = mid - 1;
        }
    }
    proof {
        lemma_sqrt_is_floor(n as int, lo as int);
    }
    lo
}

/// Square root of a nonnegative fixed-point value: the raw result is the
/// floor of the square root of `x * FX_ONE`, which is the best fixed-point
/// approximation from below of the real square root of `x / FX_ONE`.
pub fn fx_sqrt(x: i64) -> (r: i64)
    requires
        0 <= x,
    ensures
        r == sqrt_floor(x * FX_ONE),
        is_sqrt(x * FX_ONE, r as int),
        0 <= r,
{
    let n: u128 = (x as u128) * 65536;
    let r: u128 = isqrt_u128(n);
    proof {
        assert((r as int) * (r as int) <= n < 0x1_0000_0000_0000_0000_0000u128);
        assert(r < 0x100_0000_0000u128) by (nonlinear_arith)
            requires
                (r as int) * (r as int) <= (n as int),
                (n as int) < 0x1_0000_0000_0000_0000_0000,
        ;
    }
    r as i64
}

} // verus!
