//! Exact-value tests for fixed-point vector arithmetic.

use ray_tracer::fixed::{fx_div, fx_mul, fx_sqrt, FX_ONE};
use ray_tracer::vec3::Vec3;

#[test]
fn zero_vector_from_new() {
    let v = Vec3::new();
    assert_eq!(v.x(), 0);
    assert_eq!(v.y(), 0);
    assert_eq!(v.z(), 0);
}

#[test]
fn new_with_data_stores_components() {
    let v = Vec3::new_with_data(1, -2, 3);
    assert_eq!(v.x(), 1);
    assert_eq!(v.y(), -2);
    assert_eq!(v.z(), 3);
}

#[test]
fn add_and_sub_are_componentwise() {
    let a = Vec3::new_with_data(65536, 131072, -196608);
    let b = Vec3::new_with_data(32768, -65536, 65536);
    let s = a.add(b);
    assert_eq!((s.x, s.y, s.z), (98304, 65536, -131072));
    let d = a.sub(b);
    assert_eq!((d.x, d.y, d.z), (32768, 196608, -262144));
}

#[test]
fn scalar_mul_and_div() {
    let v = Vec3::new_with_data(65536, 131072, -196608);
    let doubled = v.mul(131072);
    assert_eq!((doubled.x, doubled.y, doubled.z), (131072, 262144, -393216));
    let halved = v.div(131072);
    assert_eq!((halved.x, halved.y, halved.z), (32768, 65536, -98304));
}

#[test]
fn neg_flips_components() {
    let v = Vec3::new_with_data(1, -2, 0).neg();
    assert_eq!((v.x, v.y, v.z), (-1, 2, 0));
}

#[test]
fn compound_assignments() {
    let mut v = Vec3::new_with_data(65536, 0, -65536);
    v.add_assign(&Vec3::new_with_data(65536, 65536, 65536));
    assert_eq!((v.x, v.y, v.z), (131072, 65536, 0));
    v.mul_assign(32768);
    assert_eq!((v.x, v.y, v.z), (65536, 32768, 0));
    v.div_assign(131072);
    assert_eq!((v.x, v.y, v.z), (32768, 16384, 0));
}

#[test]
fn dot_product_exact() {
    let a = Vec3::new_with_data(FX_ONE, 0, 0);
    assert_eq!(a.dot(&a), FX_ONE);
    let b = Vec3::new_with_data(131072, 196608, -65536);
    let c = Vec3::new_with_data(32768, 65536, 131072);
    // 2*0.5 + 3*1 + (-1)*2 = 1 + 3 - 2 = 2
    assert_eq!(b.dot(&c), 131072);
}

#[test]
fn cross_product_of_axes() {
    let x = Vec3::new_with_data(FX_ONE, 0, 0);
    let y = Vec3::new_with_data(0, FX_ONE, 0);
    let z = x.cross(&y);
    assert_eq!((z.x, z.y, z.z), (0, 0, FX_ONE));
}

#[test]
fn length_of_pythagorean_triple() {
    // (3, 4, 0) has length exactly 5.
    let v = Vec3::new_with_data(196608, 262144, 0);
    assert_eq!(v.len(), 327680);
    assert_eq!(v.length_squared(), 25 * FX_ONE);
}

#[test]
fn unit_vector_of_axis_multiple() {
    let v = Vec3::new_with_data(0, 131072, 0);
    let u = v.unit_vector();
    assert_eq!((u.x, u.y, u.z), (0, FX_ONE, 0));
}

#[test]
fn fixed_point_operations_truncate_toward_zero() {
    assert_eq!(fx_mul(196608, 32768), 98304);
    assert_eq!(fx_mul(-196608, 32768), -98304);
    assert_eq!(fx_div(196608, 131072), 98304);
    assert_eq!(fx_div(65536, 3 * 65536), 21845);
    assert_eq!(fx_div(-65536, 3 * 65536), -21845);
    assert_eq!(fx_sqrt(FX_ONE), FX_ONE);
    assert_eq!(fx_sqrt(16384), 32768);
    assert_eq!(fx_sqrt(0), 0);
}
