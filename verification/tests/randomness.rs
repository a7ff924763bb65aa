//! Bounds of the random sampling helpers (these exercise the `rand`-backed
//! range wrapper through the library's public functions).

use ray_tracer::fixed::FX_ONE;
use ray_tracer::vec3::Vec3;

#[test]
fn random_components_are_in_unit_range() {
    for _ in 0..32 {
        let v = Vec3::random();
        assert!(0 <= v.x && v.x < FX_ONE);
        assert!(0 <= v.y && v.y < FX_ONE);
        assert!(0 <= v.z && v.z < FX_ONE);
    }
}

#[test]
fn random_range_respects_bounds() {
    for _ in 0..32 {
        let v = Vec3::random_range(-5, 7);
        assert!(-5 <= v.x && v.x < 7);
        assert!(-5 <= v.y && v.y < 7);
        assert!(-5 <= v.z && v.z < 7);
    }
}

#[test]
fn random_in_unit_sphere_is_inside_and_nonzero() {
    for _ in 0..32 {
        let v = Vec3::random_in_unit_sphere();
        let s = v.x * v.x + v.y * v.y + v.z * v.z;
        assert!(1 <= s && s <= FX_ONE * FX_ONE);
    }
}

#[test]
fn random_unit_vector_has_unit_components() {
    for _ in 0..32 {
        let v = Vec3::random_unit_vector();
        assert!(-FX_ONE <= v.x && v.x <= FX_ONE);
        assert!(-FX_ONE <= v.y && v.y <= FX_ONE);
        assert!(-FX_ONE <= v.z && v.z <= FX_ONE);
        // The fixed-point length is within a truncation step of one.
        let s = v.x * v.x + v.y * v.y + v.z * v.z;
        assert!(s >= 1);
    }
}

#[test]
fn hemisphere_samples_oppose_nothing() {
    let normal = Vec3::new_with_data(0, FX_ONE, 0);
    for _ in 0..32 {
        let v = Vec3::random_on_hemisphere(&normal);
        // The fixed-point dot product with the normal is never negative.
        let dot = (v.x as i128) * (normal.x as i128) / 65536
            + (v.y as i128) * (normal.y as i128) / 65536
            + (v.z as i128) * (normal.z as i128) / 65536;
        assert!(dot >= 0);
    }
}
