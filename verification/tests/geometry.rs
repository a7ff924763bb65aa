//! Intervals, rays and the front-face convention of hit records.

use ray_tracer::hittable::HitRecord;
use ray_tracer::interval::Interval;
use ray_tracer::ray::Ray;
use ray_tracer::vec3::Vec3;

#[test]
fn interval_contains_and_surrounds() {
    let iv = Interval::new(5, 10);
    assert!(iv.contains(5));
    assert!(iv.contains(10));
    assert!(iv.contains(7));
    assert!(!iv.contains(4));
    assert!(!iv.surrounds(5));
    assert!(!iv.surrounds(10));
    assert!(iv.surrounds(6));
    assert_eq!(iv.min(), 5);
    assert_eq!(iv.max(), 10);
}

#[test]
fn interval_clamp_saturates() {
    let iv = Interval::new(5, 10);
    assert_eq!(iv.clamp(3), 5);
    assert_eq!(iv.clamp(12), 10);
    assert_eq!(iv.clamp(7), 7);
}

#[test]
fn ray_at_walks_the_direction() {
    let r = Ray::new(
        Vec3::new_with_data(65536, 0, 0),
        Vec3::new_with_data(0, 131072, 0),
    );
    assert_eq!(r.origin().x, 65536);
    assert_eq!(r.direction().y, 131072);
    let p = r.at(32768);
    assert_eq!((p.x, p.y, p.z), (65536, 65536, 0));
}

#[test]
fn front_face_true_when_normal_opposes_ray() {
    let ray = Ray::new(Vec3::new(), Vec3::new_with_data(0, 0, -65536));
    let outward = Vec3::new_with_data(0, 0, 65536);
    let hr = HitRecord::new(Vec3::new(), 100, &ray, &outward);
    assert!(hr.front_face);
    assert_eq!((hr.normal.x, hr.normal.y, hr.normal.z), (0, 0, 65536));
    assert_eq!(hr.t, 100);
}

#[test]
fn back_face_flips_the_stored_normal() {
    let ray = Ray::new(Vec3::new(), Vec3::new_with_data(0, 0, -65536));
    let outward = Vec3::new_with_data(0, 0, -65536);
    let hr = HitRecord::new(Vec3::new(), 7, &ray, &outward);
    assert!(!hr.front_face);
    // The stored normal always opposes the incoming ray.
    assert_eq!((hr.normal.x, hr.normal.y, hr.normal.z), (0, 0, 65536));
    let dot = (ray.direction().x as i128) * (hr.normal.x as i128)
        + (ray.direction().y as i128) * (hr.normal.y as i128)
        + (ray.direction().z as i128) * (hr.normal.z as i128);
    assert!(dot / 65536 <= 0);
}
