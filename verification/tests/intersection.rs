//! Sphere intersection and closest-hit aggregation, on exactly computable
//! scenes.

use ray_tracer::hittable_list::HittableList;
use ray_tracer::interval::Interval;
use ray_tracer::ray::Ray;
use ray_tracer::sphere::Sphere;
use ray_tracer::vec3::Vec3;
use ray_tracer::InvalidGeometry;

fn forward_ray() -> Ray {
    Ray::new(Vec3::new(), Vec3::new_with_data(0, 0, -65536))
}

#[test]
fn sphere_hit_exact_root() {
    // Unit-direction ray against a sphere of radius 0.5 centered one unit
    // ahead: nearest root at t = 0.5 exactly.
    let s = Sphere::new(Vec3::new_with_data(0, 0, -65536), 32768).unwrap();
    let hr = s
        .hit(&forward_ray(), &Interval::new(0, i64::MAX))
        .expect("ray through the center must hit");
    assert_eq!(hr.t, 32768);
    assert_eq!((hr.p.x, hr.p.y, hr.p.z), (0, 0, -32768));
    assert_eq!((hr.normal.x, hr.normal.y, hr.normal.z), (0, 0, 65536));
    assert!(hr.front_face);
}

#[test]
fn hit_point_lies_on_the_sphere() {
    // |R.at(t) - center| equals the radius, within the fixed-point
    // truncation tolerance of the arithmetic.
    let s = Sphere::new(Vec3::new_with_data(19661, -13107, -131072), 45875).unwrap();
    let r = Ray::new(
        Vec3::new_with_data(6554, 3277, 65536),
        Vec3::new_with_data(-6554, -3277, -72090),
    );
    let hr = s
        .hit(&r, &Interval::new(0, i64::MAX))
        .expect("the ray aims near the center and must hit");
    let dx = (hr.p.x - s.center.x) as i128;
    let dy = (hr.p.y - s.center.y) as i128;
    let dz = (hr.p.z - s.center.z) as i128;
    let dist2 = dx * dx + dy * dy + dz * dz;
    let r2 = (s.radius as i128) * (s.radius as i128);
    // Tolerance: a few fixed-point steps of distance around the radius.
    let tol: i128 = 256;
    let lo = (s.radius as i128 - tol) * (s.radius as i128 - tol);
    let hi = (s.radius as i128 + tol) * (s.radius as i128 + tol);
    assert!(lo <= dist2 && dist2 <= hi, "dist2 {} vs r2 {}", dist2, r2);
}

#[test]
fn interval_rejects_roots_outside_window() {
    let s = Sphere::new(Vec3::new_with_data(0, 0, -65536), 32768).unwrap();
    // Window that excludes the near root (0.5) but admits the far one (1.5).
    let hr = s
        .hit(&forward_ray(), &Interval::new(40000, i64::MAX))
        .expect("the far root is inside the window");
    assert_eq!(hr.t, 98304);
    assert!(!hr.front_face);
    // Window that excludes both roots.
    assert!(s.hit(&forward_ray(), &Interval::new(0, 30000)).is_none());
    // Boundary is strict: a window ending exactly at the root rejects it.
    assert!(s.hit(&forward_ray(), &Interval::new(0, 32768)).is_none());
}

#[test]
fn sphere_rejects_degenerate_geometry() {
    let err = Sphere::new(Vec3::new(), 0).map(|_| ()).unwrap_err();
    assert_eq!(err, InvalidGeometry);
    assert!(Sphere::new(Vec3::new(), -65536).is_err());
    assert!(Sphere::new(Vec3::new(), 65536).is_ok());
}

#[test]
fn list_returns_globally_nearest_hit() {
    // Two overlapping spheres along one ray: the near sphere's root t = 1.0,
    // the far sphere's root t = 2.0; the minimum must survive either order.
    let near = Sphere::new(Vec3::new_with_data(0, 0, -98304), 32768).unwrap();
    let far = Sphere::new(Vec3::new_with_data(0, 0, -196608), 65536).unwrap();

    let mut world = HittableList::new();
    world.add(far);
    world.add(near);
    let hr = world
        .hit(&forward_ray(), Interval::new(0, i64::MAX))
        .expect("both spheres are ahead of the ray");
    assert_eq!(hr.t, 65536);

    let mut world2 = HittableList::new();
    world2.add(near);
    world2.add(far);
    let hr2 = world2
        .hit(&forward_ray(), Interval::new(0, i64::MAX))
        .expect("both spheres are ahead of the ray");
    assert_eq!(hr2.t, 65536);
}

#[test]
fn empty_list_reports_no_hit() {
    let world = HittableList::new();
    assert!(world.hit(&forward_ray(), Interval::new(0, i64::MAX)).is_none());
}

#[test]
fn clear_empties_the_list() {
    let mut world = HittableList::new();
    world.add(Sphere::new(Vec3::new_with_data(0, 0, -65536), 32768).unwrap());
    assert!(world.hit(&forward_ray(), Interval::new(0, i64::MAX)).is_some());
    world.clear();
    assert!(world.hit(&forward_ray(), Interval::new(0, i64::MAX)).is_none());
    assert!(world.check_geometry());
}
