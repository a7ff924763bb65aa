//! The recursive shading function and full renders on exactly computable
//! scenes.

use ray_tracer::camera::Camera;
use ray_tracer::hittable_list::HittableList;
use ray_tracer::ray::Ray;
use ray_tracer::sphere::Sphere;
use ray_tracer::vec3::Vec3;

/// The scene: a small sphere ahead of the camera and a large ground sphere.
fn two_sphere_world() -> HittableList {
    let mut world = HittableList::new();
    world.add(Sphere::new(Vec3::new_with_data(0, 0, -65536), 32768).unwrap());
    world.add(Sphere::new(Vec3::new_with_data(0, -6586368, -65536), 6553600).unwrap());
    world
}

#[test]
fn zero_depth_returns_zero_radiance() {
    let world = two_sphere_world();
    // A ray that hits and a ray that misses: with no bounce budget both
    // gather no light at all.
    let hitting = Ray::new(Vec3::new(), Vec3::new_with_data(0, 0, -65536));
    let missing = Ray::new(Vec3::new(), Vec3::new_with_data(0, 65536, 0));
    for ray in [hitting, missing] {
        let c = Camera::ray_color(&ray, 0, &world);
        assert_eq!((c.x, c.y, c.z), (0, 0, 0));
    }
}

#[test]
fn miss_returns_exact_background_gradient() {
    let world = two_sphere_world();
    // Straight up: the unit direction's y is exactly 1, so the blend
    // parameter is 1 and the result is exactly the sky color.
    let up = Ray::new(Vec3::new(), Vec3::new_with_data(0, 65536, 0));
    let c = Camera::ray_color(&up, 8, &world);
    assert_eq!((c.x, c.y, c.z), (32768, 45875, 65536));
    // Horizontal: the unit y is 0, the blend parameter is exactly 0.5.
    // Each channel is (1 - a) + a * sky = 0.5 + sky / 2, truncated.
    let level = Ray::new(Vec3::new(), Vec3::new_with_data(65536, 0, 0));
    let c2 = Camera::ray_color(&level, 8, &world);
    assert_eq!((c2.x, c2.y, c2.z), (32768 + 16384, 32768 + 22937, 65536));
}

#[test]
fn bounced_radiance_is_attenuated() {
    let world = two_sphere_world();
    let hitting = Ray::new(Vec3::new(), Vec3::new_with_data(0, 0, -65536));
    for _ in 0..16 {
        let c = Camera::ray_color(&hitting, 50, &world);
        assert!(c.x <= 32768 && c.y <= 32768 && c.z <= 32768);
        assert!(c.x >= 0 && c.y >= 0 && c.z >= 0);
    }
}

#[test]
fn camera_derives_documented_geometry() {
    let cam = Camera::new(16, 9, 400, 1, 1).unwrap();
    // The PPM header values: "P3", then width and height, then 255.
    assert_eq!(cam.image_width, 400);
    assert_eq!(cam.image_height, 225);
    // viewport width 2 * 400/225 = 3.5555... -> raw 233016
    assert_eq!(cam.pixel_delta_u.x, 233016 / 400);
    assert_eq!(cam.pixel_delta_v.y, -(131072 / 225));
}

#[test]
fn image_height_rounds_to_nearest() {
    // 7 / (2/1) = 3.5 rounds to 4, not down to 3.
    let cam = Camera::new(2, 1, 7, 1, 1).unwrap();
    assert_eq!(cam.image_height, 4);
    // 10 / (3/1) = 3.33 rounds down to 3.
    let cam2 = Camera::new(3, 1, 10, 1, 1).unwrap();
    assert_eq!(cam2.image_height, 3);
    // A very wide aspect still yields at least one row.
    let cam3 = Camera::new(64, 1, 10, 1, 1).unwrap();
    assert_eq!(cam3.image_height, 1);
}

#[test]
fn render_center_pixel_differs_from_background() {
    let cam = Camera::new(16, 9, 400, 1, 1).unwrap();
    let world = two_sphere_world();
    let pixels = cam.render(&world);
    assert_eq!(pixels.len(), 400 * 225);
    // The background's blue channel is exactly 1.0 for every direction
    // (the sky color's blue is 1), which discretizes to 255.
    let top_left = pixels[0];
    assert_eq!(top_left.b, 255);
    // The image center looks straight at the near sphere. With a bounce
    // budget of 1 the bounce exhausts the budget and gathers nothing, so
    // the center pixel is black — different from the analytic background.
    let center = pixels[112 * 400 + 200];
    assert_eq!((center.r, center.g, center.b), (0, 0, 0));
}

#[test]
fn camera_rejects_degenerate_parameters() {
    assert!(Camera::new(16, 9, 0, 1, 1).is_err());
    assert!(Camera::new(16, 9, 400, 0, 1).is_err());
    assert!(Camera::new(0, 9, 400, 1, 1).is_err());
    assert!(Camera::new(16, 0, 400, 1, 1).is_err());
    // Aspect ratios beyond 64:1 are rejected.
    assert!(Camera::new(65 * 9, 1, 400, 1, 1).is_err());
}

#[test]
fn get_ray_points_into_the_viewport() {
    let cam = Camera::new(16, 9, 400, 1, 1).unwrap();
    for _ in 0..8 {
        let ray = cam.get_ray(200, 112);
        assert_eq!(ray.origin().x, 0);
        assert_eq!(ray.direction().z, -65536);
    }
}
