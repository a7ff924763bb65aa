//! The camera: viewport/pixel geometry, jittered per-pixel ray generation,
//! the recursive shading function, and multi-sample rendering.

use vstd::prelude::*;

use crate::color::{sampled_channel, Rgb, SampledColor};
use crate::fixed::{
    fxd, fxm, lemma_fxm_attenuates, lemma_fxm_bound, lemma_quot_bracket, lemma_quot_neg, quot,
    FX_ONE,
};
use crate::hittable_list::HittableList;
use crate::interval::Interval;
use crate::ray::{ray_in_range, Ray};
use crate::sampling::rand_range;
use crate::sphere::{sphere_hit, Sphere};
use crate::vec3::{sq_len, Point3, Vec3, COORD_MAX};
use crate::InvalidGeometry;

verus! {

/// Strong 16x anti aliasing.
pub const ANTI_ALIASING_STRONG: usize = 16;

/// Raw fixed-point viewport height (2.0).
pub const VIEWPORT_HEIGHT: i64 = 131072;

pub struct Camera {
    /// Aspect ratio, as an exact rational `aspect_num / aspect_den`
    pub aspect_num: u32,
    pub aspect_den: u32,
    /// Rendered image width
    pub image_width: usize,
    /// Rendered image height
    pub image_height: usize,
    /// Camera center
    pub center: Point3,
    /// Location of pixel 0,0
    pub pixel00_loc: Point3,
    /// Offset to pixel to the right
    pub pixel_delta_u: Vec3,
    /// Offset to pixel below
    pub pixel_delta_v: Vec3,
    /// Amount of samples to generate per pixel (anti aliasing)
    pub samples_per_pixel: usize,
    /// Maximum amount of times we bounce a ray
    pub max_depth: usize,
}

/// The construction parameters a camera accepts: a modest image width and a
/// positive rational aspect ratio within 64:1 either way, with at least one
/// sample per pixel.
pub open spec fn camera_params_ok(num: int, den: int, width: int, samples: int) -> bool {
    &&& 1 <= width <= 4096
    &&& 1 <= num <= 65536
    &&& 1 <= den <= 65536
    &&& num <= 64 * den
    &&& den <= 64 * num
    &&& 1 <= samples <= 65536
}

/// Derived image height: `width / aspect`, rounded to the nearest integer
/// (halves up), but at least 1.
pub open spec fn height_of(width: int, num: int, den: int) -> int {
    let h = (2 * width * den + num) / (2 * num);
    if h < 1 {
        1
    } else {
        h
    }
}

/// Raw viewport width: `viewport_height * width / height`, truncated.
pub open spec fn vw_of(width: int, height: int) -> int {
    quot(VIEWPORT_HEIGHT * width, height)
}

/// Horizontal pixel step: `viewport_width / width`.
pub open spec fn du_of(width: int, height: int) -> int {
    quot(vw_of(width, height), width)
}

/// Vertical pixel step: `-viewport_height / height` (rows grow downward).
pub open spec fn dv_of(height: int) -> int {
    -quot(VIEWPORT_HEIGHT as int, height)
}

/// X coordinate of pixel (0,0): half a pixel step right of the viewport's
/// left edge.
pub open spec fn p00x_of(width: int, height: int) -> int {
    quot(du_of(width, height), 2) - quot(vw_of(width, height), 2)
}

/// Y coordinate of pixel (0,0): half a pixel step below the viewport's top
/// edge (at `viewport_height / 2`).
pub open spec fn p00y_of(height: int) -> int {
    65536 + quot(dv_of(height), 2)
}

/// The background gradient's blend parameter `0.5 * (unit_y + 1)` for a ray.
pub open spec fn bg_mix(r: Ray) -> int {
    quot(fxd(r.direction.y as int, crate::vec3::len_of(r.direction)) + 65536, 2)
}

/// Linear blend `(1 - a) * 1 + a * c` between white and a sky color channel.
pub open spec fn blend(a: int, c: int) -> int {
    (65536 - a) + fxm(a, c)
}

/// No member of the scene reports a hit for the given window.
pub open spec fn list_misses(objs: Seq<Sphere>, r: Ray, tmin: int, tmax: int) -> bool {
    forall|i: int| 0 <= i < objs.len() ==> (#[trigger] sphere_hit(objs[i], r, tmin, tmax)) is None
}

/// `r` is an admissible sample ray for pixel `(i, j)`: it starts at the
/// camera center and aims at a point within half a pixel step of that
/// pixel's center.
pub open spec fn pixel_ray(cam: Camera, i: int, j: int, r: Ray) -> bool {
    &&& ray_in_range(r)
    &&& r.origin == cam.center
    &&& r.direction.z == -65536
    &&& 1 <= sq_len(r.direction)
    &&& -cam.pixel_delta_u.x <= 2 * (r.direction.x - cam.pixel00_loc.x - i * cam.pixel_delta_u.x)
        <= cam.pixel_delta_u.x
    &&& cam.pixel_delta_v.y <= 2 * (r.direction.y - cam.pixel00_loc.y - j * cam.pixel_delta_v.y)
        <= -cam.pixel_delta_v.y
}

/// Everything `ray_color` guarantees of a shading result `c` for ray `r` at
/// the given bounce budget: components in `[0, 1]`; exactly zero on an
/// exhausted budget; exactly the background gradient on a miss; attenuated
/// to at most one half after a bounce — and exactly zero when a single
/// remaining bounce hits, since that bounce exhausts the budget.
pub open spec fn shade_result(objs: Seq<Sphere>, r: Ray, depth: int, c: Vec3) -> bool {
    &&& 0 <= c.x <= 65536 && 0 <= c.y <= 65536 && 0 <= c.z <= 65536
    &&& depth == 0 ==> c.x == 0 && c.y == 0 && c.z == 0
    &&& depth > 0 && list_misses(objs, r, 0, 0x7fff_ffff_ffff_ffff) ==> c.x == blend(
        bg_mix(r),
        32768,
    ) && c.y == blend(bg_mix(r), 45875) && c.z == blend(bg_mix(r), 65536)
    &&& depth > 0 && !list_misses(objs, r, 0, 0x7fff_ffff_ffff_ffff) ==> c.x <= 32768 && c.y
        <= 32768 && c.z <= 32768
    &&& depth == 1 && !list_misses(objs, r, 0, 0x7fff_ffff_ffff_ffff) ==> c.x == 0 && c.y == 0
        && c.z == 0
}

/// Sums of the per-sample radiance components of a sample sequence.
pub open spec fn sum_cx(s: Seq<(Ray, Vec3)>) -> int
    decreases s.len(),
{
    if s.len() == 0 {
        0
    } else {
        sum_cx(s.drop_last()) + s.last().1.x
    }
}

pub open spec fn sum_cy(s: Seq<(Ray, Vec3)>) -> int
    decreases s.len(),
{
    if s.len() == 0 {
        0
    } else {
        sum_cy(s.drop_last()) + s.last().1.y
    }
}

pub open spec fn sum_cz(s: Seq<(Ray, Vec3)>) -> int
    decreases s.len(),
{
    if s.len() == 0 {
        0
    } else {
        sum_cz(s.drop_last()) + s.last().1.z
    }
}

/// One sample of pixel `k` (row-major): a ray admissible for that pixel
/// paired with a radiance value the shading function may return for it.
pub open spec fn pixel_sample_ok(cam: Camera, objs: Seq<Sphere>, k: int, smp: (Ray, Vec3)) -> bool {
    &&& pixel_ray(cam, k % (cam.image_width as int), k / (cam.image_width as int), smp.0)
    &&& shade_result(objs, smp.0, cam.max_depth as int, smp.1)
}

/// Pixel `k` of the output is the sampled-color encoding of the sum of
/// `samples_per_pixel` admissible shading samples for that pixel.
pub open spec fn pixel_rendered(cam: Camera, objs: Seq<Sphere>, k: int, px: Rgb) -> bool {
    exists|smps: Seq<(Ray, Vec3)>|
        {
            &&& smps.len() == cam.samples_per_pixel
            &&& (forall|s: int| 0 <= s < smps.len() ==> pixel_sample_ok(
                cam,
                objs,
                k,
                #[trigger] smps[s],
            ))
            &&& px.r == sampled_channel(sum_cx(smps), cam.samples_per_pixel as int)
            &&& px.g == sampled_channel(sum_cy(smps), cam.samples_per_pixel as int)
            &&& px.b == sampled_channel(sum_cz(smps), cam.samples_per_pixel as int)
        }
}

impl Camera {
    /// The derived geometry is internally consistent and in range; `new`
    /// establishes this and `get_ray` and `render` rely on it.
    pub open spec fn wf(self) -> bool {
        &&& 1 <= self.image_width <= 4096
        &&& 1 <= self.image_height <= 262144
        &&& 1 <= self.samples_per_pixel <= 65536
        &&& self.center.x == 0 && self.center.y == 0 && self.center.z == 0
        &&& self.pixel_delta_u.y == 0 && self.pixel_delta_u.z == 0
        &&& self.pixel_delta_v.x == 0 && self.pixel_delta_v.z == 0
        &&& 0 <= self.pixel_delta_u.x <= 0x2000_0000
        &&& -0x2_0000 <= self.pixel_delta_v.y <= 0
        &&& self.image_width * self.pixel_delta_u.x <= 0x2000_0000
        &&& self.image_height * (-self.pixel_delta_v.y) <= 0x2_0000
        &&& -0x2000_0000 <= self.pixel00_loc.x <= 0x2000_0000
        &&& 0 <= self.pixel00_loc.y <= 0x1_0000
        &&& self.pixel00_loc.z == -65536
    }

    /// Create a new `Camera` with the provided aspect ratio (as an exact
    /// rational), output image width, samples per pixel, and maximum ray
    /// bounce count. Out-of-range parameters are rejected.
    pub fn new(
        aspect_num: u32,
        aspect_den: u32,
        image_width: usize,
        samples_per_pixel: usize,
        max_depth: usize,
    ) -> (r: Result<Camera, InvalidGeometry>)
        ensures
            (r is Ok) == camera_params_ok(
                aspect_num as int,
                aspect_den as int,
                image_width as int,
                samples_per_pixel as int,
            ),
            r matches Ok(cam) ==> {
                &&& cam.wf()
                &&& cam.aspect_num == aspect_num
                &&& cam.aspect_den == aspect_den
                &&& cam.image_width == image_width
                &&& cam.image_height == height_of(
                    image_width as int,
                    aspect_num as int,
                    aspect_den as int,
                )
                &&& cam.pixel_delta_u.x == du_of(image_width as int, cam.image_height as int)
                &&& cam.pixel_delta_v.y == dv_of(cam.image_height as int)
                &&& cam.pixel00_loc.x == p00x_of(image_width as int, cam.image_height as int)
                &&& cam.pixel00_loc.y == p00y_of(cam.image_height as int)
                &&& cam.samples_per_pixel == samples_per_pixel
                &&& cam.max_depth == max_depth
            },
    {
        if !(1 <= image_width && image_width <= 4096 && 1 <= aspect_num && aspect_num <= 65536 && 1
            <= aspect_den && aspect_den <= 65536 && aspect_num as u64 <= 64 * (aspect_den as u64)
            && aspect_den as u64 <= 64 * (aspect_num as u64) && 1 <= samples_per_pixel
            && samples_per_pixel <= 65536) {
            return Err(InvalidGeometry);
        }
        // Calculate image height given the width and aspect ratio, rounding
        // to the nearest integer; ensure the height is at least 1.
        proof {
            assert(0 <= 2 * (image_width as int) * (aspect_den as int) <= 2 * 4096 * 65536)
                by (nonlinear_arith)
                requires
                    1 <= image_width as int <= 4096,
                    1 <= aspect_den as int <= 65536,
            ;
        }
        let wd: u64 = 2 * (image_width as u64) * (aspect_den as u64) + (aspect_num as u64);
        let h0: u64 = wd / (2 * (aspect_num as u64));
        proof {
            vstd::arithmetic::div_mod::lemma_div_nonincreasing(wd as int, 2 * (aspect_num as int));
            vstd::arithmetic::div_mod::lemma_div_pos_is_pos(wd as int, 2 * (aspect_num as int));
        }
        let image_height: usize = if h0 < 1 {
            1
        } else {
            h0 as usize
        };
        proof {
            assert(image_height == height_of(
                image_width as int,
                aspect_num as int,
                aspect_den as int,
            ));
            let w = image_width as int;
            let num = aspect_num as int;
            let den = aspect_den as int;
            assert(2 * w * den + num <= (128 * w + 1) * num) by (nonlinear_arith)
                requires
                    den <= 64 * num,
                    1 <= w,
                    1 <= num,
            ;
            assert(((128 * w + 1) * num) / (2 * num) == 64 * w) by {
                assert((128 * w + 1) * num == (2 * num) * (64 * w) + num) by (nonlinear_arith);
                vstd::arithmetic::div_mod::lemma_fundamental_div_mod_converse(
                    (128 * w + 1) * num,
                    2 * num,
                    64 * w,
                    num,
                );
            }
            vstd::arithmetic::div_mod::lemma_div_is_ordered(
                2 * w * den + num,
                (128 * w + 1) * num,
                2 * num,
            );
            assert(image_height <= 262144);
        }
        let focal_length: i64 = FX_ONE;
        // Viewport width from the actual pixel aspect.
        let vwn: u64 = (VIEWPORT_HEIGHT as u64) * (image_width as u64);
        let vw0: u64 = vwn / (image_height as u64);
        proof {
            vstd::arithmetic::div_mod::lemma_div_nonincreasing(vwn as int, image_height as int);
            vstd::arithmetic::div_mod::lemma_div_pos_is_pos(vwn as int, image_height as int);
        }
        let viewport_width: i64 = vw0 as i64;
        proof {
            assert(viewport_width == vw_of(image_width as int, image_height as int));
        }
        // Per-pixel steps across the viewport.
        let du0: u64 = (viewport_width as u64) / (image_width as u64);
        let hv0: u64 = (VIEWPORT_HEIGHT as u64) / (image_height as u64);
        proof {
            vstd::arithmetic::div_mod::lemma_div_nonincreasing(
                viewport_width as int,
                image_width as int,
            );
            vstd::arithmetic::div_mod::lemma_div_pos_is_pos(
                viewport_width as int,
                image_width as int,
            );
            vstd::arithmetic::div_mod::lemma_div_nonincreasing(
                VIEWPORT_HEIGHT as int,
                image_height as int,
            );
            vstd::arithmetic::div_mod::lemma_div_pos_is_pos(
                VIEWPORT_HEIGHT as int,
                image_height as int,
            );
        }
        let du: i64 = du0 as i64;
        let hv: i64 = hv0 as i64;
        proof {
            assert(du == du_of(image_width as int, image_height as int));
            lemma_quot_neg(VIEWPORT_HEIGHT as int, image_height as int);
            assert(-hv == dv_of(image_height as int));
            lemma_quot_bracket(viewport_width as int, image_width as int);
            lemma_quot_bracket(VIEWPORT_HEIGHT as int, image_height as int);
        }
        // Location of the upper left pixel: viewport corner plus half a
        // pixel step on each axis.
        let p00x: i64 = du / 2 - viewport_width / 2;
        let p00y: i64 = 65536 - hv / 2;
        proof {
            lemma_quot_neg(hv as int, 2);
            assert(p00x == p00x_of(image_width as int, image_height as int));
            assert(p00y == p00y_of(image_height as int));
        }
        Ok(
            Camera {
                aspect_num,
                aspect_den,
                image_width,
                image_height,
                center: Vec3 { x: 0, y: 0, z: 0 },
                pixel00_loc: Vec3 { x: p00x, y: p00y, z: -focal_length },
                pixel_delta_u: Vec3 { x: du, y: 0, z: 0 },
                pixel_delta_v: Vec3 { x: 0, y: -hv, z: 0 },
                samples_per_pixel,
                max_depth,
            },
        )
    }

    /// Return a random offset in the square surrounding the origin pixel:
    /// a jitter of `[-0.5, 0.5)` pixel steps on each viewport axis.
    pub fn pixel_sample_square(&self) -> (r: Vec3)
        requires
            self.wf(),
        ensures
            -self.pixel_delta_u.x <= 2 * r.x <= self.pixel_delta_u.x,
            self.pixel_delta_v.y <= 2 * r.y <= -self.pixel_delta_v.y,
            r.z == 0,
    {
        let px: i64 = rand_range(-32768, 32768);
        let py: i64 = rand_range(-32768, 32768);
        proof {
            lemma_fxm_bound(
                px as int,
                self.pixel_delta_u.x as int,
                32768,
                self.pixel_delta_u.x as int,
            );
            lemma_fxm_bound(
                py as int,
                self.pixel_delta_v.y as int,
                32768,
                -self.pixel_delta_v.y as int,
            );
        }
        let jx: i64 = crate::fixed::fx_mul(px, self.pixel_delta_u.x);
        let jy: i64 = crate::fixed::fx_mul(py, self.pixel_delta_v.y);
        Vec3 { x: jx, y: jy, z: 0 }
    }

    /// Build the jittered ray through pixel `(i, j)`: from the camera center
    /// toward a random sample point inside that pixel's footprint.
    pub fn get_ray(&self, i: usize, j: usize) -> (r: Ray)
        requires
            self.wf(),
            i < self.image_width,
            j < self.image_height,
        ensures
            pixel_ray(*self, i as int, j as int, r),
    {
        proof {
            assert((i as int) * (self.pixel_delta_u.x as int) <= (self.image_width as int) * (
            self.pixel_delta_u.x as int) && 0 <= (i as int) * (self.pixel_delta_u.x as int))
                by (nonlinear_arith)
                requires
                    0 <= i as int <= self.image_width as int,
                    0 <= self.pixel_delta_u.x as int,
            ;
            assert(-((self.image_height as int) * (-self.pixel_delta_v.y as int)) <= (j as int) * (
            self.pixel_delta_v.y as int) <= 0) by (nonlinear_arith)
                requires
                    0 <= j as int <= self.image_height as int,
                    self.pixel_delta_v.y as int <= 0,
            ;
        }
        let icx: i64 = (i as i64) * self.pixel_delta_u.x;
        let jcy: i64 = (j as i64) * self.pixel_delta_v.y;
        let jitter = self.pixel_sample_square();
        let dirx: i64 = self.pixel00_loc.x + icx + jitter.x;
        let diry: i64 = self.pixel00_loc.y + jcy + jitter.y;
        let direction = Vec3 { x: dirx, y: diry, z: -65536 };
        proof {
            assert(sq_len(direction) >= 65536 * 65536) by (nonlinear_arith)
                requires
                    direction.z == -65536,
                    sq_len(direction) == direction.x * direction.x + direction.y * direction.y
                        + direction.z * direction.z,
            ;
        }
        Ray { origin: self.center, direction }
    }

    /// The recursive shading function.
    ///
    /// With an exhausted bounce budget (`depth == 0`) the result is exactly
    /// zero radiance. When the scene reports no hit, the result is exactly
    /// the vertical background gradient. On a hit, the result is a bounced
    /// sample attenuated by one half, so every component stays in
    /// `[0, 0.5]`; in every case components lie in `[0, 1]`.
    pub fn ray_color(ray: &Ray, depth: usize, world: &HittableList) -> (c: Vec3)
        requires
            ray_in_range(*ray),
            1 <= sq_len(ray.direction),
            world.wf(),
        ensures
            shade_result(world.objects@, *ray, depth as int, c),
        decreases depth,
    {
        // Ray bounce limit: no more light is gathered.
        if depth == 0 {
            return Vec3::new();
        }
        // tmin 0 excludes self-intersection at the origin; the upper bound
        // is the largest representable parameter.
        let res = world.hit(ray, Interval::new(0, 0x7fff_ffff_ffff_ffff));
        match res {
            Some(rec) => {
                let direction = Vec3::random_on_hemisphere(&rec.normal);
                if rec.p.x >= -COORD_MAX && rec.p.x <= COORD_MAX && rec.p.y >= -COORD_MAX && rec.p.y
                    <= COORD_MAX && rec.p.z >= -COORD_MAX && rec.p.z <= COORD_MAX {
                    let bounce = Ray::new(rec.p, direction);
                    let inner = Self::ray_color(&bounce, depth - 1, world);
                    // Diffuse bounce: attenuate the gathered light by 0.5.
                    Vec3 {
                        x: half_radiance(inner.x),
                        y: half_radiance(inner.y),
                        z: half_radiance(inner.z),
                    }
                } else {
                    // A hit beyond the modeled coordinate range gathers no
                    // light.
                    Vec3::new()
                }
            },
            None => background(ray),
        }
    }

    /// Render a world as seen through this `Camera`: one display-ready pixel
    /// per image position, row-major from the top-left. Each output pixel is
    /// the sampled-color encoding of `samples_per_pixel` shading samples for
    /// its own position, per `pixel_rendered`.
    pub fn render(&self, world: &HittableList) -> (pixels: Vec<Rgb>)
        requires
            self.wf(),
            world.wf(),
        ensures
            pixels@.len() == self.image_height * self.image_width,
            forall|k: int|
                0 <= k < pixels@.len() ==> pixel_rendered(
                    *self,
                    world.objects@,
                    k,
                    #[trigger] pixels@[k],
                ),
    {
        let mut pixels: Vec<Rgb> = Vec::new();
        let mut j: usize = 0;
        while j < self.image_height
            invariant
                self.wf(),
                world.wf(),
                j <= self.image_height,
                pixels@.len() == j * self.image_width,
                forall|k: int|
                    0 <= k < pixels@.len() ==> pixel_rendered(
                        *self,
                        world.objects@,
                        k,
                        #[trigger] pixels@[k],
                    ),
            decreases self.image_height - j,
        {
            let mut i: usize = 0;
            while i < self.image_width
                invariant
                    self.wf(),
                    world.wf(),
                    j < self.image_height,
                    i <= self.image_width,
                    pixels@.len() == j * self.image_width + i,
                    forall|k: int|
                        0 <= k < pixels@.len() ==> pixel_rendered(
                            *self,
                            world.objects@,
                            k,
                            #[trigger] pixels@[k],
                        ),
                decreases self.image_width - i,
            {
                let ghost k0: int = j * self.image_width + i;
                proof {
                    assert(k0 == (self.image_width as int) * (j as int) + (i as int))
                        by (nonlinear_arith)
                        requires
                            k0 == (j as int) * (self.image_width as int) + (i as int),
                    ;
                    vstd::arithmetic::div_mod::lemma_fundamental_div_mod_converse(
                        k0,
                        self.image_width as int,
                        j as int,
                        i as int,
                    );
                }
                let ghost mut smps: Seq<(Ray, Vec3)> = Seq::empty();
                let mut color = Vec3::new();
                let mut s: usize = 0;
                while s < self.samples_per_pixel
                    invariant
                        self.wf(),
                        world.wf(),
                        i < self.image_width,
                        j < self.image_height,
                        s <= self.samples_per_pixel,
                        0 <= color.x <= s * 65536,
                        0 <= color.y <= s * 65536,
                        0 <= color.z <= s * 65536,
                        k0 % (self.image_width as int) == i as int,
                        k0 / (self.image_width as int) == j as int,
                        smps.len() == s,
                        forall|u: int|
                            0 <= u < smps.len() ==> pixel_sample_ok(
                                *self,
                                world.objects@,
                                k0,
                                #[trigger] smps[u],
                            ),
                        color.x == sum_cx(smps),
                        color.y == sum_cy(smps),
                        color.z == sum_cz(smps),
                    decreases self.samples_per_pixel - s,
                {
                    let ray = self.get_ray(i, j);
                    let c = Self::ray_color(&ray, self.max_depth, world);
                    proof {
                        assert((s + 1) * 65536 == s * 65536 + 65536) by (nonlinear_arith);
                        assert(s * 65536 <= 65536 * 65536) by (nonlinear_arith)
                            requires
                                0 <= s <= 65536,
                        ;
                        let prev = smps;
                        smps = smps.push((ray, c));
                        assert(smps.drop_last() =~= prev);
                        assert(smps.last() == (ray, c));
                        assert(pixel_sample_ok(*self, world.objects@, k0, (ray, c)));
                    }
                    color.add_assign(&c);
                    s = s + 1;
                }
                let pixel_color = SampledColor::new(color, self.samples_per_pixel);
                let px = pixel_color.rgb();
                proof {
                    assert(pixel_rendered(*self, world.objects@, k0, px));
                }
                pixels.push(px);
                i = i + 1;
            }
            proof {
                assert((j + 1) * (self.image_width as int) == j * (self.image_width as int) + (
                self.image_width as int)) by (nonlinear_arith);
            }
            j = j + 1;
        }
        pixels
    }
}

/// Attenuation by the diffuse reflectance factor 0.5.
fn half_radiance(x: i64) -> (r: i64)
    requires
        0 <= x <= 65536,
    ensures
        r == quot(x as int, 2),
        0 <= r <= 32768,
        x == 0 ==> r == 0,
{
    proof {
        if x == 0 {
            vstd::arithmetic::div_mod::lemma_div_of0(2);
        }
    }
    ((x as u64) / 2) as i64
}

/// The vertical background gradient: blend from white toward sky blue by
/// the unit direction's upward component.
fn background(ray: &Ray) -> (c: Vec3)
    requires
        ray_in_range(*ray),
        1 <= sq_len(ray.direction),
    ensures
        c.x == blend(bg_mix(*ray), 32768),
        c.y == blend(bg_mix(*ray), 45875),
        c.z == blend(bg_mix(*ray), 65536),
        0 <= c.x <= 65536 && 0 <= c.y <= 65536 && 0 <= c.z <= 65536,
{
    let unit_direction = ray.direction.unit_vector();
    let a: i64 = (((unit_direction.y + 65536) as u64) / 2) as i64;
    proof {
        assert(a == bg_mix(*ray));
        assert(0 <= a <= 65536);
        lemma_fxm_attenuates(a as int, 32768);
        lemma_fxm_attenuates(a as int, 45875);
        lemma_fxm_attenuates(a as int, 65536);
        lemma_fxm_bound(a as int, 65536, 65536, 65536);
    }
    let bx: i64 = (65536 - a) + crate::fixed::fx_mul(a, 32768);
    let by: i64 = (65536 - a) + crate::fixed::fx_mul(a, 45875);
    let bz: i64 = (65536 - a) + crate::fixed::fx_mul(a, 65536);
    Vec3 { x: bx, y: by, z: bz }
}

} // verus!
