//! The camera: derives a viewport from the image and lens parameters,
//! casts jittered per-pixel rays, drives the recursive color integration,
//! and averages the samples of every pixel.
//!
//! Trigonometry does not exist in fixed point here, so the camera takes
//! the two tangents it needs (`tan(vfov / 2)` and `tan(defocus / 2)`) as
//! plain fixed-point inputs; the surrounding program computes them.

use vstd::prelude::*;
use crate::fixed::{
    SCALE, HALF_SCALE, abs_s, tdiv, fx_mul_s, fx_mul, fx_raw_div, lemma_tdiv_abs,
    lemma_tdiv_abs_times, lemma_tdiv_ordered, lemma_tdiv_mul_exact, lemma_tdiv_bound_by,
    lemma_tdiv_lower, lemma_fx_mul_bound, lemma_fx_mul_unit_interval,
};
use crate::vec3::{
    Vec3, V3, v3_zero, v3_add_s, v3_sub_s, v3_neg_s, v3_scale_s, v3_div_count_s, v3_bounded,
    v3_unit_s, v3_cross_s, v3_len2_s, v3_len2_wide, v3_in_unit_interval, unit_vector, cross,
    random_in_unit_disk, lemma_v3_scale_bound, lemma_unit_component_bounds,
};
use crate::ray::{Ray, ray_wf, ray_wf_check};
use crate::hittable::Hittable;
use crate::material::Material;
use crate::sphere::CENTER_MAX;
use crate::rtweekend::{RandomSource, random_double, INFINITY};
use crate::SHADOW_ACNE_MIN_T;

verus! {

/// Largest image width the camera accepts.
pub const IMAGE_WIDTH_MAX: u32 = 32_768;

/// Largest per-pixel sample count the camera accepts.
pub const SAMPLES_MAX: u32 = 65_536;

/// Largest tangent (of the half field of view or half defocus angle)
/// accepted: one hundred.
pub const TAN_MAX: i64 = 100_000_000;

/// Envelope of the camera's derived viewport vectors.
pub const VIEWPORT_MAX: i64 = 20_000_000_000_000_000;

/// The camera and its derived state, computed once at construction and
/// immutable while rendering.
pub struct Camera {
    pub center: Vec3,
    pub pixel00_loc: Vec3,
    pub pixel_delta_u: Vec3,
    pub pixel_delta_v: Vec3,
    pub aspect_ratio: i64,
    pub image_width: u32,
    pub image_height: u32,
    pub samples_per_pixel: u32,
    pub pixel_samples_scale: i64,
    pub max_depth: u32,
    pub lookfrom: Vec3,
    pub lookat: Vec3,
    pub vup: Vec3,
    pub tan_half_defocus: i64,
    pub defocus_disk_u: Vec3,
    pub defocus_disk_v: Vec3,
}

/// The numeric envelope of a constructed camera; everything `get_ray` and
/// `render` compute stays inside the machine words because of it.
pub open spec fn camera_wf(c: Camera) -> bool {
    &&& 1 <= c.image_width <= IMAGE_WIDTH_MAX
    &&& 1 <= c.image_height <= 40_000_000
    &&& 1 <= c.samples_per_pixel <= SAMPLES_MAX
    &&& 0 <= c.pixel_samples_scale
    &&& (c.pixel_samples_scale as int) * (c.samples_per_pixel as int) <= SCALE as int
    &&& v3_bounded(c.center@, 2_000_000_000)
    &&& v3_bounded(c.pixel00_loc@, VIEWPORT_MAX as int)
    &&& abs_s(c.pixel_delta_u@.x) * (c.image_width as int) <= VIEWPORT_MAX as int
    &&& abs_s(c.pixel_delta_u@.y) * (c.image_width as int) <= VIEWPORT_MAX as int
    &&& abs_s(c.pixel_delta_u@.z) * (c.image_width as int) <= VIEWPORT_MAX as int
    &&& abs_s(c.pixel_delta_v@.x) * (c.image_height as int) <= VIEWPORT_MAX as int
    &&& abs_s(c.pixel_delta_v@.y) * (c.image_height as int) <= VIEWPORT_MAX as int
    &&& abs_s(c.pixel_delta_v@.z) * (c.image_height as int) <= VIEWPORT_MAX as int
    &&& v3_bounded(c.defocus_disk_u@, 1_000_000_000_000)
    &&& v3_bounded(c.defocus_disk_v@, 1_000_000_000_000)
}

/// The exact derivation of every camera field from the construction
/// parameters: image height from width and aspect ratio (floored, at
/// least one), the orthonormal frame from the look and up directions, the
/// viewport edges and per-pixel deltas, the location of pixel (0, 0), and
/// the defocus disk basis.
pub open spec fn camera_derivation_ok(
    cam: Camera,
    max_depth: u32,
    aspect_ratio: int,
    image_width: u32,
    samples_per_pixel: u32,
    tan_half_vfov: int,
    lookfrom: V3,
    lookat: V3,
    vup: V3,
    focus_dist: int,
    tan_half_defocus: int,
) -> bool {
    let height0 = tdiv((image_width as int) * (SCALE as int), aspect_ratio);
    let height = if height0 < 1 {
        1
    } else {
        height0
    };
    let w = v3_unit_s(v3_sub_s(lookfrom, lookat));
    let u = v3_unit_s(v3_cross_s(vup, w));
    let v = v3_cross_s(w, u);
    let viewport_height = 2 * fx_mul_s(tan_half_vfov, focus_dist);
    let ratio = tdiv((image_width as int) * (SCALE as int), height);
    let viewport_width = fx_mul_s(viewport_height, ratio);
    let viewport_u = v3_scale_s(u, viewport_width);
    let viewport_v = v3_scale_s(v3_neg_s(v), viewport_height);
    let pdu = v3_div_count_s(viewport_u, image_width as int);
    let pdv = v3_div_count_s(viewport_v, height);
    let upper_left = v3_sub_s(
        v3_sub_s(v3_sub_s(lookfrom, v3_scale_s(w, focus_dist)), v3_div_count_s(viewport_u, 2)),
        v3_div_count_s(viewport_v, 2),
    );
    let pixel00 = v3_add_s(upper_left, v3_scale_s(v3_add_s(pdu, pdv), HALF_SCALE as int));
    let defocus_radius = fx_mul_s(focus_dist, tan_half_defocus);
    &&& cam.max_depth == max_depth
    &&& cam.aspect_ratio as int == aspect_ratio
    &&& cam.image_width == image_width
    &&& cam.image_height as int == height
    &&& cam.samples_per_pixel == samples_per_pixel
    &&& cam.pixel_samples_scale as int == tdiv(SCALE as int, samples_per_pixel as int)
    &&& cam.lookfrom@ == lookfrom
    &&& cam.lookat@ == lookat
    &&& cam.vup@ == vup
    &&& cam.center@ == lookfrom
    &&& cam.pixel00_loc@ == pixel00
    &&& cam.pixel_delta_u@ == pdu
    &&& cam.pixel_delta_v@ == pdv
    &&& cam.tan_half_defocus as int == tan_half_defocus
    &&& cam.defocus_disk_u@ == v3_scale_s(u, defocus_radius)
    &&& cam.defocus_disk_v@ == v3_scale_s(v, defocus_radius)
}

/// Whether `origin` is the camera center displaced by a point strictly
/// inside the defocus lens disk (spanned by the two disk basis vectors).
pub open spec fn on_defocus_disk_s(c: Camera, origin: V3) -> bool {
    exists|d: V3|
        {
            &&& v3_bounded(d, SCALE as int)
            &&& v3_len2_s(d) < SCALE as int
            &&& d.z == 0
            &&& origin == v3_add_s(
                v3_add_s(c.center@, v3_scale_s(c.defocus_disk_u@, d.x)),
                v3_scale_s(c.defocus_disk_v@, d.y),
            )
        }
}

/// The sub-pixel target of sample `(i, j)` on the viewport, given the
/// antialiasing jitter.
pub open spec fn camera_pixel_sample_s(c: Camera, i: int, j: int, offset: V3) -> V3 {
    v3_add_s(
        v3_add_s(c.pixel00_loc@, v3_scale_s(c.pixel_delta_u@, i * (SCALE as int) + offset.x)),
        v3_scale_s(c.pixel_delta_v@, j * (SCALE as int) + offset.y),
    )
}

/// The componentwise sum of a sequence of colors.
pub open spec fn v3_sum_s(samples: Seq<V3>) -> V3
    decreases samples.len(),
{
    if samples.len() == 0 {
        v3_zero()
    } else {
        v3_add_s(v3_sum_s(samples.drop_last()), samples.last())
    }
}

/// A finished pixel: the `1 / samples_per_pixel` scaling of a sum of
/// exactly `spp` sample colors, each inside the unit cube.
pub open spec fn pixel_sample_average_s(c: V3, spp: int, scale: int) -> bool {
    exists|samples: Seq<V3>|
        {
            &&& samples.len() == spp
            &&& (forall|m: int| 0 <= m < samples.len() ==> v3_in_unit_interval(#[trigger] samples[m]))
            &&& c == v3_scale_s(v3_sum_s(samples), scale)
        }
}

/// The background: a vertical white-to-sky-blue gradient over the unit
/// direction's height.
pub open spec fn background_color_s(dir: V3) -> V3 {
    let unit = v3_unit_s(dir);
    let t = tdiv(unit.y + SCALE as int, 2);
    v3_add_s(
        v3_scale_s(V3 { x: SCALE as int, y: SCALE as int, z: SCALE as int }, SCALE as int - t),
        v3_scale_s(V3 { x: HALF_SCALE as int, y: 700_000, z: SCALE as int }, t),
    )
}

/// Draws the antialiasing jitter: a point of the unit square centered on
/// the origin of the pixel grid.
pub fn sample_square(rng: &mut RandomSource) -> (v: Vec3)
    ensures
        -(HALF_SCALE as int) <= v@.x < HALF_SCALE as int,
        -(HALF_SCALE as int) <= v@.y < HALF_SCALE as int,
        v@.z == 0,
{
    let x = random_double(rng) - HALF_SCALE;
    let y = random_double(rng) - HALF_SCALE;
    Vec3::new(x, y, 0)
}

/// Magnitude bound of a pixel-delta component scaled by an in-grid
/// fixed-point coordinate.
proof fn lemma_pd_fit(a: int, n: int, t: int)
    requires
        n >= 1,
        abs_s(a) * n <= VIEWPORT_MAX as int,
        abs_s(t) <= n * (SCALE as int),
    ensures
        abs_s(a * t) <= (VIEWPORT_MAX as int) * (SCALE as int),
        abs_s(fx_mul_s(a, t)) <= VIEWPORT_MAX as int,
{
    assert(abs_s(a * t) <= (VIEWPORT_MAX as int) * (SCALE as int)) by (nonlinear_arith)
        requires
            n >= 1,
            abs_s(a) * n <= VIEWPORT_MAX as int,
            abs_s(t) <= n * (SCALE as int),
            VIEWPORT_MAX == 20_000_000_000_000_000,
            SCALE == 1_000_000,
    ;
    lemma_tdiv_bound_by(a * t, SCALE as int, VIEWPORT_MAX as int);
}

impl Camera {
    /// Derives a camera from the image geometry, sampling parameters and
    /// lens description. `tan_half_vfov` and `tan_half_defocus` are the
    /// tangents of half the vertical field of view and half the defocus
    /// angle, as fixed-point scalars.
    #[verifier::rlimit(100)]
    pub fn new(
        max_depth: u32,
        aspect_ratio: i64,
        image_width: u32,
        samples_per_pixel: u32,
        tan_half_vfov: i64,
        lookfrom: Vec3,
        lookat: Vec3,
        vup: Vec3,
        focus_dist: i64,
        tan_half_defocus: i64,
    ) -> (cam: Camera)
        requires
            1 <= image_width <= IMAGE_WIDTH_MAX,
            1 <= samples_per_pixel <= SAMPLES_MAX,
            1_000 <= aspect_ratio,
            0 < tan_half_vfov <= TAN_MAX,
            abs_s(tan_half_defocus as int) <= TAN_MAX as int,
            0 < focus_dist <= CENTER_MAX,
            v3_bounded(lookfrom@, CENTER_MAX as int),
            v3_bounded(lookat@, CENTER_MAX as int),
            v3_bounded(vup@, CENTER_MAX as int),
            v3_len2_wide(v3_sub_s(lookfrom@, lookat@)) >= 1,
            v3_len2_wide(
                v3_cross_s(vup@, v3_unit_s(v3_sub_s(lookfrom@, lookat@))),
            ) >= 1,
        ensures
            camera_derivation_ok(
                cam,
                max_depth,
                aspect_ratio as int,
                image_width,
                samples_per_pixel,
                tan_half_vfov as int,
                lookfrom@,
                lookat@,
                vup@,
                focus_dist as int,
                tan_half_defocus as int,
            ),
            camera_wf(cam),
    {
        let ghost si: int = SCALE as int;
        // image height from width and aspect ratio, floored, at least 1
        let height0 = fx_raw_div((image_width as i64) * SCALE, aspect_ratio);
        proof {
            lemma_tdiv_abs((image_width as i64) as int * si, aspect_ratio as int);
        }
        let image_height_i64 = if height0 < 1 {
            1i64
        } else {
            height0
        };
        proof {
            lemma_tdiv_bound_by((image_width as int) * si, aspect_ratio as int, 40_000_000);
            assert((image_width as int) * si <= 40_000_000 * (aspect_ratio as int))
                by (nonlinear_arith)
                requires
                    1 <= image_width <= IMAGE_WIDTH_MAX,
                    si == 1_000_000,
                    aspect_ratio >= 1_000,
                    IMAGE_WIDTH_MAX == 32_768,
            ;
        }
        let image_height = image_height_i64 as u32;
        // averaging factor: 1 / samples_per_pixel
        let pixel_samples_scale = fx_raw_div(SCALE, samples_per_pixel as i64);
        proof {
            lemma_tdiv_abs(si, samples_per_pixel as int);
            lemma_tdiv_lower(si, samples_per_pixel as int);
        }
        // camera frame
        let w = unit_vector(lookfrom.sub(lookat));
        let cross_vw = cross(vup, w);
        proof {
            crate::vec3::lemma_v3_cross_bound(vup@, w@, CENTER_MAX as int, SCALE as int, 4_000_000_000);
            assert(2 * ((CENTER_MAX as int) * (SCALE as int)) <= 4_000_000_000 * (SCALE as int))
                by (nonlinear_arith)
                requires
                    CENTER_MAX == 2_000_000_000,
                    SCALE == 1_000_000,
            ;
        }
        let u = unit_vector(cross_vw);
        proof {
            crate::vec3::lemma_v3_cross_bound(w@, u@, SCALE as int, SCALE as int, 2_000_000);
            assert(2 * ((SCALE as int) * (SCALE as int)) <= 2_000_000 * (SCALE as int))
                by (nonlinear_arith)
                requires
                    SCALE == 1_000_000,
            ;
        }
        let v = cross(w, u);
        // viewport extents
        proof {
            lemma_fx_mul_bound(tan_half_vfov as int, focus_dist as int, TAN_MAX as int, CENTER_MAX as int);
            assert(tdiv((TAN_MAX as int) * (CENTER_MAX as int), si) == 200_000_000_000)
                by (nonlinear_arith)
                requires
                    si == 1_000_000,
                    TAN_MAX == 100_000_000,
                    CENTER_MAX == 2_000_000_000,
            ;
        }
        let viewport_height = 2 * fx_mul(tan_half_vfov, focus_dist);
        let ratio = fx_raw_div((image_width as i64) * SCALE, image_height as i64);
        proof {
            lemma_tdiv_abs((image_width as int) * si, image_height as int);
            assert(abs_s((image_width as int) * si) <= 32_768_000_000) by (nonlinear_arith)
                requires
                    1 <= image_width <= IMAGE_WIDTH_MAX,
                    si == 1_000_000,
                    IMAGE_WIDTH_MAX == 32_768,
            ;
            lemma_fx_mul_bound(viewport_height as int, ratio as int, 400_000_000_000, 32_768_000_000);
            assert(tdiv(400_000_000_000int * 32_768_000_000, si) == 13_107_200_000_000_000)
                by (nonlinear_arith)
                requires
                    si == 1_000_000,
            ;
        }
        let viewport_width = fx_mul(viewport_height, ratio);
        // viewport edge vectors and per-pixel deltas
        proof {
            lemma_v3_scale_bound(u@, viewport_width as int, si, 13_107_200_000_000_000);
            assert(tdiv(si * 13_107_200_000_000_000, si) == 13_107_200_000_000_000)
                by (nonlinear_arith)
                requires
                    si == 1_000_000,
            ;
            lemma_v3_scale_bound(v3_neg_s(v@), viewport_height as int, 2_000_000, 400_000_000_000);
            assert(tdiv(2_000_000int * 400_000_000_000, si) == 800_000_000_000)
                by (nonlinear_arith)
                requires
                    si == 1_000_000,
            ;
        }
        let viewport_u = u.scale(viewport_width);
        let viewport_v = v.neg().scale(viewport_height);
        let pixel_delta_u = div_count(viewport_u, image_width as i64);
        let pixel_delta_v = div_count(viewport_v, image_height as i64);
        // upper-left corner and the first pixel's location
        proof {
            lemma_v3_scale_bound(w@, focus_dist as int, si, CENTER_MAX as int);
            assert(tdiv(si * (CENTER_MAX as int), si) == CENTER_MAX as int) by (nonlinear_arith)
                requires
                    si == 1_000_000,
                    CENTER_MAX == 2_000_000_000,
            ;
            lemma_div_count_bound(viewport_u@, 2, 13_107_200_000_000_000);
            lemma_div_count_bound(viewport_v@, 2, 800_000_000_000);
            lemma_div_count_bound(viewport_u@, image_width as int, 13_107_200_000_000_000);
            lemma_div_count_bound(viewport_v@, image_height as int, 800_000_000_000);
        }
        let half_vu = div_count(viewport_u, 2);
        let half_vv = div_count(viewport_v, 2);
        let viewport_upper_left = lookfrom.sub(w.scale(focus_dist)).sub(half_vu).sub(half_vv);
        proof {
            lemma_v3_scale_bound(
                v3_add_s(pixel_delta_u@, pixel_delta_v@),
                HALF_SCALE as int,
                14_707_200_000_000_000,
                HALF_SCALE as int,
            );
            assert(tdiv(14_707_200_000_000_000 * (HALF_SCALE as int), si) == 7_353_600_000_000_000)
                by (nonlinear_arith)
                requires
                    si == 1_000_000,
                    HALF_SCALE == 500_000,
            ;
        }
        let pixel00_loc = viewport_upper_left.add(pixel_delta_u.add(pixel_delta_v).scale(HALF_SCALE));
        // defocus disk basis
        proof {
            lemma_fx_mul_bound(focus_dist as int, tan_half_defocus as int, CENTER_MAX as int, TAN_MAX as int);
            assert(tdiv((CENTER_MAX as int) * (TAN_MAX as int), si) == 200_000_000_000)
                by (nonlinear_arith)
                requires
                    si == 1_000_000,
                    TAN_MAX == 100_000_000,
                    CENTER_MAX == 2_000_000_000,
            ;
            lemma_v3_scale_bound(u@, fx_mul_s(focus_dist as int, tan_half_defocus as int), si, 200_000_000_000);
            lemma_v3_scale_bound(v@, fx_mul_s(focus_dist as int, tan_half_defocus as int), 2_000_000, 200_000_000_000);
            assert(tdiv(si * 200_000_000_000, si) == 200_000_000_000) by (nonlinear_arith)
                requires
                    si == 1_000_000,
            ;
            assert(tdiv(2_000_000int * 200_000_000_000, si) == 400_000_000_000) by (nonlinear_arith)
                requires
                    si == 1_000_000,
            ;
        }
        let defocus_radius = fx_mul(focus_dist, tan_half_defocus);
        let defocus_disk_u = u.scale(defocus_radius);
        let defocus_disk_v = v.scale(defocus_radius);
        proof {
            // the per-pixel deltas scaled back by the pixel counts stay
            // within the viewport envelope
            lemma_tdiv_abs_times(viewport_u@.x, image_width as int);
            lemma_tdiv_abs_times(viewport_u@.y, image_width as int);
            lemma_tdiv_abs_times(viewport_u@.z, image_width as int);
            lemma_tdiv_abs_times(viewport_v@.x, image_height as int);
            lemma_tdiv_abs_times(viewport_v@.y, image_height as int);
            lemma_tdiv_abs_times(viewport_v@.z, image_height as int);
        }
        Camera {
            center: lookfrom,
            pixel00_loc,
            pixel_delta_u,
            pixel_delta_v,
            aspect_ratio,
            image_width,
            image_height,
            samples_per_pixel,
            pixel_samples_scale,
            max_depth,
            lookfrom,
            lookat,
            vup,
            tan_half_defocus,
            defocus_disk_u,
            defocus_disk_v,
        }
    }

    /// A random origin on the defocus disk around the camera center.
    pub fn defocus_disk_sample(&self, rng: &mut RandomSource) -> (p: Vec3)
        requires
            camera_wf(*self),
        ensures
            v3_bounded(p@, 4_000_000_000_000),
            on_defocus_disk_s(*self, p@),
    {
        let d = random_in_unit_disk(rng);
        proof {
            lemma_v3_scale_bound(self.defocus_disk_u@, d@.x, 1_000_000_000_000, SCALE as int);
            lemma_v3_scale_bound(self.defocus_disk_v@, d@.y, 1_000_000_000_000, SCALE as int);
            lemma_tdiv_mul_exact(1_000_000_000_000, SCALE as int);
        }
        let p = self.center.add(self.defocus_disk_u.scale(d.x)).add(self.defocus_disk_v.scale(d.y));
        proof {
            assert(v3_bounded(d@, SCALE as int) && v3_len2_s(d@) < SCALE as int && d@.z == 0
                && p@ == v3_add_s(
                v3_add_s(self.center@, v3_scale_s(self.defocus_disk_u@, d@.x)),
                v3_scale_s(self.defocus_disk_v@, d@.y),
            ));
        }
        p
    }

    /// The deterministic part of primary-ray construction: the ray from
    /// the given origin through the jittered sample point of pixel
    /// `(i, j)`.
    pub fn ray_through(&self, i: u32, j: u32, offset: &Vec3, ray_origin: &Vec3) -> (r: Ray)
        requires
            camera_wf(*self),
            i < self.image_width,
            j < self.image_height,
            v3_bounded(offset@, SCALE as int),
            v3_bounded(ray_origin@, 4_000_000_000_000),
        ensures
            r.origin == *ray_origin,
            r.direction@ == v3_sub_s(
                camera_pixel_sample_s(*self, i as int, j as int, offset@),
                ray_origin@,
            ),
            v3_bounded(r.direction@, 100_000_000_000_000_000),
    {
        let ix = (i as i64) * SCALE + offset.x;
        let jy = (j as i64) * SCALE + offset.y;
        proof {
            assert(abs_s(ix as int) <= (self.image_width as int) * (SCALE as int))
                by (nonlinear_arith)
                requires
                    0 <= i < self.image_width,
                    abs_s(offset@.x) <= SCALE as int,
                    ix as int == (i as int) * (SCALE as int) + offset@.x,
                    SCALE == 1_000_000,
            ;
            assert(abs_s(jy as int) <= (self.image_height as int) * (SCALE as int))
                by (nonlinear_arith)
                requires
                    0 <= j < self.image_height,
                    abs_s(offset@.y) <= SCALE as int,
                    jy as int == (j as int) * (SCALE as int) + offset@.y,
                    SCALE == 1_000_000,
            ;
            lemma_pd_fit(self.pixel_delta_u@.x, self.image_width as int, ix as int);
            lemma_pd_fit(self.pixel_delta_u@.y, self.image_width as int, ix as int);
            lemma_pd_fit(self.pixel_delta_u@.z, self.image_width as int, ix as int);
            lemma_pd_fit(self.pixel_delta_v@.x, self.image_height as int, jy as int);
            lemma_pd_fit(self.pixel_delta_v@.y, self.image_height as int, jy as int);
            lemma_pd_fit(self.pixel_delta_v@.z, self.image_height as int, jy as int);
        }
        let pixel_sample = self.pixel00_loc.add(self.pixel_delta_u.scale(ix)).add(
            self.pixel_delta_v.scale(jy),
        );
        let ray_direction = pixel_sample.sub(*ray_origin);
        Ray::new(*ray_origin, ray_direction)
    }

    /// A primary ray for pixel `(i, j)`: jittered within the pixel for
    /// antialiasing, and originating on the defocus disk when the camera
    /// has a positive defocus angle (depth of field).
    pub fn get_ray(&self, i: u32, j: u32, rng: &mut RandomSource) -> (r: Ray)
        requires
            camera_wf(*self),
            i < self.image_width,
            j < self.image_height,
        ensures
            self.tan_half_defocus <= 0 ==> r.origin == self.center,
            self.tan_half_defocus > 0 ==> on_defocus_disk_s(*self, r.origin@),
            exists|offset: V3|
                {
                    &&& -(HALF_SCALE as int) <= offset.x < HALF_SCALE as int
                    &&& -(HALF_SCALE as int) <= offset.y < HALF_SCALE as int
                    &&& offset.z == 0
                    &&& r.direction@ == v3_sub_s(
                        camera_pixel_sample_s(*self, i as int, j as int, offset),
                        r.origin@,
                    )
                },
            v3_bounded(r.direction@, 100_000_000_000_000_000),
    {
        let offset = sample_square(rng);
        let ray_origin = if self.tan_half_defocus <= 0 {
            self.center
        } else {
            self.defocus_disk_sample(rng)
        };
        let r = self.ray_through(i, j, &offset, &ray_origin);
        proof {
            assert(-(HALF_SCALE as int) <= offset@.x < HALF_SCALE as int && -(HALF_SCALE as int)
                <= offset@.y < HALF_SCALE as int && offset@.z == 0 && r.direction@ == v3_sub_s(
                camera_pixel_sample_s(*self, i as int, j as int, offset@),
                r.origin@,
            ));
        }
        r
    }

    /// The recursive integrator: resolves a ray against the scene,
    /// scatters at the nearest surface, and recurses one depth shallower.
    /// At depth zero the ray's energy is fully absorbed (black); a missed
    /// ray yields the background gradient; a ray outside the numeric
    /// envelope is treated as absorbed.
    pub fn ray_color<W: Hittable>(
        &self,
        r: &Ray,
        world: &W,
        depth: u32,
        rng: &mut RandomSource,
    ) -> (c: Vec3)
        requires
            world.wf(),
        ensures
            v3_in_unit_interval(c@),
            depth == 0 ==> c@ == v3_zero(),
            depth > 0 && ray_wf(*r) && world.hit_model(
                *r,
                SHADOW_ACNE_MIN_T as int,
                INFINITY as int,
            ) is None ==> c@ == background_color_s(r.direction@),
        decreases depth,
    {
        if depth == 0 {
            return Vec3::new(0, 0, 0);
        }
        if !ray_wf_check(r) {
            return Vec3::new(0, 0, 0);
        }
        match world.hit(r, SHADOW_ACNE_MIN_T, INFINITY) {
            Some(rec) => {
                match rec.material {
                    Some(m) => {
                        match m.scatter(r, &rec, rng) {
                            Some((attenuation, scattered)) => {
                                let inner = self.ray_color(&scattered, world, depth - 1, rng);
                                proof {
                                    lemma_fx_mul_unit_interval(attenuation@.x, inner@.x);
                                    lemma_fx_mul_unit_interval(attenuation@.y, inner@.y);
                                    lemma_fx_mul_unit_interval(attenuation@.z, inner@.z);
                                }
                                attenuation.mul(inner)
                            },
                            None => Vec3::new(0, 0, 0),
                        }
                    },
                    None => vstd::pervasive::unreached(),
                }
            },
            None => {
                let unit_direction = unit_vector(r.direction);
                let t = fx_raw_div(unit_direction.y + SCALE, 2);
                proof {
                    lemma_unit_component_bounds(r.direction@);
                    lemma_tdiv_abs(unit_direction@.y + SCALE as int, 2);
                    lemma_background_in_unit_interval(unit_direction@.y, t as int);
                }
                let white = Vec3::new(SCALE, SCALE, SCALE);
                let sky = Vec3::new(HALF_SCALE, 700_000, SCALE);
                white.scale(SCALE - t).add(sky.scale(t))
            },
        }
    }

    /// Renders the scene: for every pixel (row-major, top row first) it
    /// averages `samples_per_pixel` jittered ray evaluations into one
    /// linear color inside the unit cube.
    pub fn render<W: Hittable>(&self, world: &W, rng: &mut RandomSource) -> (pixels: Vec<Vec3>)
        requires
            camera_wf(*self),
            world.wf(),
        ensures
            pixels@.len() == (self.image_height as int) * (self.image_width as int),
            forall|k: int|
                0 <= k < pixels@.len() ==> v3_in_unit_interval(#[trigger] pixels@[k]@),
            forall|k: int|
                0 <= k < pixels@.len() ==> pixel_sample_average_s(
                    #[trigger] pixels@[k]@,
                    self.samples_per_pixel as int,
                    self.pixel_samples_scale as int,
                ),
    {
        let mut pixels: Vec<Vec3> = Vec::new();
        let mut j: u32 = 0;
        proof {
            assert((0int) * (self.image_width as int) == 0) by (nonlinear_arith);
        }
        while j < self.image_height
            invariant
                camera_wf(*self),
                world.wf(),
                j <= self.image_height,
                pixels@.len() == (j as int) * (self.image_width as int),
                forall|k: int|
                    0 <= k < pixels@.len() ==> v3_in_unit_interval(#[trigger] pixels@[k]@),
                forall|k: int|
                    0 <= k < pixels@.len() ==> pixel_sample_average_s(
                        #[trigger] pixels@[k]@,
                        self.samples_per_pixel as int,
                        self.pixel_samples_scale as int,
                    ),
            decreases self.image_height - j,
        {
            let mut i: u32 = 0;
            while i < self.image_width
                invariant
                    camera_wf(*self),
                    world.wf(),
                    j < self.image_height,
                    i <= self.image_width,
                    pixels@.len() == (j as int) * (self.image_width as int) + i as int,
                    forall|k: int|
                        0 <= k < pixels@.len() ==> v3_in_unit_interval(#[trigger] pixels@[k]@),
                    forall|k: int|
                        0 <= k < pixels@.len() ==> pixel_sample_average_s(
                            #[trigger] pixels@[k]@,
                            self.samples_per_pixel as int,
                            self.pixel_samples_scale as int,
                        ),
                decreases self.image_width - i,
            {
                let mut sum = Vec3::new(0, 0, 0);
                let mut s: u32 = 0;
                let ghost mut samples: Seq<V3> = Seq::empty();
                while s < self.samples_per_pixel
                    invariant
                        camera_wf(*self),
                        world.wf(),
                        i < self.image_width,
                        j < self.image_height,
                        s <= self.samples_per_pixel,
                        0 <= sum@.x <= (s as int) * (SCALE as int),
                        0 <= sum@.y <= (s as int) * (SCALE as int),
                        0 <= sum@.z <= (s as int) * (SCALE as int),
                        samples.len() == s as int,
                        forall|m: int|
                            0 <= m < samples.len() ==> v3_in_unit_interval(#[trigger] samples[m]),
                        sum@ == v3_sum_s(samples),
                    decreases self.samples_per_pixel - s,
                {
                    let ray = self.get_ray(i, j, rng);
                    let sample = self.ray_color(&ray, world, self.max_depth, rng);
                    proof {
                        assert((s as int) * (SCALE as int) + SCALE as int == (s as int + 1) * (
                        SCALE as int)) by (nonlinear_arith);
                        assert((s as int + 1) * (SCALE as int) <= (SAMPLES_MAX as int) * (
                        SCALE as int)) by (nonlinear_arith)
                            requires
                                s < self.samples_per_pixel <= SAMPLES_MAX,
                        ;
                        let pre = samples;
                        samples = samples.push(sample@);
                        assert(samples.drop_last() =~= pre);
                        assert(samples.last() == sample@);
                    }
                    sum = sum.add(sample);
                    s = s + 1;
                }
                proof {
                    lemma_average_in_unit_interval(
                        sum@.x,
                        self.samples_per_pixel as int,
                        self.pixel_samples_scale as int,
                    );
                    lemma_average_in_unit_interval(
                        sum@.y,
                        self.samples_per_pixel as int,
                        self.pixel_samples_scale as int,
                    );
                    lemma_average_in_unit_interval(
                        sum@.z,
                        self.samples_per_pixel as int,
                        self.pixel_samples_scale as int,
                    );
                }
                let pixel = sum.scale(self.pixel_samples_scale);
                proof {
                    assert(samples.len() == self.samples_per_pixel as int && (forall|m: int|
                        0 <= m < samples.len() ==> v3_in_unit_interval(#[trigger] samples[m]))
                        && pixel@ == v3_scale_s(v3_sum_s(samples), self.pixel_samples_scale as int));
                }
                pixels.push(pixel);
                i = i + 1;
            }
            proof {
                assert((j as int) * (self.image_width as int) + self.image_width as int == (
                j as int + 1) * (self.image_width as int)) by (nonlinear_arith);
            }
            j = j + 1;
        }
        pixels
    }
}

/// Divides each component of a vector by a positive plain count.
fn div_count(v: Vec3, n: i64) -> (r: Vec3)
    requires
        n > 0,
    ensures
        r@ == v3_div_count_s(v@, n as int),
{
    Vec3::new(fx_raw_div(v.x, n), fx_raw_div(v.y, n), fx_raw_div(v.z, n))
}

/// Componentwise magnitude bound for the count division.
proof fn lemma_div_count_bound(v: V3, n: int, m: int)
    requires
        n >= 1,
        v3_bounded(v, m),
        0 <= m,
    ensures
        v3_bounded(v3_div_count_s(v, n), m),
{
    lemma_tdiv_abs(v.x, n);
    lemma_tdiv_abs(v.y, n);
    lemma_tdiv_abs(v.z, n);
}

/// The background blend of two unit-interval colors with a unit-interval
/// weight lies in the unit interval.
proof fn lemma_background_in_unit_interval(unit_y: int, t: int)
    requires
        abs_s(unit_y) <= SCALE as int,
        t == tdiv(unit_y + SCALE as int, 2),
    ensures
        0 <= t <= SCALE as int,
        v3_in_unit_interval(
            v3_add_s(
                v3_scale_s(
                    V3 { x: SCALE as int, y: SCALE as int, z: SCALE as int },
                    SCALE as int - t,
                ),
                v3_scale_s(V3 { x: HALF_SCALE as int, y: 700_000, z: SCALE as int }, t),
            ),
        ),
{
    let si = SCALE as int;
    lemma_tdiv_abs(unit_y + si, 2);
    lemma_tdiv_ordered(unit_y + si, 2 * si, 2);
    lemma_tdiv_mul_exact(si, 2);
    assert(si * 2 == 2 * si) by (nonlinear_arith);
    // white scaled by (1 - t) contributes exactly 1 - t per channel
    lemma_tdiv_mul_exact(si - t, si);
    assert((si - t) * si == si * (si - t)) by (nonlinear_arith);
    // the sky components scaled by t contribute at most t
    lemma_blend_channel(HALF_SCALE as int, t);
    lemma_blend_channel(700_000, t);
    lemma_blend_channel(si, t);
}

/// A unit-interval channel scaled by a unit-interval weight contributes
/// between zero and the weight.
proof fn lemma_blend_channel(c: int, t: int)
    requires
        0 <= c <= SCALE as int,
        0 <= t <= SCALE as int,
    ensures
        0 <= fx_mul_s(c, t) <= t,
{
    let si = SCALE as int;
    assert(0 <= c * t <= si * t) by (nonlinear_arith)
        requires
            0 <= c <= si,
            0 <= t,
    ;
    lemma_tdiv_abs(c * t, si);
    lemma_tdiv_ordered(c * t, si * t, si);
    lemma_tdiv_mul_exact(t, si);
    assert(t * si == si * t) by (nonlinear_arith);
}

/// Averaging a sum of `n` unit-interval samples by the stored scale
/// (at most `1 / n`) lands in the unit interval.
proof fn lemma_average_in_unit_interval(sum: int, n: int, scale: int)
    requires
        1 <= n,
        0 <= sum <= n * (SCALE as int),
        0 <= scale,
        scale * n <= SCALE as int,
    ensures
        0 <= fx_mul_s(sum, scale) <= SCALE as int,
{
    let si = SCALE as int;
    assert(0 <= sum * scale <= si * si) by (nonlinear_arith)
        requires
            1 <= n,
            0 <= sum <= n * si,
            0 <= scale,
            scale * n <= si,
    ;
    lemma_tdiv_abs(sum * scale, si);
    lemma_tdiv_ordered(sum * scale, si * si, si);
    lemma_tdiv_mul_exact(si, si);
}

} // verus!
