//! The material-scattering protocol: diffuse (Lambertian), specular
//! (Metal) and refractive (Dielectric) surfaces, each consuming an
//! incoming ray and a hit record and producing an attenuation color and a
//! scattered ray, or signalling absorption.

use vstd::prelude::*;
use crate::fixed::{
    SCALE, abs_s, tdiv, fx_mul_s, fx_div_s, fx_sqrt_s, fx_mul, fx_div, fx_sqrt,
    lemma_tdiv_abs, lemma_tdiv_ordered, lemma_tdiv_mul_exact, lemma_tdiv_lower,
    lemma_fx_mul_bound,
};
use crate::vec3::{
    Vec3, V3, v3_add_s, v3_scale_s, v3_neg_s, v3_bounded, v3_near_zero_s, v3_in_unit_interval,
    v3_dot_s, v3_unit_s, v3_len2_s, v3_len2_wide, v3_reflect_s, v3_refract_s, clamp_unit_s, dot,
    reflect,
    unit_vector, refract,
    random_unit_vector, random_in_unit_sphere, lemma_v3_dot_bound, lemma_v3_scale_bound,
    lemma_fx_sqrt_le_scale, lemma_near_zero_wide, ETA_MAX,
};
use crate::ray::{Ray, ray_wf};
use crate::hittable::{HitRecord, hit_record_wf};
use crate::rtweekend::{RandomSource, random_double};

verus! {

/// Bound on the components of every scattered direction a material hands
/// back; comfortably inside the ray envelope.
pub const SCATTER_DIR_MAX: i64 = 1_000_000_000;

/// Smallest refraction index a dielectric accepts (one hundredth).
pub const RI_MIN: i64 = 10_000;

/// Largest refraction index a dielectric accepts (one hundred).
pub const RI_MAX: i64 = 100_000_000;

/// The scattering capability: consume an incoming ray and hit record,
/// produce an attenuation color and a scattered ray, or absorb the ray.
pub trait Material {
    /// Validity envelope of the material's parameters.
    spec fn wf(&self) -> bool;

    /// The attenuation this material reports on every successful scatter.
    spec fn attenuation_model(&self) -> V3;

    /// Whether this material scatters on every input (never absorbs).
    spec fn always_scatters(&self) -> bool;

    fn scatter(&self, r_in: &Ray, rec: &HitRecord, rng: &mut RandomSource) -> (res: Option<
        (Vec3, Ray),
    >)
        requires
            self.wf(),
            ray_wf(*r_in),
            hit_record_wf(rec@),
        ensures
            self.always_scatters() ==> res is Some,
            res matches Some(pair) ==> {
                &&& pair.0@ == self.attenuation_model()
                &&& v3_in_unit_interval(pair.0@)
                &&& pair.1.origin == rec.p
                &&& v3_bounded(pair.1.direction@, SCATTER_DIR_MAX as int)
            },
    ;
}

/// Ideal diffuse reflection: scatters toward the normal perturbed by a
/// random unit vector, always succeeds, attenuates by its albedo.
#[derive(Clone, Copy, Debug, PartialEq, Eq, Structural)]
pub struct Lambertian {
    pub albedo: Vec3,
}

impl Lambertian {
    pub fn new(a: Vec3) -> (m: Lambertian)
        requires
            v3_in_unit_interval(a@),
        ensures
            m.albedo == a,
            m.wf(),
    {
        Lambertian { albedo: a }
    }
}

/// The diffuse scatter direction: normal plus unit sample, falling back
/// to the bare normal when the sum is degenerate.
pub open spec fn lambertian_direction_s(normal: V3, unit_sample: V3) -> V3 {
    let d = v3_add_s(normal, unit_sample);
    if v3_near_zero_s(d) {
        normal
    } else {
        d
    }
}

/// Combines the surface normal with a drawn unit sample into the diffuse
/// scatter direction, guarding against near-cancellation.
pub fn lambertian_direction(normal: &Vec3, unit_sample: &Vec3) -> (d: Vec3)
    requires
        v3_bounded(normal@, 2 * SCALE as int),
        v3_bounded(unit_sample@, SCALE as int),
    ensures
        d@ == lambertian_direction_s(normal@, unit_sample@),
        v3_bounded(d@, 3 * SCALE as int),
{
    let sum = normal.add(*unit_sample);
    if sum.near_zero() {
        *normal
    } else {
        sum
    }
}

impl Material for Lambertian {
    open spec fn wf(&self) -> bool {
        v3_in_unit_interval(self.albedo@)
    }

    open spec fn attenuation_model(&self) -> V3 {
        self.albedo@
    }

    open spec fn always_scatters(&self) -> bool {
        true
    }

    fn scatter(&self, r_in: &Ray, rec: &HitRecord, rng: &mut RandomSource) -> (res: Option<
        (Vec3, Ray),
    >)
        ensures
            // ideal diffuse reflection always scatters and attenuates by
            // exactly the configured albedo
            res is Some,
            res matches Some(pair) ==> pair.0 == self.albedo,
            // the outgoing direction is the normal plus the normalization
            // of some usable ball sample, with the degenerate-sum fallback,
            // and is itself usable
            res matches Some(pair) ==> exists|p: V3|
                {
                    &&& v3_bounded(p, SCALE as int)
                    &&& v3_len2_s(p) < SCALE as int
                    &&& !v3_near_zero_s(p)
                    &&& pair.1.direction@ == lambertian_direction_s(rec@.normal, v3_unit_s(p))
                },
            res matches Some(pair) ==> !v3_near_zero_s(pair.1.direction@),
    {
        let u = random_unit_vector(rng);
        let direction = lambertian_direction(&rec.normal, &u);
        proof {
            let p = choose|p: V3|
                {
                    &&& v3_bounded(p, SCALE as int)
                    &&& v3_len2_s(p) < SCALE as int
                    &&& !v3_near_zero_s(p)
                    &&& u@ == v3_unit_s(p)
                };
            assert(v3_bounded(p, SCALE as int) && v3_len2_s(p) < SCALE as int && !v3_near_zero_s(
                p,
            ) && direction@ == lambertian_direction_s(rec@.normal, v3_unit_s(p)));
            // the fallback normal is never near zero: the record invariant
            // keeps its squared length near one
            if v3_near_zero_s(direction@) {
                assert(direction@ == rec@.normal);
                lemma_near_zero_wide(rec@.normal);
                assert(v3_len2_wide(rec@.normal) >= 0) by (nonlinear_arith);
                lemma_tdiv_lower(v3_len2_wide(rec@.normal), SCALE as int);
                assert(false);
            }
        }
        Some((self.albedo, Ray::new(rec.p, direction)))
    }
}

/// Specular reflection with a fuzz perturbation; absorbs rays whose
/// perturbed reflection would point into the surface.
#[derive(Clone, Copy, Debug, PartialEq, Eq, Structural)]
pub struct Metal {
    pub albedo: Vec3,
    pub fuzz: i64,
}

impl Metal {
    pub fn new(a: Vec3, f: i64) -> (m: Metal)
        requires
            v3_in_unit_interval(a@),
            0 <= f <= SCALE,
        ensures
            m.albedo == a,
            m.fuzz == f,
            m.wf(),
    {
        Metal { albedo: a, fuzz: f }
    }
}

/// The specular scatter direction: the reflection of the (unit) incoming
/// direction, perturbed by `fuzz` times a ball sample.
pub open spec fn metal_direction_s(unit_in: V3, normal: V3, fuzz: int, sample: V3) -> V3 {
    v3_add_s(v3_reflect_s(unit_in, normal), v3_scale_s(sample, fuzz))
}

/// Reflects the unit incoming direction and perturbs it by the fuzz ball
/// sample.
pub fn metal_direction(unit_in: &Vec3, normal: &Vec3, fuzz: i64, sample: &Vec3) -> (d: Vec3)
    requires
        v3_bounded(unit_in@, SCALE as int),
        v3_bounded(normal@, 2 * SCALE as int),
        0 <= fuzz <= SCALE,
        v3_bounded(sample@, SCALE as int),
    ensures
        d@ == metal_direction_s(unit_in@, normal@, fuzz as int, sample@),
        v3_bounded(d@, 500_000_000),
{
    let reflected = reflect(unit_in, normal);
    proof {
        lemma_v3_scale_bound(sample@, fuzz as int, SCALE as int, SCALE as int);
        lemma_tdiv_mul_exact(SCALE as int, SCALE as int);
    }
    let perturbation = sample.scale(fuzz);
    reflected.add(perturbation)
}

impl Material for Metal {
    open spec fn wf(&self) -> bool {
        v3_in_unit_interval(self.albedo@) && 0 <= self.fuzz <= SCALE
    }

    open spec fn attenuation_model(&self) -> V3 {
        self.albedo@
    }

    open spec fn always_scatters(&self) -> bool {
        false
    }

    fn scatter(&self, r_in: &Ray, rec: &HitRecord, rng: &mut RandomSource) -> (res: Option<
        (Vec3, Ray),
    >)
        ensures
            // a fuzzy reflection is accepted only while it still points
            // away from the surface
            res matches Some(pair) ==> v3_dot_s(pair.1.direction@, rec@.normal) > 0,
            // a perfect mirror (no fuzz) is owed success whenever the
            // reflection itself points away from the surface
            (self.fuzz == 0 && v3_dot_s(
                v3_reflect_s(v3_unit_s(r_in.direction@), rec@.normal),
                rec@.normal,
            ) > 0) ==> res is Some,
            // absorption happens only because the drawn perturbation
            // turned the reflection into the surface
            res is None ==> exists|sample: V3|
                {
                    &&& v3_bounded(sample, SCALE as int)
                    &&& v3_len2_s(sample) < SCALE as int
                    &&& v3_dot_s(
                        metal_direction_s(
                            v3_unit_s(r_in.direction@),
                            rec@.normal,
                            self.fuzz as int,
                            sample,
                        ),
                        rec@.normal,
                    ) <= 0
                },
            // the outgoing direction is the mirror reflection of the unit
            // incoming direction, perturbed by fuzz times a ball sample
            res matches Some(pair) ==> exists|sample: V3|
                v3_bounded(sample, SCALE as int) && v3_len2_s(sample) < SCALE as int
                    && pair.1.direction@ == metal_direction_s(
                    v3_unit_s(r_in.direction@),
                    rec@.normal,
                    self.fuzz as int,
                    sample,
                ),
    {
        let unit_in = unit_vector(r_in.direction);
        let sample = random_in_unit_sphere(rng);
        let direction = metal_direction(&unit_in, &rec.normal, self.fuzz, &sample);
        proof {
            assert(v3_bounded(sample@, SCALE as int) && v3_len2_s(sample@) < SCALE as int
                && direction@ == metal_direction_s(
                v3_unit_s(r_in.direction@),
                rec@.normal,
                self.fuzz as int,
                sample@,
            ));
        }
        let scattered = Ray::new(rec.p, direction);
        let d = dot(direction, rec.normal);
        proof {
            if self.fuzz == 0 {
                // with no fuzz the perturbation vanishes exactly and the
                // direction is the bare reflection
                assert(sample@.x * 0 == 0 && sample@.y * 0 == 0 && sample@.z * 0 == 0)
                    by (nonlinear_arith);
                vstd::arithmetic::div_mod::lemma_div_of0(SCALE as int);
                assert(v3_scale_s(sample@, 0) == crate::vec3::v3_zero());
                assert(direction@ == v3_reflect_s(v3_unit_s(r_in.direction@), rec@.normal));
            }
        }
        if d > 0 {
            Some((self.albedo, scattered))
        } else {
            proof {
                assert(v3_bounded(sample@, SCALE as int) && v3_len2_s(sample@) < SCALE as int
                    && v3_dot_s(
                    metal_direction_s(
                        v3_unit_s(r_in.direction@),
                        rec@.normal,
                        self.fuzz as int,
                        sample@,
                    ),
                    rec@.normal,
                ) <= 0);
            }
            None
        }
    }
}

/// A clear refractive surface: attenuates nothing and always scatters,
/// choosing between reflection and refraction by Snell's law and
/// Schlick's reflectance approximation.
#[derive(Clone, Copy, Debug, PartialEq, Eq, Structural)]
pub struct Dielectric {
    pub refraction_index: i64,
}

/// Schlick's reflectance approximation:
/// `r0 + (1 - r0) * (1 - cos)^5` with `r0 = ((1 - ri) / (1 + ri))^2`.
pub open spec fn reflectance_s(cosine: int, ri: int) -> int {
    let r0a = fx_div_s((SCALE as int) - ri, (SCALE as int) + ri);
    let r0 = fx_mul_s(r0a, r0a);
    let x = (SCALE as int) - cosine;
    let x5 = fx_mul_s(fx_mul_s(fx_mul_s(x, x), fx_mul_s(x, x)), x);
    r0 + fx_mul_s((SCALE as int) - r0, x5)
}

/// The cosine of the angle between the reversed incoming direction and
/// the normal, clamped into the unit interval.
pub open spec fn cos_theta_s(unit_in: V3, normal: V3) -> int {
    clamp_unit_s(v3_dot_s(v3_neg_s(unit_in), normal))
}

/// Whether Snell's law admits no refracted ray (total internal
/// reflection): `ri * sin(theta) > 1`.
pub open spec fn cannot_refract_s(unit_in: V3, normal: V3, ri: int) -> bool {
    let cos = cos_theta_s(unit_in, normal);
    let sin = fx_sqrt_s((SCALE as int) - fx_mul_s(cos, cos));
    fx_mul_s(ri, sin) > SCALE as int
}

/// The dielectric scatter direction: reflect under total internal
/// reflection or when the reflectance draw demands it, refract otherwise.
pub open spec fn dielectric_direction_s(unit_in: V3, normal: V3, ri: int, draw: int) -> V3 {
    if cannot_refract_s(unit_in, normal, ri) || reflectance_s(cos_theta_s(unit_in, normal), ri)
        > draw {
        v3_reflect_s(unit_in, normal)
    } else {
        v3_refract_s(unit_in, normal, ri)
    }
}

impl Dielectric {
    pub fn new(ri: i64) -> (m: Dielectric)
        requires
            RI_MIN <= ri <= RI_MAX,
        ensures
            m.refraction_index == ri,
            m.wf(),
    {
        Dielectric { refraction_index: ri }
    }

    /// Schlick's approximation of the Fresnel reflectance at incidence
    /// cosine `cosine` for the index ratio `refraction_index`.
    pub fn reflectance(&self, cosine: i64, refraction_index: i64) -> (r: i64)
        requires
            abs_s(cosine as int) <= SCALE as int,
            0 < refraction_index <= ETA_MAX,
        ensures
            r as int == reflectance_s(cosine as int, refraction_index as int),
    {
        let s: i64 = SCALE;
        let ghost si: int = SCALE as int;
        let ghost ri: int = refraction_index as int;
        proof {
            lemma_tdiv_abs((si - ri) * si, si + ri);
            lemma_abs_si_minus_ri(ri);
            lemma_div_le_scale(si - ri, si + ri);
            lemma_fx_mul_bound(fx_div_s(si - ri, si + ri), fx_div_s(si - ri, si + ri), si, si);
            lemma_tdiv_mul_exact(si, si);
        }
        let r0a = fx_div(s - refraction_index, s + refraction_index);
        let r0 = fx_mul(r0a, r0a);
        proof {
            assert(fx_mul_s(r0a as int, r0a as int) >= 0) by (nonlinear_arith)
                requires
                    fx_mul_s(r0a as int, r0a as int) == tdiv((r0a as int) * (r0a as int), si),
                    si == 1_000_000,
            {
                lemma_tdiv_abs((r0a as int) * (r0a as int), si);
            }
        }
        let x = s - cosine;
        proof {
            lemma_fx_mul_bound(x as int, x as int, 2 * si, 2 * si);
            assert(tdiv(2 * si * (2 * si), si) == 4 * si) by (nonlinear_arith)
                requires
                    si == 1_000_000,
            ;
        }
        let x2 = fx_mul(x, x);
        proof {
            lemma_fx_mul_bound(x2 as int, x2 as int, 4 * si, 4 * si);
            assert(tdiv(4 * si * (4 * si), si) == 16 * si) by (nonlinear_arith)
                requires
                    si == 1_000_000,
            ;
        }
        let x4 = fx_mul(x2, x2);
        proof {
            lemma_fx_mul_bound(x4 as int, x as int, 16 * si, 2 * si);
            assert(tdiv(16 * si * (2 * si), si) == 32 * si) by (nonlinear_arith)
                requires
                    si == 1_000_000,
            ;
        }
        let x5 = fx_mul(x4, x);
        proof {
            lemma_fx_mul_bound(si - r0 as int, x5 as int, si, 32 * si);
            assert(tdiv(si * (32 * si), si) == 32 * si) by (nonlinear_arith)
                requires
                    si == 1_000_000,
            ;
        }
        r0 + fx_mul(s - r0, x5)
    }

    /// Decides the outgoing direction for a dielectric hit, given the
    /// effective index ratio and the reflectance draw. Under total
    /// internal reflection the ray is always reflected.
    pub fn scatter_direction(&self, unit_in: &Vec3, normal: &Vec3, ri: i64, draw: i64) -> (d: Vec3)
        requires
            v3_bounded(unit_in@, SCALE as int),
            v3_bounded(normal@, 2 * SCALE as int),
            0 < ri <= ETA_MAX,
            0 <= draw,
        ensures
            d@ == dielectric_direction_s(unit_in@, normal@, ri as int, draw as int),
            cannot_refract_s(unit_in@, normal@, ri as int) ==> d@ == v3_reflect_s(
                unit_in@,
                normal@,
            ),
            v3_bounded(d@, 500_000_000),
    {
        proof {
            lemma_v3_dot_bound(v3_neg_s(unit_in@), normal@, SCALE as int, 2 * SCALE as int);
        }
        let minus_in = unit_in.neg();
        let dcos = dot(minus_in, *normal);
        let cos_theta = if dcos > SCALE {
            SCALE
        } else if dcos < -SCALE {
            -SCALE
        } else {
            dcos
        };
        proof {
            lemma_fx_mul_bound(cos_theta as int, cos_theta as int, SCALE as int, SCALE as int);
            lemma_tdiv_mul_exact(SCALE as int, SCALE as int);
            assert(fx_mul_s(cos_theta as int, cos_theta as int) >= 0) by (nonlinear_arith)
                requires
                    fx_mul_s(cos_theta as int, cos_theta as int) == tdiv(
                        (cos_theta as int) * (cos_theta as int),
                        SCALE as int,
                    ),
                    SCALE == 1_000_000,
            {
                lemma_tdiv_abs((cos_theta as int) * (cos_theta as int), SCALE as int);
            }
        }
        let cos2 = fx_mul(cos_theta, cos_theta);
        let sin_theta = fx_sqrt(SCALE - cos2);
        proof {
            lemma_fx_sqrt_le_scale((SCALE - cos2) as int);
            lemma_fx_mul_bound(ri as int, sin_theta as int, ETA_MAX as int, SCALE as int);
            lemma_tdiv_mul_exact(ETA_MAX as int, SCALE as int);
        }
        let cannot_refract = fx_mul(ri, sin_theta) > SCALE;
        if cannot_refract || self.reflectance(cos_theta, ri) > draw {
            reflect(unit_in, normal)
        } else {
            refract(unit_in, normal, ri)
        }
    }
}

/// On the dielectric envelope, `|1 - ri| <= 1 + ri`.
proof fn lemma_abs_si_minus_ri(ri: int)
    requires
        0 < ri,
    ensures
        abs_s((SCALE as int) - ri) <= (SCALE as int) + ri,
{
}

/// A prescaled quotient whose numerator magnitude is at most the divisor
/// stays within one unit of value.
proof fn lemma_div_le_scale(a: int, b: int)
    requires
        b >= 1,
        abs_s(a) <= b,
    ensures
        abs_s(fx_div_s(a, b)) <= SCALE as int,
{
    crate::vec3::lemma_abs_mul(a, SCALE as int, b, SCALE as int);
    lemma_tdiv_abs(a * (SCALE as int), b);
    if a * (SCALE as int) >= 0 {
        lemma_tdiv_ordered(a * (SCALE as int), b * (SCALE as int), b);
    } else {
        lemma_tdiv_ordered(-(a * (SCALE as int)), b * (SCALE as int), b);
    }
    lemma_tdiv_mul_exact(SCALE as int, b);
    assert(b * (SCALE as int) == (SCALE as int) * b) by (nonlinear_arith);
}

impl Material for Dielectric {
    open spec fn wf(&self) -> bool {
        RI_MIN <= self.refraction_index <= RI_MAX
    }

    /// Glass absorbs nothing: the attenuation is full white.
    open spec fn attenuation_model(&self) -> V3 {
        V3 { x: SCALE as int, y: SCALE as int, z: SCALE as int }
    }

    open spec fn always_scatters(&self) -> bool {
        true
    }

    fn scatter(&self, r_in: &Ray, rec: &HitRecord, rng: &mut RandomSource) -> (res: Option<
        (Vec3, Ray),
    >)
        ensures
            // glass never absorbs; the ray leaves along the mirror
            // reflection or the Snell refraction at the effective ratio,
            // and under total internal reflection always the former
            res is Some,
            res matches Some(pair) ==> {
                let unit_in = v3_unit_s(r_in.direction@);
                let ri_eff = if rec@.front_face {
                    fx_div_s(SCALE as int, self.refraction_index as int)
                } else {
                    self.refraction_index as int
                };
                &&& (pair.1.direction@ == v3_reflect_s(unit_in, rec@.normal) || pair.1.direction@
                    == v3_refract_s(unit_in, rec@.normal, ri_eff))
                &&& cannot_refract_s(unit_in, rec@.normal, ri_eff) ==> pair.1.direction@
                    == v3_reflect_s(unit_in, rec@.normal)
            },
    {
        let attenuation = Vec3::new(SCALE, SCALE, SCALE);
        let ri = if rec.front_face {
            proof {
                lemma_eta_of_index(self.refraction_index as int);
            }
            fx_div(SCALE, self.refraction_index)
        } else {
            self.refraction_index
        };
        let unit_direction = unit_vector(r_in.direction);
        let draw = random_double(rng);
        let direction = self.scatter_direction(&unit_direction, &rec.normal, ri, draw);
        Some((attenuation, Ray::new(rec.p, direction)))
    }
}

/// The reciprocal of a dielectric index on the accepted envelope is a
/// valid index ratio: `1 / ri` lies in `(0, ETA_MAX]`.
proof fn lemma_eta_of_index(ri: int)
    requires
        RI_MIN as int <= ri <= RI_MAX as int,
    ensures
        1 <= fx_div_s(SCALE as int, ri) <= ETA_MAX as int,
{
    let si = SCALE as int;
    lemma_tdiv_mul_exact(1, ri);
    assert(1 * ri == ri) by (nonlinear_arith);
    lemma_tdiv_ordered(ri, si * si, ri);
    assert(si * si >= ri) by (nonlinear_arith)
        requires
            si == 1_000_000,
            ri <= RI_MAX as int,
    ;
    vstd::arithmetic::div_mod::lemma_div_is_ordered_by_denominator(si * si, RI_MIN as int, ri);
    lemma_tdiv_mul_exact(ETA_MAX as int, RI_MIN as int);
    assert((ETA_MAX as int) * (RI_MIN as int) == si * si) by (nonlinear_arith)
        requires
            si == 1_000_000,
    ;
    assert(si * si >= 0) by (nonlinear_arith);
    lemma_tdiv_abs(si * si, ri);
}

/// Closed set of surface materials; `Sphere` and `HitRecord` carry one of
/// these and the scattering protocol dispatches on it.
#[derive(Clone, Copy, Debug, PartialEq, Eq, Structural)]
pub enum MaterialKind {
    Lambertian(Lambertian),
    Metal(Metal),
    Dielectric(Dielectric),
}

impl Material for MaterialKind {
    open spec fn wf(&self) -> bool {
        match *self {
            MaterialKind::Lambertian(m) => m.wf(),
            MaterialKind::Metal(m) => m.wf(),
            MaterialKind::Dielectric(m) => m.wf(),
        }
    }

    open spec fn attenuation_model(&self) -> V3 {
        match *self {
            MaterialKind::Lambertian(m) => m.attenuation_model(),
            MaterialKind::Metal(m) => m.attenuation_model(),
            MaterialKind::Dielectric(m) => m.attenuation_model(),
        }
    }

    open spec fn always_scatters(&self) -> bool {
        match *self {
            MaterialKind::Lambertian(m) => m.always_scatters(),
            MaterialKind::Metal(m) => m.always_scatters(),
            MaterialKind::Dielectric(m) => m.always_scatters(),
        }
    }

    fn scatter(&self, r_in: &Ray, rec: &HitRecord, rng: &mut RandomSource) -> (res: Option<
        (Vec3, Ray),
    >) {
        match self {
            MaterialKind::Lambertian(m) => m.scatter(r_in, rec, rng),
            MaterialKind::Metal(m) => m.scatter(r_in, rec, rng),
            MaterialKind::Dielectric(m) => m.scatter(r_in, rec, rng),
        }
    }
}

} // verus!
