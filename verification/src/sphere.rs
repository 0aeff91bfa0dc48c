//! The sole primitive: spheres, intersected by closed-form quadratic
//! root-finding, with the exact fixed-point model of every step.

use vstd::prelude::*;
use crate::fixed::{
    SCALE, abs_s, tdiv, fx_mul_s, fx_div_s, fx_sqrt_s, fx_mul, isqrt, tdiv_i128,
    lemma_tdiv_abs, lemma_tdiv_ordered, lemma_tdiv_mul_exact, lemma_tdiv_lower, lemma_tdiv_bound_by,
    lemma_fx_mul_bound,
};
use crate::vec3::{
    Vec3, V3, v3_sub_s, v3_neg_s, v3_bounded, v3_dot_s, v3_len2_s, v3_len2_wide,
    v3_div_scalar_s, dot, lemma_abs_mul, lemma_v3_dot_bound, lemma_v3_dot_neg,
};
use crate::ray::{Ray, ray_wf, ray_at_s, RAY_COORD_MAX};
use crate::hittable::{Hittable, HitRecord, HitInfo, NORMAL_TOL};
use crate::material::{Material, MaterialKind};

verus! {

/// Coordinate envelope for sphere centers (two thousand units).
pub const CENTER_MAX: i64 = 2_000_000_000;

/// Largest sphere radius accepted (two thousand units).
pub const RADIUS_MAX: i64 = 2_000_000_000;

/// A sphere with an attached material; immutable once constructed.
#[derive(Clone, Copy)]
pub struct Sphere {
    pub center: Vec3,
    pub radius: i64,
    pub material: Option<MaterialKind>,
}

/// Validity envelope of a sphere: positive bounded radius, bounded
/// center, and a valid material attached.
pub open spec fn sphere_wf(s: Sphere) -> bool {
    &&& 0 < s.radius <= RADIUS_MAX
    &&& v3_bounded(s.center@, CENTER_MAX as int)
    &&& s.material is Some
    &&& (s.material matches Some(m) ==> m.wf())
}

/// Leading quadratic coefficient: the squared length of the direction.
pub open spec fn quad_a_s(dir: V3) -> int {
    v3_len2_s(dir)
}

/// Half the linear coefficient: `dot(origin - center, direction)`.
pub open spec fn quad_half_b_s(origin: V3, center: V3, dir: V3) -> int {
    v3_dot_s(v3_sub_s(origin, center), dir)
}

/// Constant coefficient: `|origin - center|^2 - radius^2`.
pub open spec fn quad_c_s(origin: V3, center: V3, radius: int) -> int {
    v3_len2_s(v3_sub_s(origin, center)) - fx_mul_s(radius, radius)
}

/// The (quarter) discriminant `half_b^2 - a * c`; the ray misses the
/// sphere exactly when it is negative.
pub open spec fn quad_disc_s(origin: V3, center: V3, radius: int, dir: V3) -> int {
    let hb = quad_half_b_s(origin, center, dir);
    fx_mul_s(hb, hb) - fx_mul_s(quad_a_s(dir), quad_c_s(origin, center, radius))
}

/// The smaller quadratic root `(-half_b - sqrt(disc)) / a`.
pub open spec fn quad_root1_s(origin: V3, center: V3, radius: int, dir: V3) -> int {
    let hb = quad_half_b_s(origin, center, dir);
    fx_div_s(-hb - fx_sqrt_s(quad_disc_s(origin, center, radius, dir)), quad_a_s(dir))
}

/// The larger quadratic root `(-half_b + sqrt(disc)) / a`.
pub open spec fn quad_root2_s(origin: V3, center: V3, radius: int, dir: V3) -> int {
    let hb = quad_half_b_s(origin, center, dir);
    fx_div_s(-hb + fx_sqrt_s(quad_disc_s(origin, center, radius, dir)), quad_a_s(dir))
}

/// The full mathematical hit result of a sphere query: the nearer root in
/// range (or the farther if only that one qualifies), the hit point, the
/// outward normal rescaled by the radius and oriented against the ray.
/// A hit whose point or normal leaves the numeric envelope is rejected.
pub open spec fn sphere_hit_model_s(s: Sphere, r: Ray, t_min: int, t_max: int) -> Option<
    HitInfo,
> {
    let origin = r.origin@;
    let center = s.center@;
    let dir = r.direction@;
    let radius = s.radius as int;
    if quad_disc_s(origin, center, radius, dir) < 0 {
        None
    } else {
        let root1 = quad_root1_s(origin, center, radius, dir);
        let root2 = quad_root2_s(origin, center, radius, dir);
        let root = if t_min <= root1 <= t_max {
            root1
        } else {
            root2
        };
        if !(t_min <= root <= t_max) {
            None
        } else {
            let p = ray_at_s(origin, dir, root);
            if !v3_bounded(p, RAY_COORD_MAX as int) {
                None
            } else {
                let outward = v3_div_scalar_s(v3_sub_s(p, center), radius);
                if !(v3_bounded(outward, 2 * SCALE as int) && abs_s(
                    v3_len2_s(outward) - SCALE as int,
                ) <= NORMAL_TOL as int) {
                    None
                } else {
                    let ff = v3_dot_s(dir, outward) < 0;
                    Some(
                        HitInfo {
                            p,
                            normal: if ff {
                                outward
                            } else {
                                v3_neg_s(outward)
                            },
                            t: root,
                            front_face: ff,
                            material: s.material,
                        },
                    )
                }
            }
        }
    }
}

impl Sphere {
    /// The degenerate default sphere (zero radius, no material); it is
    /// not well formed and cannot be queried.
    pub fn new() -> (s: Sphere)
        ensures
            s.center@ == (V3 { x: 0, y: 0, z: 0 }),
            s.radius == 0,
            s.material is None,
    {
        Sphere { center: Vec3::new(0, 0, 0), radius: 0, material: None }
    }

    /// A sphere from center, radius and material; the radius must be
    /// positive (a degenerate radius would make the intersection math
    /// meaningless) and within the envelope.
    pub fn with_values(center: Vec3, radius: i64, m: MaterialKind) -> (s: Sphere)
        requires
            0 < radius <= RADIUS_MAX,
            v3_bounded(center@, CENTER_MAX as int),
            m.wf(),
        ensures
            s.center == center,
            s.radius == radius,
            s.material == Some(m),
            sphere_wf(s),
    {
        Sphere { center, radius, material: Some(m) }
    }
}

/// Bounds of the quadratic coefficients on the accepted envelope.
proof fn lemma_quad_bounds(s: Sphere, r: Ray)
    requires
        sphere_wf(s),
        ray_wf(r),
    ensures
        0 <= quad_a_s(r.direction@) <= 192_000_000_000_000,
        1 <= quad_a_s(r.direction@),
        abs_s(quad_half_b_s(r.origin@, s.center@, r.direction@)) <= 240_000_000_000_000,
        abs_s(quad_c_s(r.origin@, s.center@, s.radius as int)) <= 304_000_000_000_000,
{
    lemma_quad_bounds_free(s.center@, s.radius as int, r);
}

impl Hittable for Sphere {
    open spec fn wf(&self) -> bool {
        sphere_wf(*self)
    }

    open spec fn hit_model(&self, r: Ray, t_min: int, t_max: int) -> Option<HitInfo> {
        sphere_hit_model_s(*self, r, t_min, t_max)
    }

    fn hit(&self, r: &Ray, t_min: i64, t_max: i64) -> (res: Option<HitRecord>)
        ensures
            // a negative discriminant is a miss, whatever the range
            quad_disc_s(r.origin@, self.center@, self.radius as int, r.direction@) < 0
                ==> res is None,
    {
        let ghost si: int = SCALE as int;
        proof {
            lemma_quad_bounds(*self, *r);
        }
        let oc = r.origin.sub(self.center);
        let a = r.direction.length_squared();
        let half_b = dot(oc, r.direction);
        let oc_len2 = oc.length_squared();
        proof {
            lemma_fx_mul_bound(
                self.radius as int,
                self.radius as int,
                RADIUS_MAX as int,
                RADIUS_MAX as int,
            );
            assert(tdiv((RADIUS_MAX as int) * (RADIUS_MAX as int), si) == 4_000_000_000_000)
                by (nonlinear_arith)
                requires
                    si == 1_000_000,
            ;
        }
        let radius2 = fx_mul(self.radius, self.radius);
        let c = oc_len2 - radius2;
        proof {
            lemma_abs_mul(half_b as int, half_b as int, 240_000_000_000_000, 240_000_000_000_000);
            lemma_abs_mul(a as int, c as int, 192_000_000_000_000, 304_000_000_000_000);
            lemma_tdiv_abs((half_b as int) * (half_b as int), si);
            lemma_tdiv_abs((a as int) * (c as int), si);
        }
        let hb2: i128 = (half_b as i128) * (half_b as i128);
        let ac: i128 = (a as i128) * (c as i128);
        let disc: i128 = tdiv_i128(hb2, SCALE as i128) - tdiv_i128(ac, SCALE as i128);
        assert(disc as int == quad_disc_s(r.origin@, self.center@, self.radius as int, r.direction@));
        if disc < 0 {
            return None;
        }
        let nsq: u128 = (disc as u128) * (SCALE as u128);
        let sqv = isqrt(nsq);
        proof {
            assert(nsq as int == quad_disc_s(r.origin@, self.center@, self.radius as int, r.direction@) * si);
            crate::fixed::lemma_isqrt_s_bounds(nsq as nat);
            assert(sqv as nat <= 400_000_000_000_000) by (nonlinear_arith)
                requires
                    (sqv as nat) * (sqv as nat) <= nsq as nat,
                    nsq as nat <= 120_000_000_000_000_000_000_000_000_000,
            ;
        }
        let sq: i128 = sqv as i128;
        let num1: i128 = -(half_b as i128) - sq;
        let root1: i128 = tdiv_i128(num1 * (SCALE as i128), a as i128);
        let root: i128 = if (t_min as i128) <= root1 && root1 <= (t_max as i128) {
            root1
        } else {
            let num2: i128 = -(half_b as i128) + sq;
            tdiv_i128(num2 * (SCALE as i128), a as i128)
        };
        if !((t_min as i128) <= root && root <= (t_max as i128)) {
            return None;
        }
        let t = root as i64;
        proof {
            lemma_abs_mul(t as int, r.direction@.x, (i64::MAX as int) + 1, RAY_COORD_MAX as int);
            lemma_abs_mul(t as int, r.direction@.y, (i64::MAX as int) + 1, RAY_COORD_MAX as int);
            lemma_abs_mul(t as int, r.direction@.z, (i64::MAX as int) + 1, RAY_COORD_MAX as int);
            lemma_tdiv_abs(r.direction@.x * (t as int), si);
            lemma_tdiv_abs(r.direction@.y * (t as int), si);
            lemma_tdiv_abs(r.direction@.z * (t as int), si);
            assert(r.direction@.x * (t as int) == (t as int) * r.direction@.x) by (nonlinear_arith);
            assert(r.direction@.y * (t as int) == (t as int) * r.direction@.y) by (nonlinear_arith);
            assert(r.direction@.z * (t as int) == (t as int) * r.direction@.z) by (nonlinear_arith);
        }
        let px: i128 = (r.origin.x as i128) + tdiv_i128(
            (r.direction.x as i128) * (t as i128),
            SCALE as i128,
        );
        let py: i128 = (r.origin.y as i128) + tdiv_i128(
            (r.direction.y as i128) * (t as i128),
            SCALE as i128,
        );
        let pz: i128 = (r.origin.z as i128) + tdiv_i128(
            (r.direction.z as i128) * (t as i128),
            SCALE as i128,
        );
        let m: i128 = RAY_COORD_MAX as i128;
        if px < -m || px > m || py < -m || py > m || pz < -m || pz > m {
            return None;
        }
        let p = Vec3::new(px as i64, py as i64, pz as i64);
        assert(p@ == ray_at_s(r.origin@, r.direction@, t as int));
        proof {
            lemma_tdiv_abs((p@.x - self.center@.x) * si, self.radius as int);
            lemma_tdiv_abs((p@.y - self.center@.y) * si, self.radius as int);
            lemma_tdiv_abs((p@.z - self.center@.z) * si, self.radius as int);
            lemma_abs_mul(p@.x - self.center@.x, si, 10_000_000_000, si);
            lemma_abs_mul(p@.y - self.center@.y, si, 10_000_000_000, si);
            lemma_abs_mul(p@.z - self.center@.z, si, 10_000_000_000, si);
        }
        let outward = p.sub(self.center).div(self.radius);
        let nb: i64 = 2 * SCALE;
        if outward.x < -nb || outward.x > nb || outward.y < -nb || outward.y > nb || outward.z
            < -nb || outward.z > nb {
            return None;
        }
        let ls = outward.length_squared();
        let dev = if ls >= SCALE {
            ls - SCALE
        } else {
            SCALE - ls
        };
        if dev > NORMAL_TOL {
            return None;
        }
        let mut rec = HitRecord {
            p,
            normal: outward,
            material: self.material,
            t,
            front_face: false,
        };
        rec.set_face_normal(r, &outward);
        proof {
            // the stored normal keeps the squared length of the outward
            // normal, whether or not it was flipped
            lemma_v3_dot_neg(outward@, outward@);
            lemma_v3_dot_neg(outward@, v3_neg_s(outward@));
            crate::vec3::lemma_v3_dot_sym(outward@, v3_neg_s(outward@));
            // and that squared length keeps the wide length at least SCALE
            assert(v3_len2_wide(outward@) >= 0) by (nonlinear_arith);
            lemma_tdiv_lower(v3_len2_wide(outward@), si);
            assert(v3_len2_s(outward@) * si >= (si - NORMAL_TOL as int) * si ==> v3_len2_wide(
                outward@,
            ) >= si) by (nonlinear_arith)
                requires
                    si == 1_000_000,
                    NORMAL_TOL == 10_000,
                    v3_len2_s(outward@) * si <= v3_len2_wide(outward@),
            ;
            assert(v3_len2_s(outward@) * si >= (si - NORMAL_TOL as int) * si) by (nonlinear_arith)
                requires
                    v3_len2_s(outward@) >= si - NORMAL_TOL as int,
                    si == 1_000_000,
            ;
        }
        Some(rec)
    }
}

/// The parameter at which a ray first meets a sphere (the smaller
/// quadratic root), or minus one when the discriminant shows a miss; the
/// standalone form of the intersection test.
pub fn hit_sphere(center: &Vec3, radius: i64, r: &Ray) -> (t: i64)
    requires
        v3_bounded(center@, CENTER_MAX as int),
        0 < radius <= RADIUS_MAX,
        ray_wf(*r),
        i64::MIN as int <= quad_root1_s(r.origin@, center@, radius as int, r.direction@)
            <= i64::MAX as int,
    ensures
        quad_disc_s(r.origin@, center@, radius as int, r.direction@) < 0 ==> t == -SCALE,
        quad_disc_s(r.origin@, center@, radius as int, r.direction@) >= 0 ==> t as int
            == quad_root1_s(r.origin@, center@, radius as int, r.direction@),
{
    let ghost si: int = SCALE as int;
    proof {
        lemma_quad_bounds_free(center@, radius as int, *r);
    }
    let oc = r.origin.sub(*center);
    let a = r.direction.length_squared();
    let half_b = dot(oc, r.direction);
    let oc_len2 = oc.length_squared();
    proof {
        lemma_fx_mul_bound(radius as int, radius as int, RADIUS_MAX as int, RADIUS_MAX as int);
        assert(tdiv((RADIUS_MAX as int) * (RADIUS_MAX as int), si) == 4_000_000_000_000)
            by (nonlinear_arith)
            requires
                si == 1_000_000,
        ;
    }
    let radius2 = fx_mul(radius, radius);
    let c = oc_len2 - radius2;
    proof {
        lemma_abs_mul(half_b as int, half_b as int, 240_000_000_000_000, 240_000_000_000_000);
        lemma_abs_mul(a as int, c as int, 192_000_000_000_000, 304_000_000_000_000);
        assert(240_000_000_000_000 * 240_000_000_000_000 == 57_600_000_000_000_000_000_000
            * 1_000_000) by (nonlinear_arith);
        assert(192_000_000_000_000 * 304_000_000_000_000 == 58_368_000_000_000_000_000_000
            * 1_000_000) by (nonlinear_arith);
        lemma_tdiv_bound_by((half_b as int) * (half_b as int), si, 57_600_000_000_000_000_000_000);
        lemma_tdiv_bound_by((a as int) * (c as int), si, 58_368_000_000_000_000_000_000);
    }
    let hb2: i128 = (half_b as i128) * (half_b as i128);
    let ac: i128 = (a as i128) * (c as i128);
    let disc: i128 = tdiv_i128(hb2, SCALE as i128) - tdiv_i128(ac, SCALE as i128);
    if disc < 0 {
        return -SCALE;
    }
    let nsq: u128 = (disc as u128) * (SCALE as u128);
    let sqv = isqrt(nsq);
    proof {
        crate::fixed::lemma_isqrt_s_bounds(nsq as nat);
        assert(sqv as nat <= 400_000_000_000_000) by (nonlinear_arith)
            requires
                (sqv as nat) * (sqv as nat) <= nsq as nat,
                nsq as nat <= 120_000_000_000_000_000_000_000_000_000,
        ;
    }
    let sq: i128 = sqv as i128;
    let num1: i128 = -(half_b as i128) - sq;
    let root1: i128 = tdiv_i128(num1 * (SCALE as i128), a as i128);
    root1 as i64
}

/// Bounds of the quadratic coefficients, stated without a sphere value.
proof fn lemma_quad_bounds_free(center: V3, radius: int, r: Ray)
    requires
        v3_bounded(center, CENTER_MAX as int),
        0 < radius <= RADIUS_MAX as int,
        ray_wf(r),
    ensures
        0 <= quad_a_s(r.direction@) <= 192_000_000_000_000,
        1 <= quad_a_s(r.direction@),
        abs_s(quad_half_b_s(r.origin@, center, r.direction@)) <= 240_000_000_000_000,
        abs_s(quad_c_s(r.origin@, center, radius)) <= 304_000_000_000_000,
{
    let dir = r.direction@;
    let oc = v3_sub_s(r.origin@, center);
    let si = SCALE as int;
    lemma_v3_dot_bound(dir, dir, RAY_COORD_MAX as int, RAY_COORD_MAX as int);
    assert(tdiv(3 * (RAY_COORD_MAX as int) * (RAY_COORD_MAX as int), si) == 192_000_000_000_000)
        by (nonlinear_arith)
        requires
            si == 1_000_000,
    ;
    assert(v3_len2_wide(dir) >= 0) by (nonlinear_arith);
    lemma_tdiv_abs(v3_len2_wide(dir), si);
    lemma_tdiv_mul_exact(1, si);
    assert(1 * si == si) by (nonlinear_arith);
    lemma_tdiv_ordered(si, v3_len2_wide(dir), si);
    assert(v3_bounded(oc, 10_000_000_000));
    lemma_v3_dot_bound(oc, dir, 10_000_000_000, RAY_COORD_MAX as int);
    assert(tdiv(3 * 10_000_000_000 * (RAY_COORD_MAX as int), si) == 240_000_000_000_000)
        by (nonlinear_arith)
        requires
            si == 1_000_000,
    ;
    lemma_v3_dot_bound(oc, oc, 10_000_000_000, 10_000_000_000);
    assert(tdiv(3 * 10_000_000_000int * 10_000_000_000, si) == 300_000_000_000_000)
        by (nonlinear_arith)
        requires
            si == 1_000_000,
    ;
    assert(v3_len2_wide(oc) >= 0) by (nonlinear_arith);
    lemma_tdiv_abs(v3_len2_wide(oc), si);
    lemma_fx_mul_bound(radius, radius, RADIUS_MAX as int, RADIUS_MAX as int);
    assert(tdiv((RADIUS_MAX as int) * (RADIUS_MAX as int), si) == 4_000_000_000_000)
        by (nonlinear_arith)
        requires
            si == 1_000_000,
            RADIUS_MAX == 2_000_000_000,
    ;
    assert(radius * radius >= 0) by (nonlinear_arith);
    lemma_tdiv_abs(radius * radius, si);
}

} // verus!
