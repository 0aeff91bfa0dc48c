//! Hit records and the polymorphic "intersectable" capability.

use vstd::prelude::*;
use crate::fixed::{SCALE, abs_s};
use crate::vec3::{
    Vec3, V3, v3_bounded, v3_neg_s, v3_dot_s, v3_len2_wide, v3_len2_s, dot, DOT_MAX,
    lemma_v3_dot_sym, lemma_v3_dot_neg,
};
use crate::ray::{Ray, ray_wf, RAY_COORD_MAX};
use crate::material::{Material, MaterialKind};

verus! {

/// How far the fixed-point squared length of a stored normal may deviate
/// from one (accepted hits keep their normals approximately unit).
pub const NORMAL_TOL: i64 = 10_000;

/// Ghost model of a hit record.
pub ghost struct HitInfo {
    pub p: V3,
    pub normal: V3,
    pub t: int,
    pub front_face: bool,
    pub material: Option<MaterialKind>,
}

/// Where and how a ray struck geometry: the hit point, the unit normal
/// oriented against the incoming ray, the hit parameter, the side that
/// was struck, and the surface's material. A transient, per-query value.
#[derive(Clone, Copy)]
pub struct HitRecord {
    pub p: Vec3,
    pub normal: Vec3,
    pub material: Option<MaterialKind>,
    pub t: i64,
    pub front_face: bool,
}

impl View for HitRecord {
    type V = HitInfo;

    open spec fn view(&self) -> HitInfo {
        HitInfo {
            p: self.p@,
            normal: self.normal@,
            t: self.t as int,
            front_face: self.front_face,
            material: self.material,
        }
    }
}

/// The numeric envelope every accepted hit record lies in: the hit point
/// stays inside the ray envelope and the stored normal is approximately
/// unit (so it can serve as a scatter direction).
pub open spec fn hit_record_wf(h: HitInfo) -> bool {
    &&& v3_bounded(h.p, RAY_COORD_MAX as int)
    &&& v3_bounded(h.normal, 2 * SCALE as int)
    &&& v3_len2_wide(h.normal) >= SCALE as int
    &&& abs_s(v3_len2_s(h.normal) - SCALE as int) <= NORMAL_TOL as int
}

impl HitRecord {
    /// Orients the stored normal against the incoming ray: the normal
    /// becomes the outward normal if the ray arrives from outside
    /// (`front_face`), its negation otherwise, so that it always opposes
    /// the ray direction.
    pub fn set_face_normal(&mut self, r: &Ray, outward_normal: &Vec3)
        requires
            v3_bounded(r.direction@, DOT_MAX as int),
            v3_bounded(outward_normal@, DOT_MAX as int),
        ensures
            final(self).front_face == (v3_dot_s(r.direction@, outward_normal@) < 0),
            final(self).normal@ == if final(self).front_face {
                outward_normal@
            } else {
                v3_neg_s(outward_normal@)
            },
            v3_dot_s(final(self).normal@, r.direction@) <= 0,
            final(self).p == old(self).p,
            final(self).t == old(self).t,
            final(self).material == old(self).material,
    {
        let d = dot(r.direction, *outward_normal);
        self.front_face = d < 0;
        if self.front_face {
            self.normal = *outward_normal;
        } else {
            self.normal = outward_normal.neg();
        }
        proof {
            lemma_v3_dot_sym(r.direction@, outward_normal@);
            lemma_v3_dot_neg(outward_normal@, r.direction@);
        }
    }
}

/// The capability every primitive (and the scene aggregate) implements:
/// find the nearest surface hit along a ray within `[t_min, t_max]`.
pub trait Hittable {
    /// Validity envelope of the implementing geometry.
    spec fn wf(&self) -> bool;

    /// The mathematical hit result; `None` when the ray misses.
    spec fn hit_model(&self, r: Ray, t_min: int, t_max: int) -> Option<HitInfo>;

    /// Queries the nearest hit. The result equals the mathematical model
    /// exactly; an accepted record lies in the hit-record envelope, its
    /// parameter lies in the requested range, its normal opposes the ray,
    /// and it carries a valid material.
    fn hit(&self, r: &Ray, t_min: i64, t_max: i64) -> (res: Option<HitRecord>)
        requires
            self.wf(),
            ray_wf(*r),
        ensures
            res is Some <==> self.hit_model(*r, t_min as int, t_max as int) is Some,
            res matches Some(rec) ==> {
                &&& self.hit_model(*r, t_min as int, t_max as int) == Some(rec@)
                &&& hit_record_wf(rec@)
                &&& t_min <= rec.t <= t_max
                &&& v3_dot_s(rec@.normal, r.direction@) <= 0
                &&& rec.material is Some
                &&& rec.material matches Some(m) && m.wf()
            },
    ;
}

} // verus!
