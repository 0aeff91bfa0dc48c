//! The scene aggregate: an ordered list of spheres queried by linear
//! scan, narrowing the upper parameter bound to the nearest hit found so
//! far, so that the globally nearest hit wins.

use vstd::prelude::*;
use crate::vec3::v3_dot_s;
use crate::ray::{Ray, ray_wf};
use crate::hittable::{Hittable, HitRecord, HitInfo, hit_record_wf};
use crate::material::Material;
use crate::sphere::{Sphere, sphere_wf, sphere_hit_model_s};

verus! {

/// The nearest-hit scan over the remaining spheres, carrying the best
/// hit found so far and the narrowed upper bound: a later sphere is
/// accepted only when it is struck strictly closer.
pub open spec fn list_hit_scan_s(
    objs: Seq<Sphere>,
    r: Ray,
    t_min: int,
    closest: int,
    best: Option<HitInfo>,
) -> Option<HitInfo>
    decreases objs.len(),
{
    if objs.len() == 0 {
        best
    } else {
        let rest = objs.subrange(1, objs.len() as int);
        match sphere_hit_model_s(objs[0], r, t_min, closest) {
            Some(h) => list_hit_scan_s(rest, r, t_min, h.t, Some(h)),
            None => list_hit_scan_s(rest, r, t_min, closest, best),
        }
    }
}

/// An ordered collection of spheres; the order has no semantic effect
/// because the nearest hit wins deterministically.
pub struct HittableList {
    pub objects: Vec<Sphere>,
}

impl HittableList {
    /// An empty scene.
    pub fn new() -> (l: HittableList)
        ensures
            l.objects@.len() == 0,
            l.wf(),
    {
        HittableList { objects: Vec::new() }
    }

    /// Appends a primitive to the scene.
    pub fn add(&mut self, s: Sphere)
        requires
            sphere_wf(s),
            old(self).wf(),
        ensures
            final(self).objects@ == old(self).objects@.push(s),
            final(self).wf(),
    {
        self.objects.push(s);
    }

    /// Number of primitives in the scene.
    pub fn len(&self) -> (n: usize)
        ensures
            n == self.objects@.len(),
    {
        self.objects.len()
    }
}

impl Hittable for HittableList {
    open spec fn wf(&self) -> bool {
        forall|i: int|
            0 <= i < self.objects@.len() ==> sphere_wf(#[trigger] self.objects@[i])
    }

    open spec fn hit_model(&self, r: Ray, t_min: int, t_max: int) -> Option<HitInfo> {
        list_hit_scan_s(self.objects@, r, t_min, t_max, None)
    }

    fn hit(&self, r: &Ray, t_min: i64, t_max: i64) -> (res: Option<HitRecord>) {
        let ghost all = self.objects@;
        let mut best: Option<HitRecord> = None;
        let mut closest: i64 = t_max;
        let n = self.objects.len();
        let mut i: usize = 0;
        proof {
            assert(all.subrange(0, n as int) =~= all);
        }
        while i < n
            invariant
                n == all.len(),
                0 <= i <= n,
                self.objects@ == all,
                self.wf(),
                ray_wf(*r),
                list_hit_scan_s(all, *r, t_min as int, t_max as int, None) == list_hit_scan_s(
                    all.subrange(i as int, n as int),
                    *r,
                    t_min as int,
                    closest as int,
                    match best {
                        Some(b) => Some(b@),
                        None => None,
                    },
                ),
                match best {
                    Some(b) => {
                        &&& hit_record_wf(b@)
                        &&& t_min <= b.t <= t_max
                        &&& b.t == closest
                        &&& v3_dot_s(b@.normal, r.direction@) <= 0
                        &&& b.material is Some
                        &&& (b.material matches Some(m) && m.wf())
                    },
                    None => closest == t_max,
                },
            decreases n - i,
        {
            let ghost pre = all.subrange(i as int, n as int);
            let sphere = &self.objects[i];
            let candidate = sphere.hit(r, t_min, closest);
            proof {
                assert(pre[0] == all[i as int]);
                assert(pre.subrange(1, pre.len() as int) =~= all.subrange(
                    i as int + 1,
                    n as int,
                ));
            }
            match candidate {
                Some(rec) => {
                    closest = rec.t;
                    best = Some(rec);
                },
                None => {},
            }
            i = i + 1;
        }
        proof {
            assert(all.subrange(n as int, n as int) =~= Seq::<Sphere>::empty());
        }
        best
    }
}

} // verus!
