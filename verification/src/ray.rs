//! Rays: parametric lines `origin + t * direction`, plus the numeric
//! envelope that scene queries demand of a ray.

use vstd::prelude::*;
use crate::fixed::{SCALE, fx_mul_s};
use crate::vec3::{Vec3, V3, v3_add_s, v3_scale_s, v3_bounded, v3_len2_wide};

verus! {

/// Coordinate envelope for rays handled by scene queries: everything the
/// renderer traces stays within eight thousand units of the origin.
pub const RAY_COORD_MAX: i64 = 8_000_000_000;

/// A parametric line; the direction is not required to be normalized.
#[derive(Clone, Copy, Debug, PartialEq, Eq, Structural)]
pub struct Ray {
    pub origin: Vec3,
    pub direction: Vec3,
}

/// The point a ray reaches at parameter `t`.
pub open spec fn ray_at_s(origin: V3, direction: V3, t: int) -> V3 {
    v3_add_s(origin, v3_scale_s(direction, t))
}

/// Rays accepted by scene queries: coordinates within the world envelope
/// and a direction at least a thousandth of a unit long, so that it can
/// be normalized and the quadratic's leading coefficient is nonzero.
pub open spec fn ray_wf(r: Ray) -> bool {
    &&& v3_bounded(r.origin@, RAY_COORD_MAX as int)
    &&& v3_bounded(r.direction@, RAY_COORD_MAX as int)
    &&& v3_len2_wide(r.direction@) >= SCALE as int
}

impl Ray {
    pub fn new(origin: Vec3, direction: Vec3) -> (r: Ray)
        ensures
            r.origin == origin,
            r.direction == direction,
    {
        Ray { origin, direction }
    }

    pub fn origin(&self) -> (o: Vec3)
        ensures
            o == self.origin,
    {
        self.origin
    }

    pub fn direction(&self) -> (d: Vec3)
        ensures
            d == self.direction,
    {
        self.direction
    }

    /// The point at parameter `t` along the ray.
    pub fn at(&self, t: i64) -> (p: Vec3)
        requires
            i64::MIN <= fx_mul_s(self.direction@.x, t as int) <= i64::MAX,
            i64::MIN <= fx_mul_s(self.direction@.y, t as int) <= i64::MAX,
            i64::MIN <= fx_mul_s(self.direction@.z, t as int) <= i64::MAX,
            i64::MIN <= self.origin@.x + fx_mul_s(self.direction@.x, t as int) <= i64::MAX,
            i64::MIN <= self.origin@.y + fx_mul_s(self.direction@.y, t as int) <= i64::MAX,
            i64::MIN <= self.origin@.z + fx_mul_s(self.direction@.z, t as int) <= i64::MAX,
        ensures
            p@ == ray_at_s(self.origin@, self.direction@, t as int),
    {
        self.origin.add(self.direction.scale(t))
    }
}

/// Decides whether a ray lies within the envelope that scene queries
/// accept.
pub fn ray_wf_check(r: &Ray) -> (b: bool)
    ensures
        b == ray_wf(*r),
{
    let bounded = -RAY_COORD_MAX <= r.origin.x && r.origin.x <= RAY_COORD_MAX
        && -RAY_COORD_MAX <= r.origin.y && r.origin.y <= RAY_COORD_MAX
        && -RAY_COORD_MAX <= r.origin.z && r.origin.z <= RAY_COORD_MAX
        && -RAY_COORD_MAX <= r.direction.x && r.direction.x <= RAY_COORD_MAX
        && -RAY_COORD_MAX <= r.direction.y && r.direction.y <= RAY_COORD_MAX
        && -RAY_COORD_MAX <= r.direction.z && r.direction.z <= RAY_COORD_MAX;
    if !bounded {
        return false;
    }
    proof {
        crate::vec3::lemma_abs_mul(r.direction@.x, r.direction@.x, RAY_COORD_MAX as int, RAY_COORD_MAX as int);
        crate::vec3::lemma_abs_mul(r.direction@.y, r.direction@.y, RAY_COORD_MAX as int, RAY_COORD_MAX as int);
        crate::vec3::lemma_abs_mul(r.direction@.z, r.direction@.z, RAY_COORD_MAX as int, RAY_COORD_MAX as int);
    }
    let w: i128 = (r.direction.x as i128) * (r.direction.x as i128)
        + (r.direction.y as i128) * (r.direction.y as i128)
        + (r.direction.z as i128) * (r.direction.z as i128);
    w >= SCALE as i128
}

} // verus!
