//! Three-component fixed-point vectors, used for points, directions and
//! colors, together with the mathematical model (`V3`) that all contracts
//! speak of.

use vstd::prelude::*;
use crate::fixed::{
    SCALE, HALF_SCALE, abs_s, tdiv, fx_mul_s, fx_div_s, fx_sqrt_s, fx_mul, fx_div, isqrt_s, isqrt,
    lemma_tdiv_abs, lemma_tdiv_ordered, lemma_tdiv_neg, lemma_tdiv_mul_exact, lemma_tdiv_bound_by,
    lemma_fx_mul_bound,
    lemma_isqrt_s_bounds, lemma_isqrt_s_unique, lemma_isqrt_s_ordered,
};
use crate::rtweekend::RandomSource;

verus! {

/// Mathematical model of a vector: three unbounded integers, each a raw
/// fixed-point scalar.
pub ghost struct V3 {
    pub x: int,
    pub y: int,
    pub z: int,
}

/// Bound on vector components accepted by the dot-product family of
/// operations; it keeps every intermediate inside the machine words.
pub const DOT_MAX: i64 = 1_500_000_000_000;

/// Components below this magnitude (one thousandth) count as near zero;
/// used to reject degenerate scatter directions.
pub const NEAR_ZERO_EPS: i64 = 1_000;

pub open spec fn v3_zero() -> V3 {
    V3 { x: 0, y: 0, z: 0 }
}

pub open spec fn v3_bounded(v: V3, m: int) -> bool {
    abs_s(v.x) <= m && abs_s(v.y) <= m && abs_s(v.z) <= m
}

pub open spec fn v3_add_s(a: V3, b: V3) -> V3 {
    V3 { x: a.x + b.x, y: a.y + b.y, z: a.z + b.z }
}

pub open spec fn v3_sub_s(a: V3, b: V3) -> V3 {
    V3 { x: a.x - b.x, y: a.y - b.y, z: a.z - b.z }
}

pub open spec fn v3_neg_s(a: V3) -> V3 {
    V3 { x: -a.x, y: -a.y, z: -a.z }
}

/// Component-wise (Hadamard) fixed-point product, the attenuation product
/// on colors.
pub open spec fn v3_hadamard_s(a: V3, b: V3) -> V3 {
    V3 { x: fx_mul_s(a.x, b.x), y: fx_mul_s(a.y, b.y), z: fx_mul_s(a.z, b.z) }
}

/// Scaling by a fixed-point scalar.
pub open spec fn v3_scale_s(a: V3, t: int) -> V3 {
    V3 { x: fx_mul_s(a.x, t), y: fx_mul_s(a.y, t), z: fx_mul_s(a.z, t) }
}

/// Division by a positive fixed-point scalar.
pub open spec fn v3_div_scalar_s(a: V3, t: int) -> V3 {
    V3 { x: fx_div_s(a.x, t), y: fx_div_s(a.y, t), z: fx_div_s(a.z, t) }
}

/// Division of each component by a positive plain count (not a scalar):
/// used to step from a viewport edge to a per-pixel delta.
pub open spec fn v3_div_count_s(a: V3, n: int) -> V3 {
    V3 { x: tdiv(a.x, n), y: tdiv(a.y, n), z: tdiv(a.z, n) }
}

/// Unscaled integer dot product (exact; carries scale squared).
pub open spec fn v3_dot_wide(a: V3, b: V3) -> int {
    a.x * b.x + a.y * b.y + a.z * b.z
}

/// Fixed-point dot product: the exact wide product, rescaled once.
pub open spec fn v3_dot_s(a: V3, b: V3) -> int {
    tdiv(v3_dot_wide(a, b), SCALE as int)
}

/// Unscaled squared length (exact; carries scale squared).
pub open spec fn v3_len2_wide(a: V3) -> int {
    v3_dot_wide(a, a)
}

/// Fixed-point squared length.
pub open spec fn v3_len2_s(a: V3) -> int {
    v3_dot_s(a, a)
}

/// Fixed-point length: because the wide squared length carries the scale
/// twice, its integer square root is already at the working scale.
pub open spec fn v3_len_s(a: V3) -> int {
    isqrt_s(v3_len2_wide(a) as nat) as int
}

/// The unit vector along `a`: each component rescaled by the length.
pub open spec fn v3_unit_s(a: V3) -> V3 {
    v3_div_scalar_s(a, v3_len_s(a))
}

pub open spec fn v3_cross_s(a: V3, b: V3) -> V3 {
    V3 {
        x: tdiv(a.y * b.z - a.z * b.y, SCALE as int),
        y: tdiv(a.z * b.x - a.x * b.z, SCALE as int),
        z: tdiv(a.x * b.y - a.y * b.x, SCALE as int),
    }
}

pub open spec fn v3_near_zero_s(a: V3) -> bool {
    abs_s(a.x) < NEAR_ZERO_EPS && abs_s(a.y) < NEAR_ZERO_EPS && abs_s(a.z) < NEAR_ZERO_EPS
}

/// Colors: all components inside the unit interval.
pub open spec fn v3_in_unit_interval(v: V3) -> bool {
    0 <= v.x <= SCALE as int && 0 <= v.y <= SCALE as int && 0 <= v.z <= SCALE as int
}

/// A 3-component fixed-point vector; doubles as a point and as a color.
#[derive(Clone, Copy, Debug, PartialEq, Eq, Structural)]
pub struct Vec3 {
    pub x: i64,
    pub y: i64,
    pub z: i64,
}

impl View for Vec3 {
    type V = V3;

    open spec fn view(&self) -> V3 {
        V3 { x: self.x as int, y: self.y as int, z: self.z as int }
    }
}

/// Magnitude bound on a product from magnitude bounds on the factors.
pub proof fn lemma_abs_mul(a: int, b: int, m1: int, m2: int)
    requires
        abs_s(a) <= m1,
        abs_s(b) <= m2,
    ensures
        abs_s(a * b) <= m1 * m2,
{
    assert(abs_s(a * b) <= m1 * m2) by (nonlinear_arith)
        requires
            abs_s(a) <= m1,
            abs_s(b) <= m2,
    ;
}

/// Component products of two bounded vectors are bounded.
proof fn lemma_v3_products_bounded(a: V3, b: V3, m1: int, m2: int)
    requires
        v3_bounded(a, m1),
        v3_bounded(b, m2),
    ensures
        abs_s(a.x * b.x) <= m1 * m2,
        abs_s(a.y * b.y) <= m1 * m2,
        abs_s(a.z * b.z) <= m1 * m2,
        abs_s(a.y * b.z) <= m1 * m2,
        abs_s(a.z * b.y) <= m1 * m2,
        abs_s(a.z * b.x) <= m1 * m2,
        abs_s(a.x * b.z) <= m1 * m2,
        abs_s(a.x * b.y) <= m1 * m2,
        abs_s(a.y * b.x) <= m1 * m2,
{
    lemma_abs_mul(a.x, b.x, m1, m2);
    lemma_abs_mul(a.y, b.y, m1, m2);
    lemma_abs_mul(a.z, b.z, m1, m2);
    lemma_abs_mul(a.y, b.z, m1, m2);
    lemma_abs_mul(a.z, b.y, m1, m2);
    lemma_abs_mul(a.z, b.x, m1, m2);
    lemma_abs_mul(a.x, b.z, m1, m2);
    lemma_abs_mul(a.x, b.y, m1, m2);
    lemma_abs_mul(a.y, b.x, m1, m2);
}

/// A near-zero vector has a tiny wide squared length (each component's
/// square is below the squared threshold).
pub proof fn lemma_near_zero_wide(v: V3)
    requires
        v3_near_zero_s(v),
    ensures
        v3_len2_wide(v) < 3 * (NEAR_ZERO_EPS as int) * (NEAR_ZERO_EPS as int),
{
    assert(v3_len2_wide(v) < 3 * (NEAR_ZERO_EPS as int) * (NEAR_ZERO_EPS as int))
        by (nonlinear_arith)
        requires
            abs_s(v.x) < NEAR_ZERO_EPS as int,
            abs_s(v.y) < NEAR_ZERO_EPS as int,
            abs_s(v.z) < NEAR_ZERO_EPS as int,
            NEAR_ZERO_EPS == 1_000,
    ;
}

/// Componentwise magnitude bound of the cross product of two bounded
/// vectors.
pub proof fn lemma_v3_cross_bound(a: V3, b: V3, m1: int, m2: int, q: int)
    requires
        v3_bounded(a, m1),
        v3_bounded(b, m2),
        q >= 0,
        2 * (m1 * m2) <= q * (SCALE as int),
    ensures
        v3_bounded(v3_cross_s(a, b), q),
{
    lemma_v3_products_bounded(a, b, m1, m2);
    lemma_tdiv_bound_by(a.y * b.z - a.z * b.y, SCALE as int, q);
    lemma_tdiv_bound_by(a.z * b.x - a.x * b.z, SCALE as int, q);
    lemma_tdiv_bound_by(a.x * b.y - a.y * b.x, SCALE as int, q);
}

/// The magnitude of every component of the dot product's arguments is
/// bounded, so the wide product and the rescaled result both fit.
pub proof fn lemma_v3_dot_bound(a: V3, b: V3, m1: int, m2: int)
    requires
        v3_bounded(a, m1),
        v3_bounded(b, m2),
    ensures
        abs_s(v3_dot_wide(a, b)) <= 3 * m1 * m2,
        abs_s(v3_dot_s(a, b)) <= tdiv(3 * m1 * m2, SCALE as int),
{
    lemma_v3_products_bounded(a, b, m1, m2);
    let p = m1 * m2;
    assert(3 * m1 * m2 == p + p + p) by (nonlinear_arith)
        requires
            p == m1 * m2,
    ;
    let w = v3_dot_wide(a, b);
    lemma_tdiv_abs(w, SCALE as int);
    if w >= 0 {
        lemma_tdiv_ordered(w, 3 * m1 * m2, SCALE as int);
    } else {
        lemma_tdiv_ordered(-w, 3 * m1 * m2, SCALE as int);
    }
}

/// Negating one argument negates the fixed-point dot product exactly
/// (truncation is symmetric about zero).
pub proof fn lemma_v3_dot_neg(a: V3, b: V3)
    ensures
        v3_dot_s(v3_neg_s(a), b) == -v3_dot_s(a, b),
        v3_dot_wide(v3_neg_s(a), b) == -v3_dot_wide(a, b),
{
    assert(v3_dot_wide(v3_neg_s(a), b) == -v3_dot_wide(a, b)) by (nonlinear_arith);
    lemma_tdiv_neg(v3_dot_wide(a, b), SCALE as int);
}

/// The dot product is symmetric.
pub proof fn lemma_v3_dot_sym(a: V3, b: V3)
    ensures
        v3_dot_s(a, b) == v3_dot_s(b, a),
        v3_dot_wide(a, b) == v3_dot_wide(b, a),
{
    assert(v3_dot_wide(a, b) == v3_dot_wide(b, a)) by (nonlinear_arith);
}

impl Vec3 {
    pub fn new(e0: i64, e1: i64, e2: i64) -> (v: Vec3)
        ensures
            v@ == (V3 { x: e0 as int, y: e1 as int, z: e2 as int }),
    {
        Vec3 { x: e0, y: e1, z: e2 }
    }

    pub fn x(&self) -> (r: i64)
        ensures
            r as int == self@.x,
    {
        self.x
    }

    pub fn y(&self) -> (r: i64)
        ensures
            r as int == self@.y,
    {
        self.y
    }

    pub fn z(&self) -> (r: i64)
        ensures
            r as int == self@.z,
    {
        self.z
    }

    pub fn add(self, o: Vec3) -> (r: Vec3)
        requires
            i64::MIN <= self@.x + o@.x <= i64::MAX,
            i64::MIN <= self@.y + o@.y <= i64::MAX,
            i64::MIN <= self@.z + o@.z <= i64::MAX,
        ensures
            r@ == v3_add_s(self@, o@),
    {
        Vec3 { x: self.x + o.x, y: self.y + o.y, z: self.z + o.z }
    }

    pub fn sub(self, o: Vec3) -> (r: Vec3)
        requires
            i64::MIN <= self@.x - o@.x <= i64::MAX,
            i64::MIN <= self@.y - o@.y <= i64::MAX,
            i64::MIN <= self@.z - o@.z <= i64::MAX,
        ensures
            r@ == v3_sub_s(self@, o@),
    {
        Vec3 { x: self.x - o.x, y: self.y - o.y, z: self.z - o.z }
    }

    pub fn neg(self) -> (r: Vec3)
        requires
            v3_bounded(self@, i64::MAX as int),
        ensures
            r@ == v3_neg_s(self@),
    {
        Vec3 { x: -self.x, y: -self.y, z: -self.z }
    }

    /// Component-wise product (colors attenuating colors).
    pub fn mul(self, o: Vec3) -> (r: Vec3)
        requires
            i64::MIN <= fx_mul_s(self@.x, o@.x) <= i64::MAX,
            i64::MIN <= fx_mul_s(self@.y, o@.y) <= i64::MAX,
            i64::MIN <= fx_mul_s(self@.z, o@.z) <= i64::MAX,
        ensures
            r@ == v3_hadamard_s(self@, o@),
    {
        Vec3 { x: fx_mul(self.x, o.x), y: fx_mul(self.y, o.y), z: fx_mul(self.z, o.z) }
    }

    /// Scaling by a fixed-point scalar.
    pub fn scale(self, t: i64) -> (r: Vec3)
        requires
            i64::MIN <= fx_mul_s(self@.x, t as int) <= i64::MAX,
            i64::MIN <= fx_mul_s(self@.y, t as int) <= i64::MAX,
            i64::MIN <= fx_mul_s(self@.z, t as int) <= i64::MAX,
        ensures
            r@ == v3_scale_s(self@, t as int),
    {
        Vec3 { x: fx_mul(self.x, t), y: fx_mul(self.y, t), z: fx_mul(self.z, t) }
    }

    /// Division by a positive fixed-point scalar.
    pub fn div(self, t: i64) -> (r: Vec3)
        requires
            t > 0,
            i64::MIN <= fx_div_s(self@.x, t as int) <= i64::MAX,
            i64::MIN <= fx_div_s(self@.y, t as int) <= i64::MAX,
            i64::MIN <= fx_div_s(self@.z, t as int) <= i64::MAX,
        ensures
            r@ == v3_div_scalar_s(self@, t as int),
    {
        Vec3 { x: fx_div(self.x, t), y: fx_div(self.y, t), z: fx_div(self.z, t) }
    }

    /// True when every component is smaller than a thousandth in
    /// magnitude, the resolution-level guard for degenerate directions.
    pub fn near_zero(&self) -> (r: bool)
        ensures
            r == v3_near_zero_s(self@),
    {
        -NEAR_ZERO_EPS < self.x && self.x < NEAR_ZERO_EPS
            && -NEAR_ZERO_EPS < self.y && self.y < NEAR_ZERO_EPS
            && -NEAR_ZERO_EPS < self.z && self.z < NEAR_ZERO_EPS
    }

    pub fn length_squared(&self) -> (r: i64)
        requires
            v3_bounded(self@, DOT_MAX as int),
        ensures
            r as int == v3_len2_s(self@),
            0 <= r,
    {
        proof {
            assert(v3_len2_wide(self@) >= 0) by (nonlinear_arith);
            lemma_tdiv_abs(v3_len2_wide(self@), SCALE as int);
        }
        dot(*self, *self)
    }

    pub fn length(&self) -> (r: i64)
        requires
            v3_bounded(self@, DOT_MAX as int),
        ensures
            r as int == v3_len_s(self@),
            0 <= r,
    {
        proof {
            lemma_v3_products_bounded(self@, self@, DOT_MAX as int, DOT_MAX as int);
            lemma_v3_dot_bound(self@, self@, DOT_MAX as int, DOT_MAX as int);
            assert(v3_len2_wide(self@) >= 0) by (nonlinear_arith);
        }
        let w: i128 = (self.x as i128) * (self.x as i128) + (self.y as i128) * (self.y as i128)
            + (self.z as i128) * (self.z as i128);
        let r = isqrt(w as u128);
        proof {
            let n = v3_len2_wide(self@) as nat;
            assert(r as nat == isqrt_s(n));
            lemma_isqrt_s_bounds(n);
            assert(r as nat <= 3_000_000_000_000) by (nonlinear_arith)
                requires
                    (r as nat) * (r as nat) <= n,
                    n <= 3 * (DOT_MAX as nat) * (DOT_MAX as nat),
            ;
        }
        r as i64
    }

    /// Draws a vector with components uniform in `[0, 1)`.
    pub fn random(rng: &mut RandomSource) -> (v: Vec3)
        ensures
            0 <= v@.x < SCALE as int,
            0 <= v@.y < SCALE as int,
            0 <= v@.z < SCALE as int,
    {
        Vec3::random_range(rng, 0, SCALE)
    }

    /// Draws a vector with components uniform in `[min, max)`.
    pub fn random_range(rng: &mut RandomSource, min: i64, max: i64) -> (v: Vec3)
        requires
            min < max,
        ensures
            min as int <= v@.x < max as int,
            min as int <= v@.y < max as int,
            min as int <= v@.z < max as int,
    {
        let x = rng.next_in_range(min, max);
        let y = rng.next_in_range(min, max);
        let z = rng.next_in_range(min, max);
        Vec3 { x, y, z }
    }
}

/// Fixed-point dot product of two bounded vectors.
pub fn dot(u: Vec3, v: Vec3) -> (r: i64)
    requires
        v3_bounded(u@, DOT_MAX as int),
        v3_bounded(v@, DOT_MAX as int),
    ensures
        r as int == v3_dot_s(u@, v@),
        abs_s(r as int) <= 7_000_000_000_000_000_000,
{
    proof {
        lemma_v3_products_bounded(u@, v@, DOT_MAX as int, DOT_MAX as int);
        lemma_v3_dot_bound(u@, v@, DOT_MAX as int, DOT_MAX as int);
        lemma_tdiv_abs(v3_dot_wide(u@, v@), SCALE as int);
    }
    let w: i128 = (u.x as i128) * (v.x as i128) + (u.y as i128) * (v.y as i128)
        + (u.z as i128) * (v.z as i128);
    let r = crate::fixed::tdiv_i128(w, SCALE as i128);
    r as i64
}

/// Fixed-point cross product of two bounded vectors.
pub fn cross(u: Vec3, v: Vec3) -> (r: Vec3)
    requires
        v3_bounded(u@, DOT_MAX as int),
        v3_bounded(v@, DOT_MAX as int),
    ensures
        r@ == v3_cross_s(u@, v@),
{
    proof {
        lemma_v3_products_bounded(u@, v@, DOT_MAX as int, DOT_MAX as int);
        lemma_cross_terms_bounded(u@, v@);
    }
    let cx: i128 = (u.y as i128) * (v.z as i128) - (u.z as i128) * (v.y as i128);
    let cy: i128 = (u.z as i128) * (v.x as i128) - (u.x as i128) * (v.z as i128);
    let cz: i128 = (u.x as i128) * (v.y as i128) - (u.y as i128) * (v.x as i128);
    let rx = crate::fixed::tdiv_i128(cx, SCALE as i128);
    let ry = crate::fixed::tdiv_i128(cy, SCALE as i128);
    let rz = crate::fixed::tdiv_i128(cz, SCALE as i128);
    Vec3 { x: rx as i64, y: ry as i64, z: rz as i64 }
}

/// Every coordinate term of the cross product of vectors bounded by
/// `DOT_MAX` stays comfortably inside the machine words.
proof fn lemma_cross_terms_bounded(a: V3, b: V3)
    requires
        v3_bounded(a, DOT_MAX as int),
        v3_bounded(b, DOT_MAX as int),
    ensures
        abs_s(a.y * b.z - a.z * b.y) <= 2 * (DOT_MAX as int) * (DOT_MAX as int),
        abs_s(a.z * b.x - a.x * b.z) <= 2 * (DOT_MAX as int) * (DOT_MAX as int),
        abs_s(a.x * b.y - a.y * b.x) <= 2 * (DOT_MAX as int) * (DOT_MAX as int),
        abs_s(tdiv(a.y * b.z - a.z * b.y, SCALE as int)) <= i64::MAX as int,
        abs_s(tdiv(a.z * b.x - a.x * b.z, SCALE as int)) <= i64::MAX as int,
        abs_s(tdiv(a.x * b.y - a.y * b.x, SCALE as int)) <= i64::MAX as int,
{
    let m = DOT_MAX as int;
    lemma_v3_products_bounded(a, b, m, m);
    let p = m * m;
    assert(2 * m * m == p + p) by (nonlinear_arith)
        requires
            p == m * m,
    ;
    lemma_tdiv_abs(a.y * b.z - a.z * b.y, SCALE as int);
    lemma_tdiv_abs(a.z * b.x - a.x * b.z, SCALE as int);
    lemma_tdiv_abs(a.x * b.y - a.y * b.x, SCALE as int);
}

/// Rescales a nonzero bounded vector to (approximately) unit length; the
/// result's components never exceed one in magnitude.
pub fn unit_vector(v: Vec3) -> (r: Vec3)
    requires
        v3_bounded(v@, DOT_MAX as int),
        v3_len2_wide(v@) >= 1,
    ensures
        r@ == v3_unit_s(v@),
        v3_bounded(r@, SCALE as int),
{
    proof {
        lemma_v3_dot_bound(v@, v@, DOT_MAX as int, DOT_MAX as int);
    }
    let len = v.length();
    proof {
        let n = v3_len2_wide(v@) as nat;
        lemma_isqrt_s_bounds(n);
        assert(isqrt_s(n) >= 1) by (nonlinear_arith)
            requires
                n >= 1,
                n < (isqrt_s(n) + 1) * (isqrt_s(n) + 1),
        ;
        lemma_unit_component_bounds(v@);
    }
    v.div(len)
}

/// Each component of a vector rescaled by its own length stays within one
/// unit of value: the length dominates every component.
pub proof fn lemma_unit_component_bounds(v: V3)
    requires
        v3_len2_wide(v) >= 1,
    ensures
        abs_s(fx_div_s(v.x, v3_len_s(v))) <= SCALE as int,
        abs_s(fx_div_s(v.y, v3_len_s(v))) <= SCALE as int,
        abs_s(fx_div_s(v.z, v3_len_s(v))) <= SCALE as int,
{
    let n = v3_len2_wide(v) as nat;
    let l = isqrt_s(n);
    lemma_isqrt_s_bounds(n);
    assert(abs_s(v.x) <= l && abs_s(v.y) <= l && abs_s(v.z) <= l) by (nonlinear_arith)
        requires
            l * l <= n,
            n < (l + 1) * (l + 1),
            n == v.x * v.x + v.y * v.y + v.z * v.z,
    ;
    lemma_unit_component_one(v.x, l as int);
    lemma_unit_component_one(v.y, l as int);
    lemma_unit_component_one(v.z, l as int);
}

/// Componentwise magnitude bound for scaling by a bounded scalar.
pub proof fn lemma_v3_scale_bound(a: V3, t: int, m1: int, m2: int)
    requires
        v3_bounded(a, m1),
        abs_s(t) <= m2,
    ensures
        v3_bounded(v3_scale_s(a, t), tdiv(m1 * m2, SCALE as int)),
{
    lemma_fx_mul_bound(a.x, t, m1, m2);
    lemma_fx_mul_bound(a.y, t, m1, m2);
    lemma_fx_mul_bound(a.z, t, m1, m2);
}

/// Largest component magnitude `reflect` accepts (four units of value,
/// enough for an approximately unit direction against an oriented normal).
pub const REFLECT_ARG_MAX: i64 = 4_000_000;

/// Fixed-point mirror reflection about a normal:
/// `v - 2 * dot(v, n) * n`.
pub open spec fn v3_reflect_s(v: V3, n: V3) -> V3 {
    v3_sub_s(v, v3_scale_s(n, 2 * v3_dot_s(v, n)))
}

/// Reflects `v` about the normal `n`.
pub fn reflect(v: &Vec3, n: &Vec3) -> (r: Vec3)
    requires
        v3_bounded(v@, REFLECT_ARG_MAX as int),
        v3_bounded(n@, REFLECT_ARG_MAX as int),
    ensures
        r@ == v3_reflect_s(v@, n@),
        v3_bounded(r@, 400_000_000),
{
    let ghost m: int = REFLECT_ARG_MAX as int;
    proof {
        lemma_v3_dot_bound(v@, n@, m, m);
        assert(tdiv(3 * m * m, SCALE as int) == 48_000_000) by (nonlinear_arith)
            requires
                m == 4_000_000,
        ;
    }
    let d = dot(*v, *n);
    let d2 = 2 * d;
    proof {
        lemma_v3_scale_bound(n@, d2 as int, m, 96_000_000);
        assert(tdiv(m * 96_000_000, SCALE as int) == 384_000_000) by (nonlinear_arith)
            requires
                m == 4_000_000,
        ;
    }
    let scaled = n.scale(d2);
    v.sub(scaled)
}

/// Largest refraction-index ratio `refract` accepts (one hundred).
pub const ETA_MAX: i64 = 100_000_000;

/// Clamps a fixed-point cosine into `[-1, 1]`.
pub open spec fn clamp_unit_s(d: int) -> int {
    if d > SCALE as int {
        SCALE as int
    } else if d < -(SCALE as int) {
        -(SCALE as int)
    } else {
        d
    }
}

/// Fixed-point vector Snell refraction. The perpendicular component is
/// `eta * (uv + cos * n)`; the parallel component is
/// `-sqrt(1 - |perp|^2) * n`, with the radicand floored at zero against
/// rounding (the caller rules out total internal reflection beforehand).
pub open spec fn v3_refract_s(uv: V3, n: V3, eta: int) -> V3 {
    let cos = clamp_unit_s(v3_dot_s(v3_neg_s(uv), n));
    let perp = v3_scale_s(v3_add_s(uv, v3_scale_s(n, cos)), eta);
    let ls = v3_len2_s(perp);
    let k = if ls > SCALE as int {
        0
    } else {
        (SCALE as int) - ls
    };
    let par = v3_scale_s(n, -fx_sqrt_s(k));
    v3_add_s(perp, par)
}

/// Refracts the direction `uv` at a surface with normal `n` and
/// refraction-index ratio `etai_over_etat`.
pub fn refract(uv: &Vec3, n: &Vec3, etai_over_etat: i64) -> (r: Vec3)
    requires
        v3_bounded(uv@, 2 * SCALE as int),
        v3_bounded(n@, 2 * SCALE as int),
        0 < etai_over_etat <= ETA_MAX,
    ensures
        r@ == v3_refract_s(uv@, n@, etai_over_etat as int),
        v3_bounded(r@, 500_000_000),
{
    let ghost s: int = SCALE as int;
    proof {
        lemma_v3_dot_bound(v3_neg_s(uv@), n@, 2 * s, 2 * s);
    }
    let minus_uv = uv.neg();
    let d = dot(minus_uv, *n);
    let cos_theta = if d > SCALE {
        SCALE
    } else if d < -SCALE {
        -SCALE
    } else {
        d
    };
    proof {
        lemma_v3_scale_bound(n@, cos_theta as int, 2 * s, s);
        assert(tdiv(2 * s * s, s) == 2 * s) by (nonlinear_arith)
            requires
                s == 1_000_000,
        ;
    }
    let scaled_n = n.scale(cos_theta);
    let sum = uv.add(scaled_n);
    proof {
        lemma_v3_scale_bound(v3_add_s(uv@, v3_scale_s(n@, cos_theta as int)), etai_over_etat as int, 4 * s, ETA_MAX as int);
        assert(tdiv(4 * s * (ETA_MAX as int), s) == 400_000_000) by (nonlinear_arith)
            requires
                s == 1_000_000,
        ;
    }
    let perp = sum.scale(etai_over_etat);
    let ls = perp.length_squared();
    let k = if ls > SCALE {
        0
    } else {
        SCALE - ls
    };
    let sq = crate::fixed::fx_sqrt(k);
    proof {
        lemma_fx_sqrt_le_scale(k as int);
        lemma_v3_scale_bound(n@, -(sq as int), 2 * s, s);
        assert(tdiv(2 * s * s, s) == 2 * s) by (nonlinear_arith)
            requires
                s == 1_000_000,
        ;
    }
    let par = n.scale(-sq);
    perp.add(par)
}

/// The fixed-point square root of a scalar at most one is at most one.
pub proof fn lemma_fx_sqrt_le_scale(k: int)
    requires
        0 <= k <= SCALE as int,
    ensures
        0 <= fx_sqrt_s(k) <= SCALE as int,
{
    let s = SCALE as int;
    lemma_isqrt_s_ordered((k * s) as nat, (s * s) as nat);
    assert(k * s <= s * s) by (nonlinear_arith)
        requires
            0 <= k <= s,
    ;
    let sn = s as nat;
    assert(((s * s) as nat) < (sn + 1) * (sn + 1)) by (nonlinear_arith)
        requires
            s == 1_000_000,
            sn == s as nat,
    ;
    lemma_isqrt_s_unique((s * s) as nat, s as nat);
}

/// Exact-arithmetic mirror reflection, kept at the wide (unscaled) level:
/// `reflect(d, n)` scaled by `dot(n, n)` so that no division occurs.
pub open spec fn v3_reflect_exact(d: V3, n: V3) -> V3 {
    let q = v3_dot_wide(n, n);
    let t = v3_dot_wide(d, n);
    V3 { x: q * d.x - 2 * t * n.x, y: q * d.y - 2 * t * n.y, z: q * d.z - 2 * t * n.z }
}

/// Multiplication distributes over a three-term sum.
proof fn lemma_mul_distrib3(k: int, a: int, b: int, c: int)
    ensures
        k * a + k * b + k * c == k * (a + b + c),
{
    assert(k * a + k * b + k * c == k * (a + b + c)) by (nonlinear_arith);
}

/// One coordinate of the scaled reflection, multiplied by the matching
/// normal coordinate, expanded.
proof fn lemma_reflect_component_dot(q: int, t: int, dc: int, nc: int)
    ensures
        (q * dc - 2 * t * nc) * nc == q * (dc * nc) - 2 * t * (nc * nc),
{
    assert((q * dc - 2 * t * nc) * nc == q * (dc * nc) - 2 * t * (nc * nc)) by (nonlinear_arith);
}

/// One coordinate of the scaled reflection, squared and expanded.
proof fn lemma_reflect_component_sq(q: int, t: int, dc: int, nc: int)
    ensures
        (q * dc - 2 * t * nc) * (q * dc - 2 * t * nc) == (q * q) * (dc * dc) - (4 * (q * t)) * (dc
            * nc) + (4 * (t * t)) * (nc * nc),
{
    let a = q * dc;
    let b = 2 * t * nc;
    assert((a - b) * (a - b) == a * a - 2 * (a * b) + b * b) by (nonlinear_arith);
    assert(a * a == (q * q) * (dc * dc)) by (nonlinear_arith)
        requires
            a == q * dc,
    ;
    assert(2 * (a * b) == (4 * (q * t)) * (dc * nc)) by (nonlinear_arith)
        requires
            a == q * dc,
            b == 2 * t * nc,
    ;
    assert(b * b == (4 * (t * t)) * (nc * nc)) by (nonlinear_arith)
        requires
            b == 2 * t * nc,
    ;
}

/// Law: reflection reverses the normal component of a direction. In exact
/// arithmetic, `dot(reflect(d, n), n) == -dot(d, n)` (here carrying the
/// extra factor `dot(n, n)` because `v3_reflect_exact` avoids division;
/// for a unit normal that factor is the squared scale).
pub proof fn lemma_reflect_exact_dot(d: V3, n: V3)
    ensures
        v3_dot_wide(v3_reflect_exact(d, n), n) == -(v3_dot_wide(n, n) * v3_dot_wide(d, n)),
{
    let q = v3_dot_wide(n, n);
    let t = v3_dot_wide(d, n);
    let r = v3_reflect_exact(d, n);
    lemma_reflect_component_dot(q, t, d.x, n.x);
    lemma_reflect_component_dot(q, t, d.y, n.y);
    lemma_reflect_component_dot(q, t, d.z, n.z);
    lemma_mul_distrib3(q, d.x * n.x, d.y * n.y, d.z * n.z);
    lemma_mul_distrib3(2 * t, n.x * n.x, n.y * n.y, n.z * n.z);
    assert(q * t - (2 * t) * q == -(q * t)) by (nonlinear_arith);
}

/// Law: reflection preserves length. In exact arithmetic,
/// `|reflect(d, n)| == |d|` for a unit normal; stated without division as
/// `|r|^2 == dot(n, n)^2 * |d|^2` for the scaled reflection `r`.
pub proof fn lemma_reflect_exact_length(d: V3, n: V3)
    ensures
        v3_dot_wide(v3_reflect_exact(d, n), v3_reflect_exact(d, n)) == (v3_dot_wide(n, n)
            * v3_dot_wide(n, n)) * v3_dot_wide(d, d),
{
    let q = v3_dot_wide(n, n);
    let t = v3_dot_wide(d, n);
    let r = v3_reflect_exact(d, n);
    lemma_reflect_component_sq(q, t, d.x, n.x);
    lemma_reflect_component_sq(q, t, d.y, n.y);
    lemma_reflect_component_sq(q, t, d.z, n.z);
    lemma_mul_distrib3(q * q, d.x * d.x, d.y * d.y, d.z * d.z);
    lemma_mul_distrib3(4 * (q * t), d.x * n.x, d.y * n.y, d.z * n.z);
    lemma_mul_distrib3(4 * (t * t), n.x * n.x, n.y * n.y, n.z * n.z);
    assert((4 * (q * t)) * t == (4 * (t * t)) * q) by (nonlinear_arith);
}

/// Cap on rejection-sampling draws, so that termination is provable; the
/// chance of exhausting it is about 2 to the minus 64.
pub const SAMPLE_ATTEMPTS: u32 = 64;

/// Rejection-samples a point strictly inside the unit ball and usably far
/// from the origin. After the draw cap a fixed interior point is returned.
pub fn random_in_unit_sphere(rng: &mut RandomSource) -> (p: Vec3)
    ensures
        v3_bounded(p@, SCALE as int),
        v3_len2_s(p@) < SCALE as int,
        !v3_near_zero_s(p@),
{
    let mut i: u32 = 0;
    while i < SAMPLE_ATTEMPTS
        invariant
            true,
        decreases SAMPLE_ATTEMPTS - i,
    {
        let p = Vec3::random_range(rng, -SCALE, SCALE);
        let ls = p.length_squared();
        if ls < SCALE && !p.near_zero() {
            return p;
        }
        i = i + 1;
    }
    let q = Vec3::new(HALF_SCALE, 0, 0);
    proof {
        assert(v3_len2_wide(q@) == 250_000 * (SCALE as int)) by (nonlinear_arith)
            requires
                q@.x == HALF_SCALE as int,
                q@.y == 0,
                q@.z == 0,
        ;
        lemma_tdiv_mul_exact(250_000, SCALE as int);
    }
    q
}

/// A random direction of (approximately) unit length, uniform over the
/// sphere by normalizing a ball sample.
pub fn random_unit_vector(rng: &mut RandomSource) -> (r: Vec3)
    ensures
        v3_bounded(r@, SCALE as int),
        exists|p: V3|
            {
                &&& v3_bounded(p, SCALE as int)
                &&& v3_len2_s(p) < SCALE as int
                &&& !v3_near_zero_s(p)
                &&& r@ == v3_unit_s(p)
            },
{
    let p = random_in_unit_sphere(rng);
    proof {
        assert(v3_len2_wide(p@) >= 1) by (nonlinear_arith)
            requires
                abs_s(p@.x) >= NEAR_ZERO_EPS as int || abs_s(p@.y) >= NEAR_ZERO_EPS as int
                    || abs_s(p@.z) >= NEAR_ZERO_EPS as int,
        ;
    }
    let r = unit_vector(p);
    proof {
        assert(v3_bounded(p@, SCALE as int) && v3_len2_s(p@) < SCALE as int && !v3_near_zero_s(
            p@,
        ) && r@ == v3_unit_s(p@));
    }
    r
}

/// A random ball sample, flipped if needed so that it points into the
/// hemisphere of the given normal.
pub fn random_in_hemisphere(rng: &mut RandomSource, normal: Vec3) -> (r: Vec3)
    requires
        v3_bounded(normal@, DOT_MAX as int),
    ensures
        v3_bounded(r@, SCALE as int),
        v3_dot_s(r@, normal@) >= 0,
        v3_len2_s(r@) < SCALE as int,
        !v3_near_zero_s(r@),
        exists|p: V3|
            {
                &&& v3_bounded(p, SCALE as int)
                &&& v3_len2_s(p) < SCALE as int
                &&& !v3_near_zero_s(p)
                &&& (r@ == p || r@ == v3_neg_s(p))
            },
{
    let in_unit_sphere = random_in_unit_sphere(rng);
    let d = dot(in_unit_sphere, normal);
    proof {
        assert(v3_bounded(in_unit_sphere@, SCALE as int) && v3_len2_s(in_unit_sphere@)
            < SCALE as int && !v3_near_zero_s(in_unit_sphere@));
    }
    if d > 0 {
        in_unit_sphere
    } else {
        proof {
            lemma_v3_dot_neg(in_unit_sphere@, normal@);
            // negation keeps the squared length and the near-zero test
            lemma_v3_dot_neg(in_unit_sphere@, v3_neg_s(in_unit_sphere@));
            lemma_v3_dot_sym(in_unit_sphere@, v3_neg_s(in_unit_sphere@));
            lemma_v3_dot_neg(in_unit_sphere@, in_unit_sphere@);
        }
        in_unit_sphere.neg()
    }
}

/// Rejection-samples a point strictly inside the unit disk of the x-y
/// plane (for lens sampling). After the draw cap a fixed interior point is
/// returned.
pub fn random_in_unit_disk(rng: &mut RandomSource) -> (p: Vec3)
    ensures
        v3_bounded(p@, SCALE as int),
        v3_len2_s(p@) < SCALE as int,
        p@.z == 0,
{
    let mut i: u32 = 0;
    while i < SAMPLE_ATTEMPTS
        invariant
            true,
        decreases SAMPLE_ATTEMPTS - i,
    {
        let x = rng.next_in_range(-SCALE, SCALE);
        let y = rng.next_in_range(-SCALE, SCALE);
        let p = Vec3::new(x, y, 0);
        let ls = p.length_squared();
        if ls < SCALE {
            return p;
        }
        i = i + 1;
    }
    let q = Vec3::new(HALF_SCALE, 0, 0);
    proof {
        assert(v3_len2_wide(q@) == 250_000 * (SCALE as int)) by (nonlinear_arith)
            requires
                q@.x == HALF_SCALE as int,
                q@.y == 0,
                q@.z == 0,
        ;
        lemma_tdiv_mul_exact(250_000, SCALE as int);
    }
    q
}

/// Rescaling a scalar by a dominating positive length keeps it within one
/// unit of value.
proof fn lemma_unit_component_one(c: int, l: int)
    requires
        l >= 1,
        abs_s(c) <= l,
    ensures
        abs_s(fx_div_s(c, l)) <= SCALE as int,
{
    assert(abs_s(c * (SCALE as int)) <= l * (SCALE as int)) by (nonlinear_arith)
        requires
            abs_s(c) <= l,
    ;
    lemma_tdiv_abs(c * (SCALE as int), l);
    if c >= 0 {
        lemma_tdiv_ordered(c * (SCALE as int), l * (SCALE as int), l);
    } else {
        lemma_tdiv_ordered(-(c * (SCALE as int)), l * (SCALE as int), l);
    }
    assert(tdiv(l * (SCALE as int), l) == SCALE as int) by (nonlinear_arith)
        requires
            l >= 1,
    ;
}

} // verus!
