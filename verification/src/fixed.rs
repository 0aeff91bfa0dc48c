//! Signed fixed-point scalars with six decimal places.
//!
//! A scalar value `v` is stored as the raw integer `v * SCALE`, truncated
//! toward zero. All operations state their exact integer result, so every
//! geometric computation built on top of them has an exact contract.

use vstd::prelude::*;
use vstd::arithmetic::div_mod::{lemma_div_is_ordered, lemma_div_pos_is_pos, lemma_div_nonincreasing};
use vstd::arithmetic::mul::lemma_mul_upper_bound;

verus! {

/// Number of raw units per unit of value: fixed-point scalars carry six
/// decimal places.
pub const SCALE: i64 = 1_000_000;

/// Raw representation of one half.
pub const HALF_SCALE: i64 = 500_000;

/// Absolute value of a mathematical integer.
pub open spec fn abs_s(a: int) -> int {
    if a >= 0 {
        a
    } else {
        -a
    }
}

/// Division truncated toward zero (the rounding used by every fixed-point
/// operation here); meaningful for positive divisors.
pub open spec fn tdiv(a: int, b: int) -> int {
    if a >= 0 {
        a / b
    } else {
        -((-a) / b)
    }
}

/// Fixed-point product: exact integer product, rescaled with truncation.
pub open spec fn fx_mul_s(a: int, b: int) -> int {
    tdiv(a * b, SCALE as int)
}

/// Fixed-point quotient: numerator prescaled, then truncated division.
pub open spec fn fx_div_s(a: int, b: int) -> int {
    tdiv(a * (SCALE as int), b)
}

/// Integer square root: the greatest `r` with `r * r <= n`.
pub open spec fn isqrt_s(n: nat) -> nat
    decreases n,
{
    if n == 0 {
        0
    } else {
        let r = isqrt_s((n - 1) as nat);
        if (r + 1) * (r + 1) <= n {
            r + 1
        } else {
            r
        }
    }
}

/// Fixed-point square root of a nonnegative scalar: because the value is
/// `a / SCALE`, the raw result is the integer square root of `a * SCALE`.
pub open spec fn fx_sqrt_s(a: int) -> int {
    isqrt_s((a * (SCALE as int)) as nat) as int
}

/// `isqrt_s(n)` is the integer square root: its square is at most `n` and
/// the next square is beyond `n`.
pub proof fn lemma_isqrt_s_bounds(n: nat)
    ensures
        isqrt_s(n) * isqrt_s(n) <= n,
        n < (isqrt_s(n) + 1) * (isqrt_s(n) + 1),
    decreases n,
{
    if n == 0 {
        assert(isqrt_s(0) == 0);
        assert(n < (isqrt_s(n) + 1) * (isqrt_s(n) + 1)) by (nonlinear_arith)
            requires
                n == 0,
                isqrt_s(n) == 0,
        ;
    } else {
        let p = (n - 1) as nat;
        lemma_isqrt_s_bounds(p);
        let r = isqrt_s(p);
        if (r + 1) * (r + 1) <= n {
            assert(isqrt_s(n) == r + 1);
            assert(n < (r + 1 + 1) * (r + 1 + 1)) by (nonlinear_arith)
                requires
                    p < (r + 1) * (r + 1),
                    n == p + 1,
            ;
        } else {
            assert(isqrt_s(n) == r);
            assert(r * r <= p);
        }
    }
}

/// Any `r` squeezed between the same pair of squares as `isqrt_s(n)` is
/// the integer square root.
pub proof fn lemma_isqrt_s_unique(n: nat, r: nat)
    requires
        r * r <= n,
        n < (r + 1) * (r + 1),
    ensures
        r == isqrt_s(n),
{
    let q = isqrt_s(n);
    lemma_isqrt_s_bounds(n);
    assert(r == q) by (nonlinear_arith)
        requires
            r * r <= n,
            n < (r + 1) * (r + 1),
            q * q <= n,
            n < (q + 1) * (q + 1),
    ;
}

/// The integer square root is monotone.
pub proof fn lemma_isqrt_s_ordered(m: nat, n: nat)
    requires
        m <= n,
    ensures
        isqrt_s(m) <= isqrt_s(n),
{
    lemma_isqrt_s_bounds(m);
    lemma_isqrt_s_bounds(n);
    let a = isqrt_s(m);
    let b = isqrt_s(n);
    assert(a <= b) by (nonlinear_arith)
        requires
            a * a <= m,
            m < (a + 1) * (a + 1),
            b * b <= n,
            n < (b + 1) * (b + 1),
            m <= n,
    ;
}

/// A quotient that divides exactly: `tdiv(q * b, b) == q`.
pub proof fn lemma_tdiv_mul_exact(q: int, b: int)
    requires
        b >= 1,
    ensures
        tdiv(q * b, b) == q,
{
    if q >= 0 {
        vstd::arithmetic::div_mod::lemma_div_multiples_vanish(q, b);
        assert(q * b == b * q) by (nonlinear_arith);
        assert(q * b >= 0) by (nonlinear_arith)
            requires
                q >= 0,
                b >= 1,
        ;
    } else {
        vstd::arithmetic::div_mod::lemma_div_multiples_vanish(-q, b);
        assert(-(q * b) == b * (-q)) by (nonlinear_arith);
        assert(q * b <= 0) by (nonlinear_arith)
            requires
                q <= 0,
                b >= 1,
        ;
    }
}

/// A nonnegative numerator dominates its truncated quotient times the
/// divisor.
pub proof fn lemma_tdiv_lower(a: int, b: int)
    requires
        a >= 0,
        b >= 1,
    ensures
        tdiv(a, b) * b <= a,
{
    vstd::arithmetic::div_mod::lemma_fundamental_div_mod(a, b);
    vstd::arithmetic::div_mod::lemma_mod_division_less_than_divisor(a, b);
    assert(b * (a / b) == (a / b) * b) by (nonlinear_arith);
}

/// A truncated quotient whose numerator is bounded by `q * b` is bounded
/// by `q`.
pub proof fn lemma_tdiv_bound_by(a: int, b: int, q: int)
    requires
        b >= 1,
        q >= 0,
        abs_s(a) <= q * b,
    ensures
        abs_s(tdiv(a, b)) <= q,
{
    lemma_tdiv_mul_exact(q, b);
    if a >= 0 {
        lemma_div_pos_is_pos(a, b);
        lemma_div_is_ordered(a, q * b, b);
    } else {
        lemma_div_pos_is_pos(-a, b);
        lemma_div_is_ordered(-a, q * b, b);
    }
}

/// A numerator strictly below `(q + 1) * b` has truncated quotient at
/// most `q`.
pub proof fn lemma_tdiv_upper(a: int, b: int, q: int)
    requires
        a >= 0,
        b >= 1,
        q >= 0,
        a < (q + 1) * b,
    ensures
        0 <= tdiv(a, b) <= q,
{
    lemma_div_pos_is_pos(a, b);
    if a / b > q {
        lemma_tdiv_lower(a, b);
        assert((q + 1) * b <= (a / b) * b) by (nonlinear_arith)
            requires
                b >= 1,
                a / b >= q + 1,
        ;
    }
}

/// Truncation commutes with the absolute value, and the quotient scaled
/// back by the divisor never exceeds the numerator in magnitude.
pub proof fn lemma_tdiv_abs_times(a: int, b: int)
    requires
        b >= 1,
    ensures
        abs_s(tdiv(a, b)) == tdiv(abs_s(a), b),
        abs_s(tdiv(a, b)) * b <= abs_s(a),
{
    if a >= 0 {
        lemma_div_pos_is_pos(a, b);
    } else {
        lemma_div_pos_is_pos(-a, b);
    }
    lemma_tdiv_lower(abs_s(a), b);
}

/// Truncating division never increases magnitude (positive divisor).
pub proof fn lemma_tdiv_abs(a: int, b: int)
    requires
        b >= 1,
    ensures
        abs_s(tdiv(a, b)) <= abs_s(a),
        a >= 0 ==> 0 <= tdiv(a, b) <= a,
        a <= 0 ==> a <= tdiv(a, b) <= 0,
{
    if a >= 0 {
        lemma_div_pos_is_pos(a, b);
        lemma_div_nonincreasing(a, b);
    } else {
        lemma_div_pos_is_pos(-a, b);
        lemma_div_nonincreasing(-a, b);
    }
}

/// Truncating division is monotone in the numerator (positive divisor).
pub proof fn lemma_tdiv_ordered(a1: int, a2: int, b: int)
    requires
        b >= 1,
        a1 <= a2,
    ensures
        tdiv(a1, b) <= tdiv(a2, b),
{
    if a1 >= 0 {
        lemma_div_is_ordered(a1, a2, b);
    } else if a2 <= 0 {
        lemma_div_is_ordered(-a2, -a1, b);
    } else {
        lemma_div_pos_is_pos(-a1, b);
        lemma_div_pos_is_pos(a2, b);
    }
}

/// Negating the numerator negates a truncated quotient (positive divisor).
pub proof fn lemma_tdiv_neg(a: int, b: int)
    requires
        b >= 1,
    ensures
        tdiv(-a, b) == -tdiv(a, b),
{
}

/// Magnitude bound for a fixed-point product from bounds on the factors.
pub proof fn lemma_fx_mul_bound(a: int, b: int, m1: int, m2: int)
    requires
        abs_s(a) <= m1,
        abs_s(b) <= m2,
    ensures
        abs_s(fx_mul_s(a, b)) <= tdiv(m1 * m2, SCALE as int),
        abs_s(a * b) <= m1 * m2,
{
    assert(abs_s(a * b) <= m1 * m2) by (nonlinear_arith)
        requires
            abs_s(a) <= m1,
            abs_s(b) <= m2,
    ;
    lemma_tdiv_abs(a * b, SCALE as int);
    if a * b >= 0 {
        lemma_tdiv_ordered(a * b, m1 * m2, SCALE as int);
    } else {
        lemma_tdiv_ordered(-(a * b), m1 * m2, SCALE as int);
    }
}

/// A fixed-point product of factors lying in the unit interval stays in
/// the unit interval.
pub proof fn lemma_fx_mul_unit_interval(a: int, b: int)
    requires
        0 <= a <= SCALE as int,
        0 <= b <= SCALE as int,
    ensures
        0 <= fx_mul_s(a, b) <= SCALE as int,
        fx_mul_s(a, SCALE as int) == a,
{
    assert(0 <= a * b <= (SCALE as int) * (SCALE as int)) by (nonlinear_arith)
        requires
            0 <= a <= SCALE as int,
            0 <= b <= SCALE as int,
    ;
    lemma_tdiv_abs(a * b, SCALE as int);
    lemma_tdiv_ordered(a * b, (SCALE as int) * (SCALE as int), SCALE as int);
    assert(((SCALE as int) * (SCALE as int)) / (SCALE as int) == SCALE as int) by (nonlinear_arith);
    assert((a * (SCALE as int)) / (SCALE as int) == a) by (nonlinear_arith);
}

/// Truncating division of an `i128` by a positive divisor, computed on
/// unsigned magnitudes so that the rounding is toward zero by construction.
pub fn tdiv_i128(a: i128, b: i128) -> (q: i128)
    requires
        b > 0,
        a > i128::MIN,
    ensures
        q as int == tdiv(a as int, b as int),
{
    if a >= 0 {
        let m: u128 = a as u128;
        let q0: u128 = m / (b as u128);
        proof {
            lemma_div_nonincreasing(a as int, b as int);
            lemma_div_pos_is_pos(a as int, b as int);
        }
        q0 as i128
    } else {
        let m: u128 = (-a) as u128;
        let q0: u128 = m / (b as u128);
        proof {
            lemma_div_nonincreasing(m as int, b as int);
            lemma_div_pos_is_pos(m as int, b as int);
        }
        -(q0 as i128)
    }
}

/// Fixed-point multiplication; the caller guarantees the rescaled product
/// fits the machine word.
pub fn fx_mul(a: i64, b: i64) -> (r: i64)
    requires
        i64::MIN <= fx_mul_s(a as int, b as int) <= i64::MAX,
    ensures
        r as int == fx_mul_s(a as int, b as int),
{
    proof {
        assert((a as int) * (b as int) < i128::MAX && (a as int) * (b as int) > i128::MIN)
            by (nonlinear_arith)
            requires
                i64::MIN <= a as int <= i64::MAX,
                i64::MIN <= b as int <= i64::MAX,
        ;
    }
    let p: i128 = (a as i128) * (b as i128);
    let q = tdiv_i128(p, SCALE as i128);
    q as i64
}

/// Fixed-point division by a positive divisor; the caller guarantees the
/// quotient fits the machine word.
pub fn fx_div(a: i64, b: i64) -> (r: i64)
    requires
        b > 0,
        i64::MIN <= fx_div_s(a as int, b as int) <= i64::MAX,
    ensures
        r as int == fx_div_s(a as int, b as int),
{
    proof {
        assert((a as int) * (SCALE as int) < i128::MAX && (a as int) * (SCALE as int) > i128::MIN)
            by (nonlinear_arith)
            requires
                i64::MIN <= a as int <= i64::MAX,
        ;
    }
    let p: i128 = (a as i128) * (SCALE as i128);
    let q = tdiv_i128(p, b as i128);
    q as i64
}

/// Plain truncating division of raw integers (used where the divisor is a
/// pure number rather than a scalar, e.g. averaging over a sample count).
pub fn fx_raw_div(a: i64, b: i64) -> (r: i64)
    requires
        b > 0,
    ensures
        r as int == tdiv(a as int, b as int),
{
    proof {
        lemma_tdiv_abs(a as int, b as int);
    }
    let q = tdiv_i128(a as i128, b as i128);
    q as i64
}

/// Integer square root of a 128-bit integer by binary search.
pub fn isqrt(n: u128) -> (r: u64)
    ensures
        r as nat == isqrt_s(n as nat),
        (r as nat) * (r as nat) <= n as nat,
        (n as nat) < (r as nat + 1) * (r as nat + 1),
{
    let mut lo: u64 = 0;
    let mut hi: u64 = u64::MAX;
    proof {
        assert((hi as nat + 1) * (hi as nat + 1) > u128::MAX as nat) by (nonlinear_arith)
            requires
                hi == u64::MAX,
        ;
    }
    while lo < hi
        invariant
            lo <= hi,
            (lo as nat) * (lo as nat) <= n as nat,
            (n as nat) < (hi as nat + 1) * (hi as nat + 1),
        decreases hi - lo,
    {
        let mid: u64 = lo + (hi - lo) / 2 + 1;
        proof {
            assert((mid as u128) * (mid as u128) <= u128::MAX) by (nonlinear_arith)
                requires
                    mid as u128 <= u64::MAX as u128,
            ;
        }
        let m2: u128 = (mid as u128) * (mid as u128);
        if m2 <= n {
            lo = mid;
        } else {
            hi = mid - 1;
        }
    }
    proof {
        lemma_isqrt_s_unique(n as nat, lo as nat);
    }
    lo
}

/// Fixed-point square root of a nonnegative scalar.
pub fn fx_sqrt(a: i64) -> (r: i64)
    requires
        0 <= a,
    ensures
        r as int == fx_sqrt_s(a as int),
        0 <= r,
{
    proof {
        lemma_mul_upper_bound(a as int, i64::MAX as int, SCALE as int, SCALE as int);
    }
    let n: u128 = (a as u128) * (SCALE as u128);
    let s = isqrt(n);
    proof {
        assert((s as nat) < 4_000_000_000_000) by (nonlinear_arith)
            requires
                (s as nat) * (s as nat) <= n as nat,
                n as nat <= (i64::MAX as nat) * (SCALE as nat),
        ;
    }
    s as i64
}

} // verus!
