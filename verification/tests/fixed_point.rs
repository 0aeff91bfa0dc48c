use raytracer::fixed::{fx_mul, fx_div, fx_raw_div, fx_sqrt, isqrt, SCALE, HALF_SCALE};

#[test]
fn scale_constants() {
    assert_eq!(SCALE, 1_000_000);
    assert_eq!(HALF_SCALE, 500_000);
}

#[test]
fn multiplication_is_exact_on_whole_values() {
    // 3.5 * 2.0 == 7.0
    assert_eq!(fx_mul(3_500_000, 2_000_000), 7_000_000);
    // 0.5 * 0.5 == 0.25
    assert_eq!(fx_mul(500_000, 500_000), 250_000);
}

#[test]
fn multiplication_truncates_toward_zero() {
    // (-3.5) * 2.0 == -7.0 exactly
    assert_eq!(fx_mul(-3_500_000, 2_000_000), -7_000_000);
    // a product just below the resolution truncates to zero from both sides
    assert_eq!(fx_mul(999, 999), 0);
    assert_eq!(fx_mul(-999, 999), 0);
}

#[test]
fn division_truncates_toward_zero() {
    // 1 / 3 == 0.333333
    assert_eq!(fx_div(1_000_000, 3_000_000), 333_333);
    // -1 / 3 == -0.333333 (not -0.333334)
    assert_eq!(fx_div(-1_000_000, 3_000_000), -333_333);
    assert_eq!(fx_raw_div(7, 2), 3);
    assert_eq!(fx_raw_div(-7, 2), -3);
}

#[test]
fn square_roots() {
    assert_eq!(isqrt(0), 0);
    assert_eq!(isqrt(17), 4);
    assert_eq!(isqrt(25), 5);
    assert_eq!(isqrt(u64::MAX as u128 * u64::MAX as u128), u64::MAX);
    assert_eq!(isqrt(u128::MAX), u64::MAX);
    // sqrt(4.0) == 2.0 exactly
    assert_eq!(fx_sqrt(4_000_000), 2_000_000);
    // sqrt(2.0) == 1.414213...
    assert_eq!(fx_sqrt(2_000_000), 1_414_213);
    assert_eq!(fx_sqrt(0), 0);
}
