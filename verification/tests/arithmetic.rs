//! Exercises the saturating fixed-point arithmetic on exact values.

use ferngen::fixed::{fadd, fdiv_n, fmul, fpow, frac_of, fsqrt, fsub, FX_MAX, FX_ONE};

#[test]
fn mul_exact_products() {
    assert_eq!(fmul(2_000_000, 3_000_000), 6_000_000);
    assert_eq!(fmul(500_000, 500_000), 250_000);
    assert_eq!(fmul(FX_ONE, 123_456), 123_456);
    assert_eq!(fmul(0, FX_MAX), 0);
}

#[test]
fn mul_truncates_toward_zero() {
    assert_eq!(fmul(1, 1), 0);
    assert_eq!(fmul(-1, 1), 0);
    assert_eq!(fmul(999_999, 1), 0);
    assert_eq!(fmul(-999_999, 1), 0);
    assert_eq!(fmul(1_999_999, 1), 1);
    assert_eq!(fmul(-1_999_999, 1), -1);
}

#[test]
fn mul_sign_symmetry() {
    assert_eq!(fmul(-2_000_000, 3_000_000), -6_000_000);
    assert_eq!(fmul(2_000_000, -3_000_000), -6_000_000);
    assert_eq!(fmul(-2_000_000, -3_000_000), 6_000_000);
    assert_eq!(fmul(-1_234_567, 765_432), -fmul(1_234_567, 765_432));
}

#[test]
fn add_saturates() {
    assert_eq!(fadd(FX_MAX, FX_MAX), FX_MAX);
    assert_eq!(fadd(FX_MAX, 1), FX_MAX);
    assert_eq!(fadd(-FX_MAX, -1), -FX_MAX);
    assert_eq!(fsub(-FX_MAX, 1), -FX_MAX);
    assert_eq!(fadd(1_000, 2_000), 3_000);
}

#[test]
fn mul_saturates() {
    assert_eq!(fmul(FX_MAX, FX_MAX), FX_MAX);
    assert_eq!(fmul(-FX_MAX, FX_MAX), -FX_MAX);
}

#[test]
fn sqrt_exact_values() {
    assert_eq!(fsqrt(0), 0);
    assert_eq!(fsqrt(FX_ONE), FX_ONE);
    assert_eq!(fsqrt(250_000), 500_000);
    assert_eq!(fsqrt(640_000), 800_000);
    // sqrt(0.000002) = 0.001414..., floor in fixed-point units
    assert_eq!(fsqrt(2), 1_414);
}

#[test]
fn pow_integer_exponents() {
    assert_eq!(fpow(0, 0), FX_ONE);
    assert_eq!(fpow(700_000, 0), FX_ONE);
    assert_eq!(fpow(0, FX_ONE), 0);
    assert_eq!(fpow(700_000, FX_ONE), 700_000);
    assert_eq!(fpow(500_000, 2_000_000), 250_000);
    assert_eq!(fpow(FX_ONE, 7_000_000), FX_ONE);
}

#[test]
fn pow_fractional_exponents() {
    // 0.25 ^ 0.5 == 0.5, exact in this representation
    assert_eq!(fpow(250_000, 500_000), 500_000);
    // 0.0625 ^ 0.25 == 0.5
    assert_eq!(fpow(62_500, 250_000), 500_000);
}

#[test]
fn division_helpers() {
    assert_eq!(frac_of(1, 4), 250_000);
    assert_eq!(frac_of(0, 10), 0);
    assert_eq!(frac_of(9, 10), 900_000);
    assert_eq!(frac_of(1, 3), 333_333);
    assert_eq!(fdiv_n(2_000_000, 4), 500_000);
    assert_eq!(fdiv_n(7, 2), 3);
}
