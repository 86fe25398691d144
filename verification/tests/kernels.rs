//! Spot checks of the fixed-point kernels at exactly known points.

use natura::series::{cos_fix, exp_neg, sin_fix, sqrt_fix, LN2_FIX, TWO_PI_FIX};
use natura::SCALE;

#[test]
fn test_exp_known_points() {
    // exp(0) is exactly one; exp(-ln 2) is exactly one half at this
    // scale; far arguments decay to exactly zero.
    assert_eq!(exp_neg(0), SCALE);
    assert_eq!(exp_neg(LN2_FIX), SCALE / 2);
    assert_eq!(exp_neg(i64::MAX), 0);
    // exp(-1) to within one unit of 0.367879441171.
    assert!((exp_neg(SCALE) - 367_879_441_171).abs() <= 1);
    // exp(-10) to within one unit of 0.000045399929.
    assert!((exp_neg(10 * SCALE) - 45_399_929).abs() <= 1);
}

#[test]
fn test_trig_known_points() {
    let half_pi: i64 = TWO_PI_FIX / 4;
    let pi: i64 = TWO_PI_FIX / 2;
    assert_eq!(sin_fix(0), 0);
    assert_eq!(cos_fix(0), SCALE);
    assert_eq!(sin_fix(TWO_PI_FIX), 0);
    assert!((sin_fix(half_pi) - SCALE).abs() <= 2);
    assert!(cos_fix(half_pi).abs() <= 2);
    assert!(sin_fix(pi).abs() <= 2);
    assert!((cos_fix(pi) + SCALE).abs() <= 2);
}

#[test]
fn test_sqrt_known_points() {
    assert_eq!(sqrt_fix(0), 0);
    assert_eq!(sqrt_fix(SCALE), SCALE);
    assert_eq!(sqrt_fix(4 * SCALE), 2 * SCALE);
    assert_eq!(sqrt_fix(2 * SCALE), 1_414_213_562_373);
    // The defining property at an arbitrary point.
    let x: i64 = 123 * SCALE + 456;
    let r = sqrt_fix(x);
    let n = x as i128 * SCALE as i128;
    assert!((r as i128) * (r as i128) <= n);
    assert!(((r + 1) as i128) * ((r + 1) as i128) > n);
}
