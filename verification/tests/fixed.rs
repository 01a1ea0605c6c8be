//! The fixed-point base: exact division helpers, integer square roots
//! and the smoothstep easing.

use imp_graph::fixed::{clamp, clamp_i, isqrt, mul_div, mul_div_signed, smooth_step};

#[test]
fn mul_div_is_exact_in_the_intermediate_product() {
    // the product overflows sixty-four bits, the quotient does not
    assert_eq!(mul_div(10_000_000_000_000, 5_000_000_000, 10_000_000_000_000), 5_000_000_000);
    assert_eq!(mul_div(3, 7, 2), 10);
}

#[test]
fn signed_division_truncates_toward_zero() {
    assert_eq!(mul_div_signed(-7, 1, 2), -3);
    assert_eq!(mul_div_signed(7, 1, 2), 3);
    assert_eq!(mul_div_signed(-3, 5, 4), -3);
}

#[test]
fn integer_square_roots() {
    assert_eq!(isqrt(0), 0);
    assert_eq!(isqrt(1), 1);
    assert_eq!(isqrt(2), 1);
    assert_eq!(isqrt(999_999), 999);
    assert_eq!(isqrt(1_000_000_000_000), 1_000_000);
    assert_eq!(isqrt(u64::MAX), 4_294_967_295);
}

#[test]
fn smoothstep_eases_within_the_unit_interval() {
    assert_eq!(smooth_step(0), 0);
    assert_eq!(smooth_step(1_000_000), 1_000_000);
    assert_eq!(smooth_step(500_000), 500_000);
    // t = 1/4 gives t^2 (3 - 2 t) = 5/32
    assert_eq!(smooth_step(250_000), 156_250);
}

#[test]
fn clamps() {
    assert_eq!(clamp(5, 10, 20), 10);
    assert_eq!(clamp(25, 10, 20), 20);
    assert_eq!(clamp(15, 10, 20), 15);
    assert_eq!(clamp_i(-5, -3, 3), -3);
    assert_eq!(clamp_i(0, -3, 3), 0);
}
