use arena_sim::fixed::{clamp_i64, div_fp, mul_fp, sqrt_ceil, Vec2};

#[test]
fn sqrt_ceil_exact_squares() {
    assert_eq!(sqrt_ceil(0), 0);
    assert_eq!(sqrt_ceil(1), 1);
    assert_eq!(sqrt_ceil(25_000_000), 5_000);
    assert_eq!(sqrt_ceil(1_000_000), 1_000);
}

#[test]
fn sqrt_ceil_rounds_up() {
    assert_eq!(sqrt_ceil(2), 2);
    assert_eq!(sqrt_ceil(24_999_999), 5_000);
    assert_eq!(sqrt_ceil(25_000_001), 5_001);
}

#[test]
fn mul_fp_scales_and_truncates_toward_zero() {
    assert_eq!(mul_fp(2_000, 3_000), 6_000);
    assert_eq!(mul_fp(-1_500, 333), -499);
    assert_eq!(mul_fp(1_500, 333), 499);
    assert_eq!(mul_fp(0, 123_456), 0);
}

#[test]
fn div_fp_truncates_toward_zero() {
    assert_eq!(div_fp(7, 2), 3);
    assert_eq!(div_fp(-7, 2), -3);
}

#[test]
fn clamp_scalar() {
    assert_eq!(clamp_i64(5, -3, 3), 3);
    assert_eq!(clamp_i64(-5, -3, 3), -3);
    assert_eq!(clamp_i64(2, -3, 3), 2);
}

#[test]
fn normalize_three_four_five() {
    let v = Vec2 { x: 3_000, y: 4_000 };
    let u = v.normalize_or_zero();
    assert_eq!(u, Vec2 { x: 600, y: 800 });
}

#[test]
fn normalize_zero_is_zero() {
    let v = Vec2 { x: 0, y: 0 };
    assert_eq!(v.normalize_or_zero(), Vec2 { x: 0, y: 0 });
}

#[test]
fn normalize_axis() {
    let v = Vec2 { x: 0, y: -250 };
    assert_eq!(v.normalize_or_zero(), Vec2 { x: 0, y: -1_000 });
}

#[test]
fn normalize_short_diagonal_is_near_unit() {
    // A tiny sample is scaled up before dividing, so even (1, 1) comes
    // out within half a percent of unit length: (1000, 1000) over the
    // rounded-up length 1415.
    let v = Vec2 { x: 1, y: 1 };
    let u = v.normalize_or_zero();
    assert_eq!(u, Vec2 { x: 706, y: 706 });
    let n = u.x * u.x + u.y * u.y;
    assert!(990_000 <= n && n <= 1_000_000);
}

#[test]
fn clamp_length_shortens_long_vector() {
    let v = Vec2 { x: 500_000, y: 0 };
    let c = v.clamp_length_max(400_000);
    assert_eq!(c, Vec2 { x: 400_000, y: 0 });
}

#[test]
fn clamp_length_keeps_short_vector() {
    let v = Vec2 { x: 100_000, y: -200_000 };
    assert_eq!(v.clamp_length_max(400_000), v);
}

#[test]
fn lerp_halfway() {
    let v = Vec2 { x: 0, y: 0 };
    let t = Vec2 { x: 1_000, y: -2_000 };
    assert_eq!(v.lerp(t, 500), Vec2 { x: 500, y: -1_000 });
}

#[test]
fn lerp_full_step_reaches_target() {
    let v = Vec2 { x: 123, y: 456 };
    let t = Vec2 { x: -789, y: 10 };
    assert_eq!(v.lerp(t, 1_000), t);
}
