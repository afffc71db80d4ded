use pong::fixed::ONE;
use pong::random::random_fraction;
use pong::utils::{
    approx_eq, avg, clamp_01, inverse_lerp, lerp, rand_sign, random_horizontal, rotate_vec2,
    sign_from_fraction,
};
use pong::vector::Vec2;

#[test]
fn clamp_01_limits_to_the_unit_interval() {
    assert_eq!(clamp_01(-5), 0);
    assert_eq!(clamp_01(0), 0);
    assert_eq!(clamp_01(ONE + 1), ONE);
    assert_eq!(clamp_01(ONE), ONE);
    assert_eq!(clamp_01(250_000), 250_000);
    assert_eq!(clamp_01(i64::MIN), 0);
    assert_eq!(clamp_01(i64::MAX), ONE);
}

#[test]
fn lerp_exact_values() {
    assert_eq!(lerp(45 * ONE, -45 * ONE, ONE / 2), 0);
    assert_eq!(lerp(45 * ONE, -45 * ONE, 250_000), 22_500_000);
    assert_eq!(lerp(45 * ONE, -45 * ONE, 0), 45 * ONE);
    assert_eq!(lerp(45 * ONE, -45 * ONE, ONE), -45 * ONE);
    assert_eq!(lerp(0, 10, 333_333), 3);
    assert_eq!(lerp(10, 0, 333_333), 7);
    assert_eq!(lerp(-10, 10, 750_000), 5);
}

#[test]
fn lerp_limits_the_ratio() {
    assert_eq!(lerp(10, 20, -ONE), 10);
    assert_eq!(lerp(10, 20, 5 * ONE), 20);
    assert_eq!(lerp(i64::MIN, i64::MAX, ONE), i64::MAX);
    assert_eq!(lerp(i64::MAX, i64::MIN, ONE), i64::MIN);
    assert_eq!(lerp(i64::MIN, i64::MAX, 0), i64::MIN);
}

#[test]
fn inverse_lerp_exact_values() {
    assert_eq!(inverse_lerp(-125 * ONE, 125 * ONE, 0), 500_000);
    assert_eq!(inverse_lerp(-125 * ONE, 125 * ONE, 62_500_000), 750_000);
    assert_eq!(inverse_lerp(-125 * ONE, 125 * ONE, -125 * ONE), 0);
    assert_eq!(inverse_lerp(-125 * ONE, 125 * ONE, 125 * ONE), ONE);
    assert_eq!(inverse_lerp(0, 3, 1), 333_333);
    assert_eq!(inverse_lerp(3, 0, 1), 666_666);
}

#[test]
fn inverse_lerp_limits_its_result() {
    assert_eq!(inverse_lerp(10, 20, 25), ONE);
    assert_eq!(inverse_lerp(10, 20, 5), 0);
    assert_eq!(inverse_lerp(i64::MIN, i64::MAX, i64::MAX), ONE);
    assert_eq!(inverse_lerp(i64::MAX, i64::MIN, i64::MAX), 0);
}

#[test]
fn inverse_lerp_of_coinciding_ends_is_zero() {
    assert_eq!(inverse_lerp(7, 7, 7), 0);
    assert_eq!(inverse_lerp(7, 7, 100), 0);
}

#[test]
fn approx_eq_includes_the_margin() {
    assert!(approx_eq(44 * ONE, 0, 45 * ONE));
    assert!(approx_eq(45 * ONE, 0, 45 * ONE));
    assert!(approx_eq(-45 * ONE, 0, 45 * ONE));
    assert!(!approx_eq(45 * ONE + 1, 0, 45 * ONE));
    assert!(!approx_eq(-46 * ONE, 0, 45 * ONE));
    assert!(!approx_eq(i64::MIN, i64::MAX, i64::MAX));
    assert!(!approx_eq(0, 0, -1));
}

#[test]
fn rotation_by_no_angle_is_exact() {
    let v = Vec2 { x: 123_456_789, y: -987_654_321 };
    assert_eq!(rotate_vec2(v, 0), v);
    assert_eq!(rotate_vec2(v, 360 * ONE), v);
}

#[test]
fn rotation_by_quarter_turns() {
    let v = Vec2 { x: 3 * ONE, y: 4 * ONE };
    assert_eq!(rotate_vec2(v, 90 * ONE), Vec2 { x: -4 * ONE, y: 3 * ONE });
    assert_eq!(rotate_vec2(v, 180 * ONE), Vec2 { x: -3 * ONE, y: -4 * ONE });
    assert_eq!(rotate_vec2(v, -90 * ONE), Vec2 { x: 4 * ONE, y: -3 * ONE });
}

#[test]
fn rotation_by_half_a_right_angle() {
    let v = Vec2 { x: 500 * ONE, y: 0 };
    assert_eq!(rotate_vec2(v, -45 * ONE), Vec2 { x: 353_553_500, y: -353_553_500 });
    assert_eq!(rotate_vec2(v, 45 * ONE), Vec2 { x: 353_553_500, y: 353_553_500 });
}

#[test]
fn rotation_saturates() {
    let v = Vec2 { x: i64::MAX, y: i64::MIN };
    // (x cos - y sin, x sin + y cos) at 45 degrees: both terms add up beyond the range
    let r = rotate_vec2(v, 45 * ONE);
    assert_eq!(r.x, i64::MAX);
}

#[test]
fn average_rounds_toward_zero() {
    assert_eq!(avg(&[]), None);
    assert_eq!(avg(&[5]), Some(5));
    assert_eq!(avg(&[1, 2]), Some(1));
    assert_eq!(avg(&[-1, -2]), Some(-1));
    assert_eq!(avg(&[ONE, 2 * ONE, 3 * ONE]), Some(2 * ONE));
    assert_eq!(avg(&[i64::MAX, i64::MAX, i64::MAX]), Some(i64::MAX));
    assert_eq!(avg(&[i64::MIN, i64::MIN]), Some(i64::MIN));
    assert_eq!(avg(&[i64::MIN, i64::MAX]), Some(0));
}

#[test]
fn sign_of_a_fraction() {
    assert_eq!(sign_from_fraction(0), -ONE);
    assert_eq!(sign_from_fraction(499_999), -ONE);
    assert_eq!(sign_from_fraction(500_000), ONE);
    assert_eq!(sign_from_fraction(999_999), ONE);
}

#[test]
fn random_fraction_stays_below_one() {
    let mut seen_low = false;
    let mut seen_high = false;
    for _ in 0..2000 {
        let r = random_fraction();
        assert!(0 <= r && r < ONE);
        if r < ONE / 2 {
            seen_low = true;
        } else {
            seen_high = true;
        }
    }
    assert!(seen_low && seen_high);
}

#[test]
fn random_sign_is_a_unit() {
    let mut plus = false;
    let mut minus = false;
    for _ in 0..2000 {
        let s = rand_sign();
        assert!(s == ONE || s == -ONE);
        if s == ONE {
            plus = true;
        } else {
            minus = true;
        }
    }
    assert!(plus && minus);
}

#[test]
fn random_horizontal_has_no_vertical_part() {
    for _ in 0..200 {
        let v = random_horizontal();
        assert_eq!(v.y, 0);
        assert!(v.x == ONE || v.x == -ONE);
    }
}
