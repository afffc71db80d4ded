use pong::fixed::{add_sat, mul_fixed, neg_sat, quot_i128, saturate_i128, sub_sat, ONE};

#[test]
fn one_counts_millionths() {
    assert_eq!(ONE, 1_000_000);
}

#[test]
fn quotients_round_toward_zero() {
    assert_eq!(quot_i128(7, 2), 3);
    assert_eq!(quot_i128(-7, 2), -3);
    assert_eq!(quot_i128(7, -2), -3);
    assert_eq!(quot_i128(-7, -2), 3);
    assert_eq!(quot_i128(0, -5), 0);
}

#[test]
fn saturation_sticks_to_the_ends() {
    assert_eq!(saturate_i128(i64::MAX as i128 + 1), i64::MAX);
    assert_eq!(saturate_i128(i64::MIN as i128 - 1), i64::MIN);
    assert_eq!(saturate_i128(-42), -42);
    assert_eq!(add_sat(i64::MAX, 1), i64::MAX);
    assert_eq!(add_sat(3, 4), 7);
    assert_eq!(sub_sat(i64::MIN, 1), i64::MIN);
    assert_eq!(sub_sat(3, 4), -1);
    assert_eq!(neg_sat(i64::MIN), i64::MAX);
    assert_eq!(neg_sat(5), -5);
}

#[test]
fn fixed_point_product() {
    // 500 * 1.05 = 525
    assert_eq!(mul_fixed(500 * ONE, 1_050_000), 525 * ONE);
    // 0.000001 * 0.5 rounds toward zero
    assert_eq!(mul_fixed(1, 500_000), 0);
    assert_eq!(mul_fixed(-1, 500_000), 0);
    assert_eq!(mul_fixed(-3 * ONE, 2 * ONE), -6 * ONE);
    assert_eq!(mul_fixed(i64::MAX, 2 * ONE), i64::MAX);
    assert_eq!(mul_fixed(i64::MIN, 2 * ONE), i64::MIN);
    assert_eq!(mul_fixed(i64::MIN, i64::MIN), i64::MAX);
}
