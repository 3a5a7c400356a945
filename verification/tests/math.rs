use remitflow_contract::math::{
    calculate_fee, checked_add_amount, checked_increment, checked_sub_amount,
    saturating_add_amount, saturating_add_with_cap, BASIS_POINTS_DENOMINATOR,
};

#[test]
fn checked_amount_arithmetic_handles_boundaries() {
    assert_eq!(checked_add_amount(40, 2), Some(42));
    assert_eq!(checked_add_amount(i128::MAX, 1), None);
    assert_eq!(checked_sub_amount(40, 2), Some(38));
    assert_eq!(checked_sub_amount(i128::MIN, 1), None);
}

#[test]
fn checked_increment_rejects_overflow() {
    assert_eq!(checked_increment(7), Some(8));
    assert_eq!(checked_increment(u64::MAX), None);
}

#[test]
fn saturating_helpers_clamp_at_their_limits() {
    assert_eq!(saturating_add_amount(i128::MAX, 1), i128::MAX);
    assert_eq!(saturating_add_amount(i128::MIN, -1), i128::MIN);
    assert_eq!(saturating_add_with_cap(5, 10, 12), 12);
    assert_eq!(saturating_add_with_cap(5, 2, 12), 7);
    assert_eq!(saturating_add_with_cap(u64::MAX, 1, u64::MAX), u64::MAX);
}

#[test]
fn calculate_fee_supports_common_rates_and_rounds_down() {
    assert_eq!(calculate_fee(10_000, 100), Some(100));
    assert_eq!(calculate_fee(999, 250), Some(24));
    assert_eq!(calculate_fee(42, 0), Some(0));
    assert_eq!(calculate_fee(42, BASIS_POINTS_DENOMINATOR), Some(42));
}

#[test]
fn calculate_fee_handles_maximum_amount_without_overflow() {
    assert_eq!(
        calculate_fee(i128::MAX, BASIS_POINTS_DENOMINATOR),
        Some(i128::MAX)
    );
    assert_eq!(calculate_fee(i128::MAX, 1), Some(i128::MAX / 10_000));
}

#[test]
fn calculate_fee_rejects_invalid_inputs() {
    assert_eq!(calculate_fee(-1, 100), None);
    assert_eq!(calculate_fee(100, BASIS_POINTS_DENOMINATOR + 1), None);
}

#[test]
fn test_saturating_increment_caps_at_u64_max() {
    assert_eq!(checked_increment(7), Some(8));
    assert_eq!(checked_increment(u64::MAX), None);
}

#[test]
fn test_saturating_add_with_cap_clamps_at_cap() {
    assert_eq!(saturating_add_with_cap(5, 10, 12), 12);
    assert_eq!(saturating_add_with_cap(5, 2, 12), 7);
}

#[test]
fn saturating_add_amount_adds_in_range_and_clamps_below() {
    assert_eq!(saturating_add_amount(-5, 3), -2);
    assert_eq!(saturating_add_amount(i128::MIN + 1, -2), i128::MIN);
    assert_eq!(saturating_add_amount(i128::MAX - 1, 1), i128::MAX);
}

#[test]
fn checked_sub_amount_detects_overflow_upwards() {
    assert_eq!(checked_sub_amount(i128::MAX, -1), None);
    assert_eq!(checked_sub_amount(-3, -5), Some(2));
}

#[test]
fn saturating_add_with_cap_clamps_a_sum_that_overflows() {
    assert_eq!(saturating_add_with_cap(u64::MAX - 1, 5, 100), 100);
    assert_eq!(saturating_add_with_cap(0, 0, 0), 0);
}

#[test]
fn calculate_fee_is_exact_on_whole_multiples_and_rounds_down_otherwise() {
    assert_eq!(calculate_fee(20_000, 5_000), Some(10_000));
    assert_eq!(calculate_fee(19_999, 5_000), Some(9_999));
    assert_eq!(calculate_fee(1, 9_999), Some(0));
    assert_eq!(calculate_fee(0, 10_000), Some(0));
}
