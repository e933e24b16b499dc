use sona::fixed::{
    check_within, clamp_exec, copy_vector, div_trunc_exec, fmul_exec, mul_wide, zeros, SCALE,
    VALUE_LIMIT, WEIGHT_LIMIT,
};

#[test]
fn division_rounds_toward_zero() {
    assert_eq!(div_trunc_exec(7, 2), 3);
    assert_eq!(div_trunc_exec(-7, 2), -3);
    assert_eq!(div_trunc_exec(-1, 2), 0);
    assert_eq!(div_trunc_exec(0, 5), 0);
    assert_eq!(div_trunc_exec(-6, 3), -2);
}

#[test]
fn product_is_rescaled_by_truncation() {
    assert_eq!(fmul_exec(1_500_000, 2_000_000), 3_000_000);
    assert_eq!(fmul_exec(-1_500_000, 333_333), -499_999);
    assert_eq!(fmul_exec(1_500_000, -333_333), -499_999);
    assert_eq!(fmul_exec(1, 999_999), 0);
    assert_eq!(fmul_exec(SCALE, 123_456), 123_456);
    assert_eq!(fmul_exec(0, i64::MAX), 0);
}

#[test]
fn wide_product_is_exact_at_the_ends_of_the_range() {
    assert_eq!(mul_wide(i64::MAX, i64::MAX), (i64::MAX as i128) * (i64::MAX as i128));
    assert_eq!(mul_wide(i64::MIN, i64::MIN), (i64::MIN as i128) * (i64::MIN as i128));
    assert_eq!(mul_wide(i64::MIN, i64::MAX), (i64::MIN as i128) * (i64::MAX as i128));
    assert_eq!(mul_wide(-3, 4), -12);
}

#[test]
fn clamp_saturates_both_ways() {
    assert_eq!(clamp_exec(5, 10), 5);
    assert_eq!(clamp_exec(11, 10), 10);
    assert_eq!(clamp_exec(-11, 10), -10);
    assert_eq!(clamp_exec(-10, 10), -10);
    assert_eq!(clamp_exec(i128::MAX, VALUE_LIMIT), VALUE_LIMIT);
    assert_eq!(clamp_exec(i128::MIN, WEIGHT_LIMIT), -WEIGHT_LIMIT);
}

#[test]
fn range_check_finds_the_component_out_of_range() {
    assert!(check_within(&vec![], 0));
    assert!(check_within(&vec![VALUE_LIMIT, -VALUE_LIMIT, 0], VALUE_LIMIT));
    assert!(!check_within(&vec![0, VALUE_LIMIT + 1], VALUE_LIMIT));
    assert!(!check_within(&vec![-VALUE_LIMIT - 1], VALUE_LIMIT));
}

#[test]
fn vector_helpers_copy_and_fill() {
    assert_eq!(copy_vector(&vec![3, -4, 5]), vec![3, -4, 5]);
    assert_eq!(copy_vector(&vec![]), Vec::<i64>::new());
    assert_eq!(zeros(3), vec![0, 0, 0]);
    assert_eq!(zeros(0), Vec::<i64>::new());
}
