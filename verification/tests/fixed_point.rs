use planner::fixed::{clamp01, min_max, normalize, round2, round3, unit_ratio};

#[test]
fn normalize_scales_between_min_and_max() {
    assert_eq!(normalize(900, 900, 1100), 0);
    assert_eq!(normalize(1000, 900, 1100), 500_000);
    assert_eq!(normalize(1100, 900, 1100), 1_000_000);
    assert_eq!(normalize(950, 900, 1100), 250_000);
    assert_eq!(normalize(1000, 900, 1200), 333_333);
}

#[test]
fn normalize_collapsed_range_is_one_half() {
    assert_eq!(normalize(7, 7, 7), 500_000);
    assert_eq!(normalize(0, 7, 7), 500_000);
    assert_eq!(normalize(100, 7, 7), 500_000);
}

#[test]
fn normalize_clamps_outside_values() {
    assert_eq!(normalize(5, 10, 20), 0);
    assert_eq!(normalize(25, 10, 20), 1_000_000);
}

#[test]
fn normalize_with_reversed_bounds() {
    assert_eq!(normalize(5, 10, 0), 500_000);
    assert_eq!(normalize(10, 10, 0), 0);
    assert_eq!(normalize(0, 10, 0), 1_000_000);
    assert_eq!(normalize(12, 10, 0), 0);
}

#[test]
fn min_max_of_values() {
    assert_eq!(min_max(&[]), (0, 0));
    assert_eq!(min_max(&[5]), (5, 5));
    assert_eq!(min_max(&[1000, 900, 1100]), (900, 1100));
    assert_eq!(min_max(&[3, 3, 3]), (3, 3));
}

#[test]
fn rounding_is_half_up() {
    assert_eq!(round2(1234), 123);
    assert_eq!(round2(1235), 124);
    assert_eq!(round2(0), 0);
    assert_eq!(round2(u64::MAX), 1_844_674_407_370_955_162);
    assert_eq!(round3(499), 0);
    assert_eq!(round3(500), 1);
    assert_eq!(round3(600_000), 600);
    assert_eq!(round3(333_333), 333);
    assert_eq!(round3(666_666), 667);
}

#[test]
fn clamp01_keeps_in_range_and_collapses_the_rest() {
    assert_eq!(clamp01(0), 0);
    assert_eq!(clamp01(1_000_000), 1_000_000);
    assert_eq!(clamp01(200_000), 200_000);
    assert_eq!(clamp01(-1), 500_000);
    assert_eq!(clamp01(1_000_001), 500_000);
    assert_eq!(clamp01(i64::MIN), 500_000);
    assert_eq!(clamp01(i64::MAX), 500_000);
}

#[test]
fn unit_ratio_is_exact_for_large_operands() {
    assert_eq!(unit_ratio(1, 3), 333_333);
    assert_eq!(unit_ratio(2, 3), 666_666);
    assert_eq!(unit_ratio(0, 5), 0);
    assert_eq!(unit_ratio(5, 5), 1_000_000);
    assert_eq!(unit_ratio(u128::MAX - 1, u128::MAX), 999_999);
    assert_eq!(unit_ratio(u128::MAX / 2, u128::MAX), 499_999);
    assert_eq!(unit_ratio(u128::MAX / 4 + 1, u128::MAX), 250_000);
}
