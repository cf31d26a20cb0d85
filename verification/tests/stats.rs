use haste::confidence::ConfidenceLevel;
use haste::stats::{isqrt_u128, scaled_quotient, summarise_samples, SummaryStats};

// One millisecond is a million units; the values below write the
// milliseconds of each statistic in those units.
#[test]
fn cis_overlap() {
    let s1 = SummaryStats::new(10_000_000, 5_000_000);
    let s2 = SummaryStats::new(5_000_000, 8_000_000);
    let s3 = SummaryStats::new(50_600_000, 20_666_700);
    let s4 = SummaryStats::new(-500_000, 100_000);
    let s5 = SummaryStats::new(-500_000, 200_000);
    assert!(s1.ci_overlaps(&s2));
    assert!(s2.ci_overlaps(&s1));
    assert!(s1.ci_overlaps(&s1));
    assert!(s2.ci_overlaps(&s2));
    assert!(!s1.ci_overlaps(&s3));
    assert!(!s3.ci_overlaps(&s1));
    assert!(s1.ci_overlaps(&s1));
    assert!(s2.ci_overlaps(&s2));
    assert!(s3.ci_overlaps(&s3));
    assert!(s4.ci_overlaps(&s5));
    assert!(s5.ci_overlaps(&s4));
    assert!(!s4.ci_overlaps(&s1));
    assert!(s4.ci_overlaps(&s2));
    assert!(!s4.ci_overlaps(&s3));
    assert!(!s5.ci_overlaps(&s1));
    assert!(s5.ci_overlaps(&s2));
    assert!(!s5.ci_overlaps(&s3));
}

#[test]
fn intervals_that_touch_overlap() {
    let a = SummaryStats::new(10, 5);
    let b = SummaryStats::new(20, 5);
    let c = SummaryStats::new(21, 5);
    assert!(a.ci_overlaps(&b));
    assert!(b.ci_overlaps(&a));
    assert!(!a.ci_overlaps(&c));
    assert!(!c.ci_overlaps(&a));
}

#[test]
fn overlap_at_the_ends_of_the_number_range() {
    let low = SummaryStats::new(i64::MIN, u64::MAX);
    let high = SummaryStats::new(i64::MAX, u64::MAX);
    let point = SummaryStats::new(i64::MAX, 0);
    assert!(low.ci_overlaps(&high));
    assert!(high.ci_overlaps(&low));
    assert!(point.ci_overlaps(&point));
    assert!(!point.ci_overlaps(&SummaryStats::new(i64::MIN, 0)));
}

#[test]
fn single_sample_has_no_interval() {
    for level in [ConfidenceLevel::CL90, ConfidenceLevel::CL95, ConfidenceLevel::CL99] {
        let stats = summarise_samples(&vec![5], level);
        assert_eq!(stats.mean, 5_000_000);
        assert_eq!(stats.ci, 0);
    }
    let stats = summarise_samples(&vec![u32::MAX], ConfidenceLevel::CL99);
    assert_eq!(stats.mean, 4_294_967_295_000_000);
    assert_eq!(stats.ci, 0);
}

#[test]
fn mean_and_interval_of_three_samples() {
    let samples = vec![100, 110, 120];
    assert_eq!(
        summarise_samples(&samples, ConfidenceLevel::CL90),
        SummaryStats::new(110_000_000, 9_497_411)
    );
    assert_eq!(
        summarise_samples(&samples, ConfidenceLevel::CL95),
        SummaryStats::new(110_000_000, 11_316_065)
    );
    assert_eq!(
        summarise_samples(&samples, ConfidenceLevel::CL99),
        SummaryStats::new(110_000_000, 14_872_542)
    );
}

#[test]
fn mean_is_rounded_down() {
    let stats = summarise_samples(&vec![1, 2], ConfidenceLevel::CL95);
    assert_eq!(stats, SummaryStats::new(1_500_000, 980_000));
    let stats = summarise_samples(&vec![1, 1, 2], ConfidenceLevel::CL95);
    assert_eq!(stats.mean, 1_333_333);
}

#[test]
fn equal_samples_have_no_interval() {
    let stats = summarise_samples(&vec![100, 100, 100], ConfidenceLevel::CL99);
    assert_eq!(stats, SummaryStats::new(100_000_000, 0));
}

#[test]
fn statistics_do_not_depend_on_the_order() {
    let level = ConfidenceLevel::CL99;
    let expected = SummaryStats::new(2_000_000, 1_487_254);
    assert_eq!(summarise_samples(&vec![1, 2, 3], level), expected);
    assert_eq!(summarise_samples(&vec![3, 1, 2], level), expected);
    assert_eq!(summarise_samples(&vec![2, 3, 1], level), expected);
    assert_eq!(
        summarise_samples(&vec![10, 20, 30, 40], level),
        summarise_samples(&vec![40, 10, 30, 20], level)
    );
    assert_eq!(
        summarise_samples(&vec![10, 20, 30, 40], level),
        SummaryStats::new(25_000_000, 16_628_008)
    );
}

#[test]
fn largest_samples_do_not_overflow() {
    let stats = summarise_samples(&vec![0, u32::MAX], ConfidenceLevel::CL99);
    assert_eq!(stats.mean, 2_147_483_647_500_000);
    // 2576 * (u32::MAX / 2) thousandths of a millisecond, in units
    assert_eq!(stats.ci, 5_531_917_875_960_000);
}

#[test]
fn integer_square_roots() {
    assert_eq!(isqrt_u128(0), 0);
    assert_eq!(isqrt_u128(1), 1);
    assert_eq!(isqrt_u128(15), 3);
    assert_eq!(isqrt_u128(16), 4);
    assert_eq!(isqrt_u128(17), 4);
    assert_eq!(isqrt_u128(221_192_533_333_333), 14_872_542);
    assert_eq!(isqrt_u128(u128::MAX), u64::MAX);
}

#[test]
fn quotient_of_a_product_too_large_for_the_word() {
    assert_eq!(scaled_quotient(1_000_000, 6_635_776, 600, 18), 221_192_533_333_333);
    assert_eq!(scaled_quotient(3, 5, 7, 2), 52);
    let den: u128 = 1 << 90;
    assert_eq!(scaled_quotient(1 << 30, 1 << 30, den + 1, den), (1 << 60) + 0);
    assert_eq!(scaled_quotient(1 << 30, 1 << 30, (den << 1) + (den >> 1), den), 5 << 59);
}
