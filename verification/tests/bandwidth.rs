use schedulerutils::bandwidth::cfs_quota_us;

#[test]
fn quota_for_four_threads_at_half_a_period() {
    assert_eq!(cfs_quota_us(80000, 4, 50), Some(160000));
}

#[test]
fn quota_of_one_thread_at_a_full_period_is_the_period() {
    assert_eq!(cfs_quota_us(100000, 1, 100), Some(100000));
}

#[test]
fn quota_rounds_down() {
    assert_eq!(cfs_quota_us(3, 1, 50), Some(1));
    assert_eq!(cfs_quota_us(1, 1, 99), Some(0));
    assert_eq!(cfs_quota_us(7, 3, 33), Some(6));
}

#[test]
fn quota_is_zero_without_threads_or_percentage() {
    assert_eq!(cfs_quota_us(80000, 0, 50), Some(0));
    assert_eq!(cfs_quota_us(80000, 4, 0), Some(0));
    assert_eq!(cfs_quota_us(0, 4, 50), Some(0));
}

#[test]
fn quota_is_exact_where_the_product_exceeds_64_bits() {
    assert_eq!(cfs_quota_us(u64::MAX, 2, 25), Some((u64::MAX / 2) as i64));
    assert_eq!(cfs_quota_us(u64::MAX, 100, 1), None);
    assert_eq!(cfs_quota_us(u64::MAX, 50, 1), Some((u64::MAX / 2) as i64));
}

#[test]
fn quota_beyond_the_signed_range_is_refused() {
    assert_eq!(cfs_quota_us(u64::MAX, 1, 100), None);
    assert_eq!(cfs_quota_us(u64::MAX, usize::MAX, u64::MAX), None);
    assert_eq!(cfs_quota_us(i64::MAX as u64, 1, 100), Some(i64::MAX));
    assert_eq!(cfs_quota_us(i64::MAX as u64 + 1, 1, 100), None);
}
