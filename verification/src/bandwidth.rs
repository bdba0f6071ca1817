//! CFS bandwidth: the quota that goes with a period, a thread count and a
//! percentage.

use vstd::prelude::*;

verus! {

/// The quota in microseconds: `period × threads × percent / 100`, rounded
/// down, over the unbounded integers.
pub open spec fn quota_of(period_us: u64, threads: usize, quota_pc: u64) -> int {
    (period_us as int) * (threads as int) * (quota_pc as int) / 100
}

/// The product of a period and a thread count fits in 128 bits.
proof fn lemma_product_fits(a: u64, b: usize)
    ensures
        0 <= (a as int) * (b as int) <= 0xffff_ffff_ffff_ffff * 0xffff_ffff_ffff_ffff,
        (a as int) * (b as int) <= u128::MAX,
{
    assert(0 <= (a as int) * (b as int) <= 0xffff_ffff_ffff_ffff * 0xffff_ffff_ffff_ffff)
        by (nonlinear_arith)
        requires
            0 <= a as int <= 0xffff_ffff_ffff_ffff,
            0 <= b as int <= 0xffff_ffff_ffff_ffff,
    ;
}

/// Derives the CFS quota for `threads` threads that may each use `quota_pc`
/// percent of a period of `period_us` microseconds.
///
/// The product is taken before the division, in a width that cannot wrap, so
/// the result is exact whenever the kernel's signed 64-bit quota can hold it;
/// otherwise there is no quota to write and `None` comes back.
pub fn cfs_quota_us(period_us: u64, threads: usize, quota_pc: u64) -> (quota: Option<i64>)
    ensures
        quota_of(period_us, threads, quota_pc) <= i64::MAX ==> quota == Some(
            quota_of(period_us, threads, quota_pc) as i64,
        ),
        quota_of(period_us, threads, quota_pc) > i64::MAX ==> quota is None,
{
    proof {
        lemma_product_fits(period_us, threads);
    }
    let per_period: u128 = (period_us as u128) * (threads as u128);
    assert(per_period as int * (quota_pc as int) >= 0) by (nonlinear_arith)
        requires
            per_period >= 0,
            quota_pc >= 0,
    ;
    match per_period.checked_mul(quota_pc as u128) {
        None => None,
        Some(product) => {
            let quota: u128 = product / 100;
            if quota <= i64::MAX as u128 {
                Some(quota as i64)
            } else {
                None
            }
        },
    }
}

} // verus!
