//! The quota: what is owed at the end of each period, and what paying it
//! does to the stock.

use vstd::prelude::*;

verus! {

/// Seconds in one quota period.
pub const QUOTA_TIME: u32 = 600;

/// The quota of the first period.
pub const QUOTA_INITIAL: u32 = 10;

/// The stock at the start.
pub const RESOURCE_INITIAL: u32 = 5;

/// By how much the quota grows when it was met.
pub const QUOTA_GROWTH: u32 = 5;

/// How the end of a quota period came out.
#[derive(Clone, Copy, Debug, PartialEq, Eq, Structural)]
pub struct QuotaOutcome {
    /// The stock after the period.
    pub resource_count: u32,
    /// The quota of the next period.
    pub quota: u32,
    /// Whether the quota was met.
    pub success: bool,
}

/// How the end of a period comes out for a stock and a quota: a stock
/// below the quota leaves everything as it is; otherwise the quota is paid
/// out of the stock, and the next quota is five times as high.
pub open spec fn settled(resource_count: u32, quota: u32) -> QuotaOutcome {
    if resource_count < quota {
        QuotaOutcome { resource_count, quota, success: false }
    } else {
        QuotaOutcome {
            resource_count: (resource_count - quota) as u32,
            quota: (quota * QUOTA_GROWTH) as u32,
            success: true,
        }
    }
}

/// Whether the quota can be settled: where it is met, the next quota can
/// be held in a `u32`.
pub fn can_update_quota(resource_count: u32, quota: u32) -> (b: bool)
    ensures
        b == (resource_count >= quota ==> quota * QUOTA_GROWTH <= u32::MAX),
{
    let growth: u64 = QUOTA_GROWTH as u64;
    assert(growth == 5);
    let next: u64 = quota as u64 * growth;
    resource_count < quota || next <= u32::MAX as u64
}

/// Settle the quota at the end of a period.
pub fn update_quota(resource_count: u32, quota: u32) -> (outcome: QuotaOutcome)
    requires
        resource_count >= quota ==> quota * QUOTA_GROWTH <= u32::MAX,
    ensures
        outcome == settled(resource_count, quota),
{
    if resource_count < quota {
        QuotaOutcome { resource_count, quota, success: false }
    } else {
        QuotaOutcome {
            resource_count: resource_count - quota,
            quota: quota * QUOTA_GROWTH,
            success: true,
        }
    }
}

} // verus!
