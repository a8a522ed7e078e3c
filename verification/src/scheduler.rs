//! What the daemon does from time to time.
use vstd::prelude::*;
use crate::ledger::ApiCostBackfillBatch;
use crate::models::{clamp, clamped};
use crate::time::{is_time, NANOS};

verus! {

/// How long the daemon waits before the first refresh of usage.
pub const FIRST_REFRESH_SECONDS: u64 = 2;

/// How long the daemon waits before it tries a failed batch again.
pub const BACKFILL_RETRY_SECONDS: u64 = 1;

/// The number of the next refresh.
pub open spec fn count_after(count: u64) -> int {
    if count == u64::MAX {
        0
    } else {
        count + 1
    }
}

/// The number of refreshes after one more.
pub fn next_refresh_count(count: u64) -> (r: u64)
    ensures
        r == count_after(count),
        r == if count == u64::MAX {
            0
        } else {
            count + 1
        },
{
    if count == 18446744073709551615 {
        0
    } else {
        count + 1
    }
}

/// Whether old records are removed after the refresh of this number.
pub open spec fn prunes(refresh_count: int) -> bool {
    refresh_count == 1 || refresh_count % 360 == 0
}

/// Whether history is pruned after a refresh: after the first, and after every 360th.
pub fn prunes_after(refresh_count: u64) -> (r: bool)
    ensures
        r == prunes(refresh_count as int),
        r == (refresh_count == 1 || refresh_count % 360 == 0),
{
    refresh_count == 1 || refresh_count % 360 == 0
}

/// The time before which records are old: as many days ago as are kept, by milliseconds.
pub open spec fn oldest_kept(now: int, retention_days: int) -> int {
    (now / 1000000) * 1000000 - clamped(retention_days, 1, 365) * 86400 * NANOS
}

/// The millisecond before which history is dropped: a day to a year ago.
pub fn prune_before(now: i128, retention_days: i64) -> (r: i128)
    requires
        is_time(now as int),
    ensures
        r == oldest_kept(now as int, retention_days as int),
        r == (now / 1000000) * 1000000 - clamped(retention_days as int, 1, 365) * 86400 * NANOS,
{
    let days = clamp(retention_days, 1, 365);
    let part: i128 = if now >= 0 {
        now % 1000000
    } else {
        999999 - (-(now + 1)) % 1000000
    };
    now - part - days as i128 * 86400 * NANOS
}

/// What follows a batch of the backfill of costs.
#[derive(Debug, Clone, Copy, PartialEq, Eq, Structural)]
pub enum BackfillStep {
    /// Take the next batch.
    Next,
    /// Wait, and take the batch again.
    Retry,
    /// All is done: say so where anything was.
    Done { report: bool },
}

/// The backfill of costs: how many requests it has priced.
#[derive(Debug, Clone, Copy, PartialEq, Eq, Structural)]
pub struct Backfill {
    pub total: u64,
}

impl Backfill {
    pub fn new() -> (r: Backfill)
        ensures
            r.total == 0,
    {
        Backfill { total: 0 }
    }

    /// What follows a batch, or one that failed.
    pub fn batch(&mut self, batch: Option<ApiCostBackfillBatch>) -> (r: BackfillStep)
        ensures
            match batch {
                Some(b) => if b.selected == 0 {
                    final(self).total == old(self).total && r == (BackfillStep::Done {
                        report: old(self).total > 0,
                    })
                } else {
                    r == BackfillStep::Next && final(self).total == if old(self).total + b.updated
                        > u64::MAX {
                        u64::MAX as int
                    } else {
                        old(self).total + b.updated
                    }
                },
                None => r == BackfillStep::Retry && final(self).total == old(self).total,
            },
    {
        match batch {
            Some(b) => {
                if b.selected == 0 {
                    BackfillStep::Done { report: self.total > 0 }
                } else {
                    self.total = match self.total.checked_add(b.updated) {
                        Some(total) => total,
                        None => 18446744073709551615,
                    };
                    BackfillStep::Next
                }
            },
            None => BackfillStep::Retry,
        }
    }
}

/// Old records are removed after the first refresh, and then after every one whose number is a
/// multiple of 360: in any 360 refreshes in a row there is one after which they are.
pub proof fn records_are_pruned_from_time_to_time(count: int)
    requires
        count >= 0,
    ensures
        prunes(1),
        count > 1 && count % 360 != 0 ==> !prunes(count),
        count % 360 == 0 ==> prunes(count),
        exists|k: int| count <= k < count + 360 && #[trigger] prunes(k),
{
    let k = if count % 360 == 0 {
        count
    } else {
        count + 360 - count % 360
    };
    assert(prunes(k));
}

/// Records are kept for as many days as are set, one at least and a year at most, and never longer for
/// a shorter setting.
pub proof fn retention_is_bounded(now: int, days: int, more: int)
    requires
        days <= more,
        now >= 0,
    ensures
        oldest_kept(now, more) <= oldest_kept(now, days),
        now - 366 * 86400 * 1_000_000_000 <= oldest_kept(now, days) <= now - 86400 * 1_000_000_000,
        1 <= days <= 365 ==> now - days * 86400 * 1_000_000_000 - 1_000_000 < oldest_kept(now, days)
            <= now - days * 86400 * 1_000_000_000,
{
}

/// Refreshes are counted one by one.
pub proof fn refreshes_are_counted(count: u64)
    ensures
        count < u64::MAX ==> count_after(count) == count + 1,
        0 <= count_after(count) <= u64::MAX,
{
}

} // verus!
