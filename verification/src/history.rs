//! Earlier readings of usage.
use vstd::prelude::*;
use crate::text::same;
use crate::time::{
    milliseconds_are_nearest, rounded_millis, to_millis, LAST_MILLI, YEAR_TEN_THOUSAND, YEAR_ZERO,
};

verus! {

/// A reading of a usage window, as it is stored: the percentage as the bits of a double, times in
/// nanoseconds since 1970.
#[derive(Debug)]
pub struct UsageSample {
    pub id: i64,
    pub account_id: u128,
    pub quota_key: String,
    pub source_slot: String,
    pub used_percent: u64,
    pub reset_at: Option<i128>,
    pub recorded_at: i128,
}

/// Whether a reading is one of the window, at least a quarter of an hour before, in whole milliseconds.
/// No reading compares with one of the year 10000 or later, and none of that time with any.
pub open spec fn compares(
    s: UsageSample,
    account: u128,
    quota: Seq<char>,
    slot: Seq<char>,
    fetched_at: i128,
) -> bool {
    &&& s.account_id == account
    &&& s.quota_key@ == quota
    &&& s.source_slot@ == slot
    &&& rounded_millis(s.recorded_at as int) <= LAST_MILLI
    &&& fetched_at < YEAR_TEN_THOUSAND
    &&& rounded_millis(s.recorded_at as int) <= rounded_millis(fetched_at as int) - 900000
}

/// Whether a reading is later than another, or was stored later.
pub open spec fn later(a: UsageSample, b: UsageSample) -> bool {
    a.recorded_at > b.recorded_at || (a.recorded_at == b.recorded_at && a.id > b.id)
}

/// The place of the latest reading to compare with, among the first `n`.
pub open spec fn latest(
    samples: Seq<UsageSample>,
    account: u128,
    quota: Seq<char>,
    slot: Seq<char>,
    fetched_at: i128,
    i: int,
) -> bool {
    &&& 0 <= i < samples.len()
    &&& compares(samples[i], account, quota, slot, fetched_at)
    &&& forall|j: int|
        0 <= j < samples.len() && compares(#[trigger] samples[j], account, quota, slot, fetched_at)
            ==> !later(samples[j], samples[i])
}

/// The reading of a window to compare it with: the latest of at least a quarter of an hour before.
pub fn previous_usage_sample(
    samples: &Vec<UsageSample>,
    account_id: u128,
    quota_key: &str,
    source_slot: &str,
    fetched_at: i128,
) -> (r: Option<usize>)
    requires
        forall|j: int| 0 <= j < samples.len() ==> (#[trigger] samples@[j]).recorded_at >= YEAR_ZERO,
    ensures
        match r {
            Some(i) => latest(
                samples@,
                account_id,
                quota_key@,
                source_slot@,
                fetched_at,
                i as int,
            ),
            None => forall|j: int|
                0 <= j < samples.len() ==> !compares(
                    #[trigger] samples@[j],
                    account_id,
                    quota_key@,
                    source_slot@,
                    fetched_at,
                ),
        },
{
    let limit: i128 = to_millis(fetched_at) - 900000;
    let mut best: Option<usize> = None;
    let mut i: usize = 0;
    while i < samples.len()
        invariant
            i <= samples.len(),
            limit == rounded_millis(fetched_at as int) - 900000,
            match best {
                Some(b) => b < i && latest(
                    samples@.take(i as int),
                    account_id,
                    quota_key@,
                    source_slot@,
                    fetched_at,
                    b as int,
                ),
                None => forall|j: int|
                    0 <= j < i ==> !compares(
                        #[trigger] samples@[j],
                        account_id,
                        quota_key@,
                        source_slot@,
                        fetched_at,
                    ),
            },
        decreases samples.len() - i,
    {
        let ghost p = samples@.take(i as int);
        let ghost q = samples@.take(i as int + 1);
        assert(forall|j: int| 0 <= j < i ==> #[trigger] q[j] == p[j]);
        assert(q[i as int] == samples@[i as int]);
        let s = &samples[i];
        let recorded = to_millis(s.recorded_at);
        if s.account_id == account_id && same(&s.quota_key, quota_key) && same(
            &s.source_slot,
            source_slot,
        ) && recorded <= LAST_MILLI as i128 && fetched_at < YEAR_TEN_THOUSAND && recorded <= limit {
            let newer = match best {
                Some(b) => {
                    let known = &samples[b];
                    s.recorded_at > known.recorded_at || (s.recorded_at == known.recorded_at && s.id
                        > known.id)
                },
                None => true,
            };
            if newer {
                best = Some(i);
            }
        }
        i += 1;
    }
    assert(samples@.take(samples@.len() as int) =~= samples@);
    best
}

/// The reading that use is compared with is of the same account, quota and slot, was taken a quarter of
/// an hour before or more, and is the latest such one: of two taken at once, that of the higher number.
pub proof fn use_is_compared_with_the_latest(
    samples: Seq<UsageSample>,
    account: u128,
    quota: Seq<char>,
    slot: Seq<char>,
    fetched_at: i128,
    i: int,
    j: int,
)
    requires
        latest(samples, account, quota, slot, fetched_at, i),
        0 <= j < samples.len(),
    ensures
        samples[i].account_id == account,
        samples[i].quota_key@ == quota,
        samples[i].source_slot@ == slot,
        rounded_millis(samples[i].recorded_at as int) + 900000 <= rounded_millis(
            fetched_at as int,
        ),
        compares(samples[j], account, quota, slot, fetched_at) ==> samples[j].recorded_at
            < samples[i].recorded_at || (samples[j].recorded_at == samples[i].recorded_at
            && samples[j].id <= samples[i].id),
{
}

/// A reading of the same account, quota and slot that is old enough can be compared with.
pub proof fn old_readings_compare(s: UsageSample, fetched_at: i128)
    requires
        rounded_millis(s.recorded_at as int) + 900000 <= rounded_millis(fetched_at as int),
        fetched_at < YEAR_TEN_THOUSAND,
        rounded_millis(s.recorded_at as int) <= LAST_MILLI,
    ensures
        compares(s, s.account_id, s.quota_key@, s.source_slot@, fetched_at),
{
}

/// A reading to compare with is a quarter of an hour old, to the millisecond.
pub proof fn compared_readings_are_old(
    s: UsageSample,
    account: u128,
    quota: Seq<char>,
    slot: Seq<char>,
    fetched_at: i128,
)
    ensures
        compares(s, account, quota, slot, fetched_at) ==> fetched_at - s.recorded_at >= 899_999_000_000,
        fetched_at < YEAR_TEN_THOUSAND && s.recorded_at <= fetched_at - 900_001_000_000 && s.account_id
            == account && s.quota_key@ == quota && s.source_slot@ == slot ==> compares(
            s,
            account,
            quota,
            slot,
            fetched_at,
        ),
{
    milliseconds_are_nearest(s.recorded_at as int);
    milliseconds_are_nearest(fetched_at as int);
}

} // verus!
