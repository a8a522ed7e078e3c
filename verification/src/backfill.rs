//! Pricing the stored requests that have no price yet, batch by batch.
use vstd::prelude::*;
use crate::error::{AppError, AppErrorKind};
use crate::ledger::{
    account_counts, account_delta, backfill_count, backfill_totals, checked_accumulate, counts_for,
    delta_sum, deltas_grow, fits, has_entry, is_natural, no_delta, overflow_text, row_cost,
    taken_count, uncounted_is_nothing, unpriced_after, ApiCostAggregateDelta, ApiCostBackfillBatch,
    DeltaView, PendingApiCostRow, API_COST_BACKFILL_BATCH_SIZE,
};
use crate::models::{clamp, clamped};
use crate::pricing::ApiCostEstimate;

verus! {

/// The totals of an account that its priced requests make up.
#[derive(Debug, Default, Clone, Copy, PartialEq, Eq, Structural)]
pub struct CostTotals {
    pub request_count: i64,
    pub sums: ApiCostAggregateDelta,
    pub unpriced_requests: i64,
}

pub struct TotalsView {
    pub requests: int,
    pub sums: DeltaView,
    pub unpriced: int,
}

impl View for CostTotals {
    type V = TotalsView;

    open spec fn view(&self) -> TotalsView {
        TotalsView {
            requests: self.request_count as int,
            sums: self.sums@,
            unpriced: self.unpriced_requests as int,
        }
    }
}

/// The totals with what newly priced requests add. What is left without a price is never less than
/// none.
pub open spec fn grown(t: TotalsView, d: DeltaView) -> TotalsView {
    let sums = delta_sum(t.sums, d);
    let left = t.requests - sums.complete - sums.partial;
    TotalsView {
        requests: t.requests,
        sums,
        unpriced: if left < 0 {
            0
        } else {
            left
        },
    }
}

/// Stored requests, in the order of their numbers, each with its cost where that is known, and the
/// totals of the accounts that served them.
#[derive(Debug)]
pub struct RequestLedger {
    pub rows: Vec<PendingApiCostRow>,
    pub costs: Vec<Option<ApiCostEstimate>>,
    pub accounts: Vec<(u128, CostTotals)>,
}

pub struct LedgerView {
    pub rows: Seq<PendingApiCostRow>,
    pub costs: Seq<Option<ApiCostEstimate>>,
    pub accounts: Seq<(u128, TotalsView)>,
}

impl View for RequestLedger {
    type V = LedgerView;

    open spec fn view(&self) -> LedgerView {
        LedgerView {
            rows: self.rows@,
            costs: self.costs@,
            accounts: Seq::new(
                self.accounts@.len(),
                |k: int| (self.accounts@[k].0, self.accounts@[k].1@),
            ),
        }
    }
}

/// Whether every request has a place for its cost, and no account has counted less than none.
pub open spec fn sound(v: LedgerView) -> bool {
    &&& v.rows.len() == v.costs.len()
    &&& forall|k: int|
        0 <= k < v.accounts.len() ==> (#[trigger] v.accounts[k]).1.sums.complete >= 0
            && v.accounts[k].1.sums.partial >= 0
}

/// Which requests have no price yet.
pub open spec fn unpriced(costs: Seq<Option<ApiCostEstimate>>) -> Seq<bool> {
    Seq::new(costs.len(), |i: int| costs[i] is None)
}

/// How many of the first `n` requests have no price yet.
pub open spec fn pending(costs: Seq<Option<ApiCostEstimate>>, n: int) -> int {
    taken_count(unpriced(costs), n)
}

/// How many requests have no price yet.
pub open spec fn pending_count(v: LedgerView) -> int {
    pending(v.costs, v.costs.len() as int)
}

/// How many requests a batch of the wanted size takes at most.
pub open spec fn batch_limit(size: int) -> int {
    clamped(size, 1, API_COST_BACKFILL_BATCH_SIZE as int)
}

/// The requests of the next batch: the first that have no price yet.
pub open spec fn next_batch(costs: Seq<Option<ApiCostEstimate>>, size: int) -> Seq<bool> {
    Seq::new(costs.len(), |i: int| costs[i] is None && pending(costs, i) < batch_limit(size))
}

/// The ledger after the taken requests were priced and added to the totals of their accounts.
pub open spec fn settled(v: LedgerView, taken: Seq<bool>) -> LedgerView {
    let n = v.rows.len() as int;
    LedgerView {
        rows: v.rows,
        costs: Seq::new(
            v.costs.len(),
            |i: int|
                if taken[i] {
                    Some(row_cost(v.rows[i]))
                } else {
                    v.costs[i]
                },
        ),
        accounts: Seq::new(
            v.accounts.len(),
            |k: int|
                (
                    v.accounts[k].0,
                    if account_counts(v.rows, taken, v.accounts[k].0, n) {
                        grown(
                            v.accounts[k].1,
                            account_delta(v.rows, taken, v.accounts[k].0, n),
                        )
                    } else {
                        v.accounts[k].1
                    },
                ),
        ),
    }
}

/// Whether all sums of pricing the taken requests can be stored.
pub open spec fn can_settle(v: LedgerView, taken: Seq<bool>) -> bool {
    let n = v.rows.len() as int;
    &&& forall|a: u128| fits(#[trigger] account_delta(v.rows, taken, a, n))
    &&& forall|k: int|
        0 <= k < v.accounts.len() ==> fits(
            delta_sum(
                (#[trigger] v.accounts[k]).1.sums,
                account_delta(v.rows, taken, v.accounts[k].0, n),
            ),
        )
}

/// Whether the totals of all accounts can be stored.
pub open spec fn stored(v: LedgerView) -> bool {
    forall|k: int| 0 <= k < v.accounts.len() ==> fits((#[trigger] v.accounts[k]).1.sums)
}

/// The ledger after the next batch.
pub open spec fn after_batch(v: LedgerView, size: int) -> LedgerView {
    settled(v, next_batch(v.costs, size))
}

/// The ledger after so many full batches.
pub open spec fn after_batches(v: LedgerView, k: nat) -> LedgerView
    decreases k,
{
    if k == 0 {
        v
    } else {
        after_batch(after_batches(v, (k - 1) as nat), API_COST_BACKFILL_BATCH_SIZE as int)
    }
}

/// Whether the sums of the batch that follows so many full batches can be stored.
pub open spec fn batch_fits(v: LedgerView, k: nat) -> bool {
    can_settle(
        after_batches(v, k),
        next_batch(after_batches(v, k).costs, API_COST_BACKFILL_BATCH_SIZE as int),
    )
}

/// The ledger with all requests priced.
pub open spec fn all_priced(v: LedgerView) -> LedgerView {
    settled(v, unpriced(v.costs))
}

impl CostTotals {
    fn with_delta(&self, delta: &ApiCostAggregateDelta) -> (r: Result<CostTotals, AppError>)
        requires
            is_natural(delta@),
            self@.sums.complete >= 0,
            self@.sums.partial >= 0,
        ensures
            match r {
                Ok(t) => t@ == grown(self@, delta@),
                Err(e) => !fits(delta_sum(self@.sums, delta@)) && e@ == (
                    AppErrorKind::Internal,
                    overflow_text(),
                ),
            },
    {
        let mut sums = self.sums;
        if let Err(e) = checked_accumulate(
            &mut sums.cached_input_tokens,
            delta.cached_input_tokens,
        ) {
            return Err(e);
        }
        if let Err(e) = checked_accumulate(
            &mut sums.observed_cache_write_input_tokens,
            delta.observed_cache_write_input_tokens,
        ) {
            return Err(e);
        }
        if let Err(e) = checked_accumulate(&mut sums.lower_nano_usd, delta.lower_nano_usd) {
            return Err(e);
        }
        if let Err(e) = checked_accumulate(&mut sums.upper_nano_usd, delta.upper_nano_usd) {
            return Err(e);
        }
        if let Err(e) = checked_accumulate(&mut sums.complete_requests, delta.complete_requests) {
            return Err(e);
        }
        if let Err(e) = checked_accumulate(&mut sums.partial_requests, delta.partial_requests) {
            return Err(e);
        }
        let unpriced_requests = unpriced_after(
            self.request_count,
            sums.complete_requests,
            sums.partial_requests,
        );
        Ok(CostTotals { request_count: self.request_count, sums, unpriced_requests })
    }
}

fn delta_for(deltas: &Vec<(u128, ApiCostAggregateDelta)>, account: u128) -> (r: Option<usize>)
    ensures
        match r {
            Some(i) => i < deltas.len() && deltas@[i as int].0 == account,
            None => !has_entry(deltas@, account),
        },
{
    let mut i: usize = 0;
    while i < deltas.len()
        invariant
            i <= deltas.len(),
            forall|j: int| 0 <= j < i ==> (#[trigger] deltas@[j]).0 != account,
        decreases deltas.len() - i,
    {
        if deltas[i].0 == account {
            return Some(i);
        }
        i += 1;
    }
    None
}

impl RequestLedger {
    /// The costs after the taken requests were priced.
    fn priced_costs(&self, taken: &Vec<bool>) -> (r: Vec<Option<ApiCostEstimate>>)
        requires
            sound(self@),
            taken.len() == self.rows.len(),
        ensures
            r@ == settled(self@, taken@).costs,
    {
        let mut costs: Vec<Option<ApiCostEstimate>> = Vec::new();
        let mut i: usize = 0;
        while i < self.rows.len()
            invariant
                i <= self.rows.len(),
                sound(self@),
                taken.len() == self.rows.len(),
                costs@ == settled(self@, taken@).costs.take(i as int),
            decreases self.rows.len() - i,
        {
            if taken[i] {
                costs.push(Some(self.rows[i].cost()));
            } else {
                costs.push(self.costs[i]);
            }
            i += 1;
            assert(costs@ =~= settled(self@, taken@).costs.take(i as int));
        }
        assert(costs@ =~= settled(self@, taken@).costs);
        costs
    }

    /// The accounts with what the taken requests add to their totals.
    fn grown_accounts(
        &self,
        taken: &Vec<bool>,
        deltas: &Vec<(u128, ApiCostAggregateDelta)>,
    ) -> (r: Result<Vec<(u128, CostTotals)>, AppError>)
        requires
            sound(self@),
            taken.len() == self.rows.len(),
            forall|i: int|
                0 <= i < deltas.len() ==> account_counts(
                    self.rows@,
                    taken@,
                    (#[trigger] deltas@[i]).0,
                    self.rows.len() as int,
                ) && deltas@[i].1@ == account_delta(
                    self.rows@,
                    taken@,
                    deltas@[i].0,
                    self.rows.len() as int,
                ),
            forall|a: u128| #[trigger]
                account_counts(self.rows@, taken@, a, self.rows.len() as int) ==> has_entry(
                    deltas@,
                    a,
                ),
        ensures
            match r {
                Ok(accounts) => Seq::new(
                    accounts@.len(),
                    |k: int| (accounts@[k].0, accounts@[k].1@),
                ) == settled(self@, taken@).accounts,
                Err(e) => !can_settle(self@, taken@) && e@ == (
                    AppErrorKind::Internal,
                    overflow_text(),
                ),
            },
    {
        let ghost wanted = settled(self@, taken@).accounts;
        let ghost n = self.rows.len() as int;
        let mut accounts: Vec<(u128, CostTotals)> = Vec::new();
        let mut k: usize = 0;
        while k < self.accounts.len()
            invariant
                k <= self.accounts.len(),
                accounts.len() == k,
                sound(self@),
                taken.len() == self.rows.len(),
                wanted == settled(self@, taken@).accounts,
                n == self.rows.len(),
                forall|i: int|
                    0 <= i < deltas.len() ==> account_counts(
                        self.rows@,
                        taken@,
                        (#[trigger] deltas@[i]).0,
                        n,
                    ) && deltas@[i].1@ == account_delta(self.rows@, taken@, deltas@[i].0, n),
                forall|a: u128| #[trigger]
                    account_counts(self.rows@, taken@, a, n) ==> has_entry(deltas@, a),
                forall|j: int|
                    0 <= j < k ==> (#[trigger] accounts@[j]).0 == wanted[j].0 && accounts@[j].1@
                        == wanted[j].1,
            decreases self.accounts.len() - k,
        {
            let (account, totals) = self.accounts[k];
            assert(self@.accounts[k as int] == (account, totals@));
            match delta_for(deltas, account) {
                Some(i) => {
                    proof {
                        assert(account_counts(self.rows@, taken@, deltas@[i as int].0, n));
                        deltas_grow(self.rows@, taken@, account, n, n);
                    }
                    match totals.with_delta(&deltas[i].1) {
                        Ok(sum) => accounts.push((account, sum)),
                        Err(e) => return Err(e),
                    }
                },
                None => {
                    accounts.push((account, totals));
                },
            }
            k += 1;
        }
        assert(Seq::new(accounts@.len(), |j: int| (accounts@[j].0, accounts@[j].1@)) =~= wanted);
        Ok(accounts)
    }

    /// Prices the taken requests and adds them to the totals of their accounts; all of it or, where a
    /// sum cannot be stored, nothing. Returns how many were priced.
    pub fn settle(&mut self, taken: &Vec<bool>) -> (r: Result<u64, AppError>)
        requires
            sound(old(self)@),
            taken.len() == old(self).rows.len(),
            forall|i: int| 0 <= i < taken.len() && #[trigger] taken@[i] ==> old(self).costs@[i] is None,
        ensures
            sound(final(self)@),
            match r {
                Ok(updated) => {
                    &&& can_settle(old(self)@, taken@)
                    &&& final(self)@ == settled(old(self)@, taken@)
                    &&& updated == taken_count(taken@, taken@.len() as int)
                },
                Err(e) => {
                    &&& !can_settle(old(self)@, taken@)
                    &&& final(self)@ == old(self)@
                    &&& e@ == (AppErrorKind::Internal, overflow_text())
                },
            },
    {
        let totals = match backfill_totals(&self.rows, taken) {
            Ok(totals) => totals,
            Err(e) => return Err(e),
        };
        let accounts = match self.grown_accounts(taken, &totals.deltas) {
            Ok(accounts) => accounts,
            Err(e) => return Err(e),
        };
        let costs = self.priced_costs(taken);
        let ghost before = self@;
        let ghost kept = self.accounts@;
        self.costs = costs;
        self.accounts = accounts;
        proof {
            assert(self@.accounts =~= settled(before, taken@).accounts);
            assert(self@ == settled(before, taken@));
            let n = before.rows.len() as int;
            settling_is_sound(before, taken@);
            assert forall|a: u128| fits(#[trigger] account_delta(before.rows, taken@, a, n)) by {
                if account_counts(before.rows, taken@, a, n) {
                    assert(has_entry(totals.deltas@, a));
                    let i = choose|i: int|
                        0 <= i < totals.deltas@.len() && (#[trigger] totals.deltas@[i]).0 == a;
                    assert(totals.deltas@[i].1@ == account_delta(before.rows, taken@, a, n));
                } else {
                    uncounted_is_nothing(before.rows, taken@, a, n);
                }
            }
            assert forall|k: int| 0 <= k < before.accounts.len() implies fits(
                delta_sum(
                    (#[trigger] before.accounts[k]).1.sums,
                    account_delta(before.rows, taken@, before.accounts[k].0, n),
                ),
            ) by {
                let a = before.accounts[k].0;
                assert(before.accounts[k] == (kept[k].0, kept[k].1@));
                assert(self@.accounts[k] == (self.accounts@[k].0, self.accounts@[k].1@));
                if !account_counts(before.rows, taken@, a, n) {
                    uncounted_is_nothing(before.rows, taken@, a, n);
                }
            }
        }
        Ok(totals.batch.updated)
    }
}

proof fn settling_is_sound(v: LedgerView, taken: Seq<bool>)
    requires
        sound(v),
    ensures
        sound(settled(v, taken)),
{
    let w = settled(v, taken);
    let n = v.rows.len() as int;
    assert forall|k: int| 0 <= k < w.accounts.len() implies (
    #[trigger] w.accounts[k]).1.sums.complete >= 0 && w.accounts[k].1.sums.partial >= 0 by {
        assert(v.accounts[k].1.sums.complete >= 0 && v.accounts[k].1.sums.partial >= 0);
        deltas_grow(v.rows, taken, v.accounts[k].0, n, n);
    }
}

proof fn count_is_bounded(taken: Seq<bool>, n: int)
    ensures
        0 <= taken_count(taken, n),
        n >= 0 ==> taken_count(taken, n) <= n,
    decreases n,
{
    if n > 0 {
        count_is_bounded(taken, n - 1);
    }
}

/// A batch takes as many requests as it may, or all that are left.
proof fn batch_count(costs: Seq<Option<ApiCostEstimate>>, size: int, n: int)
    requires
        0 <= n <= costs.len(),
    ensures
        taken_count(next_batch(costs, size), n) == if pending(costs, n) < batch_limit(size) {
            pending(costs, n)
        } else {
            batch_limit(size)
        },
    decreases n,
{
    if n > 0 {
        batch_count(costs, size, n - 1);
        assert(next_batch(costs, size)[n - 1] == (costs[n - 1] is None && pending(costs, n - 1)
            < batch_limit(size)));
        assert(unpriced(costs)[n - 1] == costs[n - 1] is None);
    }
}

/// What was priced is no longer pending.
proof fn pending_after(v: LedgerView, taken: Seq<bool>, n: int)
    requires
        sound(v),
        taken.len() == v.costs.len(),
        0 <= n <= v.costs.len(),
        forall|i: int| 0 <= i < taken.len() && #[trigger] taken[i] ==> v.costs[i] is None,
    ensures
        pending(settled(v, taken).costs, n) == pending(v.costs, n) - taken_count(taken, n),
    decreases n,
{
    if n > 0 {
        pending_after(v, taken, n - 1);
        let w = settled(v, taken);
        assert(unpriced(w.costs)[n - 1] == w.costs[n - 1] is None);
        assert(unpriced(v.costs)[n - 1] == v.costs[n - 1] is None);
        assert(taken[n - 1] ==> v.costs[n - 1] is None);
    }
}

/// Where no request is left, every request has its price.
proof fn none_pending(costs: Seq<Option<ApiCostEstimate>>, n: int, i: int)
    requires
        0 <= i < n <= costs.len(),
        pending(costs, n) == 0,
    ensures
        costs[i] is Some,
    decreases n,
{
    count_is_bounded(unpriced(costs), n - 1);
    assert(unpriced(costs)[n - 1] == costs[n - 1] is None);
    if i < n - 1 {
        none_pending(costs, n - 1, i);
    }
}

proof fn nothing_taken(v: LedgerView, taken: Seq<bool>)
    requires
        sound(v),
        taken.len() == v.costs.len(),
        forall|i: int| 0 <= i < taken.len() ==> !#[trigger] taken[i],
    ensures
        settled(v, taken) == v,
        forall|a: u128| #[trigger]
            account_delta(v.rows, taken, a, v.rows.len() as int) == no_delta(),
{
    let n = v.rows.len() as int;
    assert forall|a: u128| !#[trigger] account_counts(v.rows, taken, a, n) by {
        if account_counts(v.rows, taken, a, n) {
            let i = choose|i: int| 0 <= i < n && counts_for(v.rows, taken, a, i);
            assert(taken[i]);
        }
    }
    assert forall|a: u128| #[trigger] account_delta(v.rows, taken, a, n) == no_delta() by {
        uncounted_is_nothing(v.rows, taken, a, n);
    }
    assert(settled(v, taken).costs =~= v.costs);
    assert(settled(v, taken).accounts =~= v.accounts);
}

/// Requests that are taken apart add up to what they add together.
proof fn parts_add_up(
    rows: Seq<PendingApiCostRow>,
    a: Seq<bool>,
    b: Seq<bool>,
    both: Seq<bool>,
    account: u128,
    n: int,
)
    requires
        0 <= n,
        forall|i: int|
            0 <= i < n ==> (#[trigger] both[i] == (a[i] || b[i])) && !(a[i] && b[i]),
    ensures
        account_delta(rows, both, account, n) == delta_sum(
            account_delta(rows, a, account, n),
            account_delta(rows, b, account, n),
        ),
        account_counts(rows, both, account, n) <==> account_counts(rows, a, account, n)
            || account_counts(rows, b, account, n),
    decreases n,
{
    if n > 0 {
        parts_add_up(rows, a, b, both, account, n - 1);
        assert(both[n - 1] == (a[n - 1] || b[n - 1]));
        counts_with_last(rows, a, account, n);
        counts_with_last(rows, b, account, n);
        counts_with_last(rows, both, account, n);
    }
}

proof fn counts_with_last(rows: Seq<PendingApiCostRow>, taken: Seq<bool>, account: u128, n: int)
    requires
        0 < n,
    ensures
        account_counts(rows, taken, account, n) <==> account_counts(rows, taken, account, n - 1)
            || counts_for(rows, taken, account, n - 1),
{
    if account_counts(rows, taken, account, n) {
        let i = choose|i: int| 0 <= i < n && counts_for(rows, taken, account, i);
        if i < n - 1 {
            assert(0 <= i < n - 1 && counts_for(rows, taken, account, i));
        }
    }
    if account_counts(rows, taken, account, n - 1) {
        let i = choose|i: int| 0 <= i < n - 1 && counts_for(rows, taken, account, i);
        assert(0 <= i < n && counts_for(rows, taken, account, i));
    }
    if counts_for(rows, taken, account, n - 1) {
        assert(0 <= n - 1 < n && counts_for(rows, taken, account, n - 1));
    }
}

/// Pricing some requests and then all that are left comes to pricing all.
proof fn rest_completes(v: LedgerView, taken: Seq<bool>)
    requires
        sound(v),
        taken.len() == v.costs.len(),
        forall|i: int| 0 <= i < taken.len() && #[trigger] taken[i] ==> v.costs[i] is None,
    ensures
        all_priced(settled(v, taken)) == all_priced(v),
{
    let w = settled(v, taken);
    let n = v.rows.len() as int;
    let (rest, all) = (unpriced(w.costs), unpriced(v.costs));
    assert forall|i: int| 0 <= i < n implies (#[trigger] all[i] == (taken[i] || rest[i])) && !(
    taken[i] && rest[i]) by {
        assert(taken[i] ==> v.costs[i] is None);
    }
    assert forall|k: int| 0 <= k < v.accounts.len() implies (#[trigger] all_priced(w).accounts[k])
        == all_priced(v).accounts[k] by {
        let a = v.accounts[k].0;
        parts_add_up(v.rows, taken, rest, all, a, n);
        if !account_counts(v.rows, taken, a, n) {
            uncounted_is_nothing(v.rows, taken, a, n);
        }
        if !account_counts(v.rows, rest, a, n) {
            uncounted_is_nothing(v.rows, rest, a, n);
        }
    }
    assert(all_priced(w).costs =~= all_priced(v).costs) by {
        assert forall|i: int| 0 <= i < n implies all_priced(w).costs[i] == all_priced(v).costs[i] by {
            assert(all[i] == (taken[i] || rest[i]));
        }
    }
    assert(all_priced(w).accounts =~= all_priced(v).accounts);
}

/// Which requests the next batch takes.
fn batch_mask(costs: &Vec<Option<ApiCostEstimate>>, size: i64) -> (r: Vec<bool>)
    ensures
        r@ == next_batch(costs@, size as int),
{
    let limit: i64 = clamp(size, 1, API_COST_BACKFILL_BATCH_SIZE);
    let mut taken: Vec<bool> = Vec::new();
    let mut seen: i64 = 0;
    let mut i: usize = 0;
    while i < costs.len()
        invariant
            i <= costs.len(),
            limit == batch_limit(size as int),
            1 <= limit <= 500,
            0 <= seen <= limit,
            seen == if pending(costs@, i as int) < limit {
                pending(costs@, i as int)
            } else {
                limit as int
            },
            taken@ == next_batch(costs@, size as int).take(i as int),
        decreases costs.len() - i,
    {
        let free = costs[i].is_none();
        assert(unpriced(costs@)[i as int] == free);
        taken.push(free && seen < limit);
        if free && seen < limit {
            seen += 1;
        }
        i += 1;
        assert(taken@ =~= next_batch(costs@, size as int).take(i as int));
    }
    assert(taken@ =~= next_batch(costs@, size as int));
    taken
}

/// Prices the next requests that have no price yet: the wanted number of them, at least one and at
/// most what a batch may hold. Where a sum cannot be stored nothing changes.
pub fn backfill_api_costs_batch(ledger: &mut RequestLedger, batch_size: i64) -> (r: Result<
    ApiCostBackfillBatch,
    AppError,
>)
    requires
        sound(old(ledger)@),
    ensures
        sound(final(ledger)@),
        match r {
            Ok(batch) => {
                &&& can_settle(old(ledger)@, next_batch(old(ledger)@.costs, batch_size as int))
                &&& final(ledger)@ == after_batch(old(ledger)@, batch_size as int)
                &&& batch.selected == batch.updated
                &&& batch.updated == if pending_count(old(ledger)@) < batch_limit(
                    batch_size as int,
                ) {
                    pending_count(old(ledger)@)
                } else {
                    batch_limit(batch_size as int)
                }
            },
            Err(e) => {
                &&& !can_settle(old(ledger)@, next_batch(old(ledger)@.costs, batch_size as int))
                &&& final(ledger)@ == old(ledger)@
                &&& e@ == (AppErrorKind::Internal, overflow_text())
            },
        },
{
    let taken = batch_mask(&ledger.costs, batch_size);
    proof {
        batch_count(ledger@.costs, batch_size as int, ledger@.costs.len() as int);
    }
    match ledger.settle(&taken) {
        Ok(updated) => Ok(ApiCostBackfillBatch { selected: updated, updated }),
        Err(e) => Err(e),
    }
}

proof fn batch_progress(v: LedgerView, size: int)
    requires
        sound(v),
    ensures
        sound(after_batch(v, size)),
        pending_count(after_batch(v, size)) == pending_count(v) - taken_count(
            next_batch(v.costs, size),
            v.costs.len() as int,
        ),
        all_priced(after_batch(v, size)) == all_priced(v),
        pending_count(v) == 0 ==> after_batch(v, size) == v && all_priced(v) == v,
        pending_count(v) == 0 && stored(v) ==> can_settle(v, next_batch(v.costs, size)),
{
    let taken = next_batch(v.costs, size);
    let n = v.costs.len() as int;
    settling_is_sound(v, taken);
    pending_after(v, taken, n);
    rest_completes(v, taken);
    if pending_count(v) == 0 {
        assert forall|i: int| 0 <= i < n implies !#[trigger] taken[i] && !unpriced(v.costs)[i] by {
            none_pending(v.costs, n, i);
        }
        nothing_taken(v, taken);
        nothing_taken(v, unpriced(v.costs));
    }
}

proof fn idle_batches(v: LedgerView, k: nat, j: nat)
    requires
        sound(after_batches(v, k)),
        stored(after_batches(v, k)),
        pending_count(after_batches(v, k)) == 0,
        k <= j,
    ensures
        after_batches(v, j) == after_batches(v, k),
        batch_fits(v, j),
    decreases j,
{
    batch_progress(after_batches(v, k), API_COST_BACKFILL_BATCH_SIZE as int);
    if k < j {
        idle_batches(v, k, (j - 1) as nat);
    }
}

/// Prices all requests that have no price yet, batch by batch, and returns how many. Where a sum of a
/// batch cannot be stored, the batches before it stay.
pub fn backfill_api_costs(ledger: &mut RequestLedger) -> (r: Result<u64, AppError>)
    requires
        sound(old(ledger)@),
    ensures
        sound(final(ledger)@),
        match r {
            Ok(total) => {
                &&& forall|k: nat| #[trigger] batch_fits(old(ledger)@, k)
                &&& total == pending_count(old(ledger)@)
                &&& final(ledger)@ == all_priced(old(ledger)@)
            },
            Err(e) => {
                &&& exists|k: nat|
                    final(ledger)@ == after_batches(old(ledger)@, k) && !#[trigger] batch_fits(
                        old(ledger)@,
                        k,
                    ) && forall|j: nat| j < k ==> #[trigger] batch_fits(old(ledger)@, j)
                &&& e@ == (AppErrorKind::Internal, overflow_text())
            },
        },
{
    let ghost start = ledger@;
    let ghost mut k: nat = 0;
    let mut total: u64 = 0;
    loop
        invariant
            start == old(ledger)@,
            sound(ledger@),
            ledger@ == after_batches(start, k),
            forall|j: nat| j < k ==> #[trigger] batch_fits(start, j),
            all_priced(ledger@) == all_priced(start),
            total + pending_count(ledger@) == pending_count(start),
            start.costs.len() == ledger.costs.len(),
        decreases pending_count(ledger@),
    {
        let ghost before = ledger@;
        proof {
            count_is_bounded(unpriced(start.costs), start.costs.len() as int);
            count_is_bounded(unpriced(before.costs), before.costs.len() as int);
            batch_progress(before, API_COST_BACKFILL_BATCH_SIZE as int);
            batch_count(
                before.costs,
                API_COST_BACKFILL_BATCH_SIZE as int,
                before.costs.len() as int,
            );
        }
        let batch = match backfill_api_costs_batch(ledger, API_COST_BACKFILL_BATCH_SIZE) {
            Ok(batch) => batch,
            Err(e) => {
                assert(!batch_fits(start, k));
                return Err(e);
            },
        };
        if batch.selected == 0 {
            proof {
                assert(stored(before));
                assert forall|j: nat| #[trigger] batch_fits(start, j) by {
                    if j >= k {
                        idle_batches(start, k, j);
                    }
                }
            }
            return Ok(total);
        }
        assert(batch_fits(start, k));
        proof {
            k = k + 1;
            assert(ledger@ == after_batches(start, k));
        }
        match backfill_count(total, batch) {
            Ok(sum) => {
                total = sum;
            },
            Err(e) => {
                return Err(e);
            },
        }
    }
}

/// A backfill prices every request that has no price yet by the model that served it, else by the one
/// asked for, and leaves the others and the requests themselves as they are.
pub proof fn a_backfill_prices_every_request(v: LedgerView, i: int)
    requires
        sound(v),
        0 <= i < v.costs.len(),
    ensures
        ({
            let w = all_priced(v);
            &&& w.rows == v.rows
            &&& w.costs.len() == v.costs.len()
            &&& v.costs[i] is None ==> w.costs[i] == Some(row_cost(v.rows[i]))
            &&& v.costs[i] is Some ==> w.costs[i] == v.costs[i]
            &&& pending_count(w) == 0
        }),
{
    pending_after(v, unpriced(v.costs), v.costs.len() as int);
}

/// A second backfill finds no request to price, runs through and changes nothing.
pub proof fn a_second_backfill_changes_nothing(v: LedgerView, k: nat)
    requires
        sound(v),
        stored(all_priced(v)),
    ensures
        sound(all_priced(v)),
        pending_count(all_priced(v)) == 0,
        all_priced(all_priced(v)) == all_priced(v),
        batch_fits(all_priced(v), k),
{
    let w = all_priced(v);
    settling_is_sound(v, unpriced(v.costs));
    pending_after(v, unpriced(v.costs), v.costs.len() as int);
    batch_progress(w, API_COST_BACKFILL_BATCH_SIZE as int);
    assert(after_batches(w, 0) == w);
    idle_batches(w, 0, k);
}

/// Batches of any size, left off and taken up again, come to the same as one backfill.
pub proof fn batches_come_to_one_backfill(v: LedgerView, size: int)
    requires
        sound(v),
    ensures
        sound(after_batch(v, size)),
        all_priced(after_batch(v, size)) == all_priced(v),
        pending_count(v) > 0 ==> pending_count(after_batch(v, size)) < pending_count(v),
{
    batch_progress(v, size);
    batch_count(v.costs, size, v.costs.len() as int);
}

proof fn parts_can_settle(v: LedgerView, taken: Seq<bool>)
    requires
        sound(v),
        taken.len() == v.costs.len(),
        forall|i: int| 0 <= i < taken.len() && #[trigger] taken[i] ==> v.costs[i] is None,
        can_settle(v, unpriced(v.costs)),
    ensures
        can_settle(v, taken),
        can_settle(settled(v, taken), unpriced(settled(v, taken).costs)),
{
    let w = settled(v, taken);
    let n = v.rows.len() as int;
    let (rest, all) = (unpriced(w.costs), unpriced(v.costs));
    assert forall|i: int| 0 <= i < n implies (#[trigger] all[i] == (taken[i] || rest[i])) && !(
    taken[i] && rest[i]) by {
        assert(taken[i] ==> v.costs[i] is None);
    }
    assert forall|a: u128|
        #![trigger account_delta(v.rows, taken, a, n)]
        #![trigger account_delta(v.rows, rest, a, n)]
        {
            &&& account_delta(v.rows, all, a, n) == delta_sum(
                account_delta(v.rows, taken, a, n),
                account_delta(v.rows, rest, a, n),
            )
            &&& is_natural(account_delta(v.rows, taken, a, n))
            &&& is_natural(account_delta(v.rows, rest, a, n))
            &&& fits(account_delta(v.rows, all, a, n))
        } by {
        parts_add_up(v.rows, taken, rest, all, a, n);
        deltas_grow(v.rows, taken, a, n, n);
        deltas_grow(v.rows, rest, a, n, n);
    }
    assert forall|k: int| 0 <= k < w.accounts.len() implies fits(
        delta_sum(
            (#[trigger] w.accounts[k]).1.sums,
            account_delta(w.rows, rest, w.accounts[k].0, n),
        ),
    ) by {
        let a = v.accounts[k].0;
        assert(fits(delta_sum(v.accounts[k].1.sums, account_delta(v.rows, all, a, n))));
        assert(is_natural(account_delta(v.rows, taken, a, n)));
    }
}

/// A backfill runs through wherever the sums over all requests without a price can be stored.
pub proof fn a_backfill_succeeds_where_sums_fit(v: LedgerView, k: nat)
    requires
        sound(v),
        can_settle(v, unpriced(v.costs)),
    ensures
        batch_fits(v, k),
        sound(after_batches(v, k)),
        can_settle(after_batches(v, k), unpriced(after_batches(v, k).costs)),
    decreases k,
{
    let w = after_batches(v, k);
    if k > 0 {
        let less = (k - 1) as nat;
        let before = after_batches(v, less);
        a_backfill_succeeds_where_sums_fit(v, less);
        let taken = next_batch(before.costs, API_COST_BACKFILL_BATCH_SIZE as int);
        settling_is_sound(before, taken);
        parts_can_settle(before, taken);
    }
    parts_can_settle(w, next_batch(w.costs, API_COST_BACKFILL_BATCH_SIZE as int));
}

/// The totals of an account grow by what its requests add, counter by counter; its requests stay as
/// many, and those that are still without a price are what is left.
pub proof fn totals_grow_by_their_delta(t: TotalsView, d: DeltaView)
    ensures
        grown(t, d).requests == t.requests,
        grown(t, d).sums.cached == t.sums.cached + d.cached,
        grown(t, d).sums.written == t.sums.written + d.written,
        grown(t, d).sums.lower == t.sums.lower + d.lower,
        grown(t, d).sums.upper == t.sums.upper + d.upper,
        grown(t, d).sums.complete == t.sums.complete + d.complete,
        grown(t, d).sums.partial == t.sums.partial + d.partial,
        t.requests >= t.sums.complete + d.complete + t.sums.partial + d.partial ==> grown(
            t,
            d,
        ).unpriced == t.requests - (t.sums.complete + d.complete) - (t.sums.partial + d.partial),
{
}

/// Settling prices the requests that are taken and no others, and leaves accounts without such a request
/// as they are.
pub proof fn only_taken_requests_are_priced(v: LedgerView, taken: Seq<bool>, i: int, k: int)
    requires
        v.rows.len() == v.costs.len(),
        taken.len() == v.rows.len(),
        0 <= i < v.costs.len(),
    ensures
        taken[i] ==> settled(v, taken).costs[i] == Some(row_cost(v.rows[i])),
        !taken[i] ==> settled(v, taken).costs[i] == v.costs[i],
        settled(v, taken).rows == v.rows,
        0 <= k < v.accounts.len() ==> settled(v, taken).accounts[k].0 == v.accounts[k].0,
        0 <= k < v.accounts.len() && (forall|j: int|
            0 <= j < taken.len() && #[trigger] taken[j] ==> v.rows[j].account_id != Some(
                v.accounts[k].0,
            )) ==> settled(v, taken).accounts[k].1 == v.accounts[k].1,
{
    if 0 <= k < v.accounts.len() && (forall|j: int|
        0 <= j < taken.len() && #[trigger] taken[j] ==> v.rows[j].account_id != Some(
            v.accounts[k].0,
        )) {
        assert(!account_counts(v.rows, taken, v.accounts[k].0, v.rows.len() as int));
    }
}

/// A batch takes the first requests without a price, 500 of them at most and one at least.
pub proof fn batches_take_the_first(costs: Seq<Option<ApiCostEstimate>>, size: int, i: int)
    requires
        0 <= i < costs.len(),
    ensures
        1 <= batch_limit(size) <= 500,
        1 <= size <= 500 ==> batch_limit(size) == size,
        costs[i] is Some ==> !next_batch(costs, size)[i],
        costs[i] is None ==> (next_batch(costs, size)[i] <==> pending(costs, i) < batch_limit(
            size,
        )),
{
}

} // verus!
