//! What a finished request adds to its account's totals, and filling in the costs of older ones.
use vstd::prelude::*;
use crate::error::{AppError, AppErrorKind, internal};
use crate::json::opt_text;
use crate::models::{UsageData, UsageView};
use crate::pricing::{
    ApiCostEstimate, ApiCostStatus, estimate_standard_api_cost, estimated,
    priced_estimates_have_bounds,
};
use crate::text::same;

verus! {

/// How many stored requests are priced at once.
pub const API_COST_BACKFILL_BATCH_SIZE: i64 = 500;

#[derive(Debug, Default, Clone, Copy, PartialEq, Eq, Structural)]
pub struct ApiCostBackfillBatch {
    pub selected: u64,
    pub updated: u64,
}

/// What one request adds to the totals of its account.
#[derive(Debug, Clone, Copy, PartialEq, Eq, Structural)]
pub struct RequestTotals {
    pub requests: i64,
    pub successful: i64,
    pub failed: i64,
    pub input_tokens: i64,
    pub output_tokens: i64,
    pub cached_input_tokens: i64,
    pub cache_write_input_tokens: i64,
    pub lower_nano_usd: i64,
    pub upper_nano_usd: i64,
    pub complete: i64,
    pub partial: i64,
    pub unpriced: i64,
}

pub open spec fn or_zero(n: Option<i64>) -> i64 {
    match n {
        Some(v) => v,
        None => 0,
    }
}

/// A counter that is never negative.
pub open spec fn natural(n: Option<i64>) -> i64 {
    if or_zero(n) < 0 {
        0
    } else {
        or_zero(n)
    }
}

/// The model that a request is priced by: the one that served it, else the one asked for.
pub open spec fn priced_model(model: Option<Seq<char>>, usage: UsageView) -> Option<Seq<char>> {
    match usage.model {
        Some(name) => Some(name),
        None => model,
    }
}

pub open spec fn totals_of(
    status: Seq<char>,
    model: Option<Seq<char>>,
    usage: UsageView,
) -> RequestTotals {
    let cost = estimated(priced_model(model, usage), usage);
    let success = status == "success"@;
    RequestTotals {
        requests: 1,
        successful: if success {
            1
        } else {
            0
        },
        failed: if success {
            0
        } else {
            1
        },
        input_tokens: or_zero(usage.input),
        output_tokens: or_zero(usage.output),
        cached_input_tokens: natural(usage.cached),
        cache_write_input_tokens: natural(usage.cache_write),
        lower_nano_usd: or_zero(cost.lower_nano_usd),
        upper_nano_usd: or_zero(cost.upper_nano_usd),
        complete: if cost.status == ApiCostStatus::Complete {
            1
        } else {
            0
        },
        partial: if cost.status == ApiCostStatus::MissingCacheWrite {
            1
        } else {
            0
        },
        unpriced: if cost.status.priced() {
            0
        } else {
            1
        },
    }
}

fn zero_or(n: Option<i64>) -> (r: i64)
    ensures
        r == or_zero(n),
{
    match n {
        Some(v) => v,
        None => 0,
    }
}

fn at_least_zero(n: Option<i64>) -> (r: i64)
    ensures
        r == natural(n),
        r >= 0,
{
    let v = zero_or(n);
    if v < 0 {
        0
    } else {
        v
    }
}

/// The cost of a request by the model that served it, else by the one asked for.
pub fn request_cost(model: Option<&str>, usage: &UsageData) -> (r: ApiCostEstimate)
    ensures
        r == estimated(priced_model(opt_text(model), usage@), usage@),
{
    match &usage.effective_model {
        Some(name) => estimate_standard_api_cost(Some(name.as_str()), usage),
        None => estimate_standard_api_cost(model, usage),
    }
}

/// The cost of a finished request, and what it adds to the totals of its account.
pub fn request_log_totals(status: &str, model: Option<&str>, usage: &UsageData) -> (r: (
    ApiCostEstimate,
    RequestTotals,
))
    ensures
        r.0 == estimated(priced_model(opt_text(model), usage@), usage@),
        r.1 == totals_of(status@, opt_text(model), usage@),
        r.1.input_tokens == match usage.input_tokens {
            Some(n) => n,
            None => 0,
        },
        r.1.output_tokens == match usage.output_tokens {
            Some(n) => n,
            None => 0,
        },
        r.1.cached_input_tokens == match usage.cached_input_tokens {
            Some(n) => if n < 0 {
                0
            } else {
                n
            },
            None => 0,
        },
        r.1.cache_write_input_tokens == match usage.cache_write_input_tokens {
            Some(n) => if n < 0 {
                0
            } else {
                n
            },
            None => 0,
        },
        r.0.lower_nano_usd matches Some(n) ==> r.1.lower_nano_usd == n,
        r.0.upper_nano_usd matches Some(n) ==> r.1.upper_nano_usd == n,
{
    let cost = request_cost(model, usage);
    let success = same(status, "success");
    let priced = cost.status.is_priced();
    let totals = RequestTotals {
        requests: 1,
        successful: if success {
            1
        } else {
            0
        },
        failed: if success {
            0
        } else {
            1
        },
        input_tokens: zero_or(usage.input_tokens),
        output_tokens: zero_or(usage.output_tokens),
        cached_input_tokens: at_least_zero(usage.cached_input_tokens),
        cache_write_input_tokens: at_least_zero(usage.cache_write_input_tokens),
        lower_nano_usd: zero_or(cost.lower_nano_usd),
        upper_nano_usd: zero_or(cost.upper_nano_usd),
        complete: if cost.status == ApiCostStatus::Complete {
            1
        } else {
            0
        },
        partial: if cost.status == ApiCostStatus::MissingCacheWrite {
            1
        } else {
            0
        },
        unpriced: if priced {
            0
        } else {
            1
        },
    };
    (cost, totals)
}

/// Every request counts once: as a success or a failure, and as priced in full, in part or not at
/// all; its lower cost bound is never above its upper one.
pub proof fn every_request_counts_once(
    status: Seq<char>,
    model: Option<Seq<char>>,
    usage: UsageView,
)
    ensures
        ({
            let t = totals_of(status, model, usage);
            &&& t.requests == 1
            &&& t.successful + t.failed == t.requests
            &&& t.complete + t.partial + t.unpriced == t.requests
            &&& 0 <= t.lower_nano_usd <= t.upper_nano_usd
            &&& t.unpriced == 1 ==> t.upper_nano_usd == 0
        }),
{
    priced_estimates_have_bounds(priced_model(model, usage), usage);
}

/// A stored request as far as its cost depends on it.
#[derive(Debug)]
pub struct PendingApiCostRow {
    pub id: i64,
    pub account_id: Option<u128>,
    pub model: Option<String>,
    pub usage: UsageData,
}

/// What a stored request costs.
pub open spec fn row_cost(row: PendingApiCostRow) -> ApiCostEstimate {
    estimated(priced_model(row.model.deep_view(), row.usage@), row.usage@)
}

impl PendingApiCostRow {
    pub fn cost(&self) -> (r: ApiCostEstimate)
        ensures
            r == row_cost(*self),
    {
        let model: Option<&str> = match &self.model {
            Some(name) => Some(name.as_str()),
            None => None,
        };
        request_cost(model, &self.usage)
    }
}

/// What priced requests add to the totals of one account.
#[derive(Debug, Default, Clone, Copy, PartialEq, Eq, Structural)]
pub struct ApiCostAggregateDelta {
    pub cached_input_tokens: i64,
    pub observed_cache_write_input_tokens: i64,
    pub lower_nano_usd: i64,
    pub upper_nano_usd: i64,
    pub complete_requests: i64,
    pub partial_requests: i64,
}

pub struct DeltaView {
    pub cached: int,
    pub written: int,
    pub lower: int,
    pub upper: int,
    pub complete: int,
    pub partial: int,
}

impl View for ApiCostAggregateDelta {
    type V = DeltaView;

    open spec fn view(&self) -> DeltaView {
        DeltaView {
            cached: self.cached_input_tokens as int,
            written: self.observed_cache_write_input_tokens as int,
            lower: self.lower_nano_usd as int,
            upper: self.upper_nano_usd as int,
            complete: self.complete_requests as int,
            partial: self.partial_requests as int,
        }
    }
}

pub open spec fn no_delta() -> DeltaView {
    DeltaView { cached: 0, written: 0, lower: 0, upper: 0, complete: 0, partial: 0 }
}

/// What one stored request adds.
pub open spec fn row_delta(row: PendingApiCostRow) -> DeltaView {
    let cost = row_cost(row);
    DeltaView {
        cached: natural(row.usage@.cached) as int,
        written: natural(row.usage@.cache_write) as int,
        lower: or_zero(cost.lower_nano_usd) as int,
        upper: or_zero(cost.upper_nano_usd) as int,
        complete: if cost.status == ApiCostStatus::Complete {
            1
        } else {
            0
        },
        partial: if cost.status == ApiCostStatus::MissingCacheWrite {
            1
        } else {
            0
        },
    }
}

pub open spec fn delta_sum(a: DeltaView, b: DeltaView) -> DeltaView {
    DeltaView {
        cached: a.cached + b.cached,
        written: a.written + b.written,
        lower: a.lower + b.lower,
        upper: a.upper + b.upper,
        complete: a.complete + b.complete,
        partial: a.partial + b.partial,
    }
}

/// Whether all totals can be stored.
pub open spec fn fits(d: DeltaView) -> bool {
    &&& d.cached <= i64::MAX
    &&& d.written <= i64::MAX
    &&& d.lower <= i64::MAX
    &&& d.upper <= i64::MAX
    &&& d.complete <= i64::MAX
    &&& d.partial <= i64::MAX
}

pub open spec fn is_natural(d: DeltaView) -> bool {
    d.cached >= 0 && d.written >= 0 && d.lower >= 0 && d.upper >= 0 && d.complete >= 0 && d.partial
        >= 0
}

pub open spec fn overflow_text() -> Seq<char> {
    "API cost backfill aggregate overflowed"@
}

/// Adds to a total, refused where the sum cannot be stored.
pub fn checked_accumulate(total: &mut i64, value: i64) -> (r: Result<(), AppError>)
    ensures
        match r {
            Ok(_) => *final(total) == *old(total) + value,
            Err(e) => *final(total) == *old(total) && !(i64::MIN <= *old(total) + value
                <= i64::MAX) && e@ == (AppErrorKind::Internal, overflow_text()),
        },
{
    match total.checked_add(value) {
        Some(sum) => {
            *total = sum;
            Ok(())
        },
        None => Err(internal("API cost backfill aggregate overflowed")),
    }
}

impl ApiCostAggregateDelta {
    fn zero() -> (r: Self)
        ensures
            r@ == no_delta(),
    {
        ApiCostAggregateDelta {
            cached_input_tokens: 0,
            observed_cache_write_input_tokens: 0,
            lower_nano_usd: 0,
            upper_nano_usd: 0,
            complete_requests: 0,
            partial_requests: 0,
        }
    }

    /// The totals with one more request, refused where a sum cannot be stored.
    fn added(&self, row: &PendingApiCostRow) -> (r: Result<ApiCostAggregateDelta, AppError>)
        requires
            is_natural(self@),
        ensures
            match r {
                Ok(sum) => sum@ == delta_sum(self@, row_delta(*row)) && is_natural(sum@),
                Err(e) => !fits(delta_sum(self@, row_delta(*row))) && e@ == (
                    AppErrorKind::Internal,
                    overflow_text(),
                ),
            },
    {
        let cost = row.cost();
        proof {
            priced_estimates_have_bounds(
                priced_model(row.model.deep_view(), row.usage@),
                row.usage@,
            );
        }
        let mut sum = ApiCostAggregateDelta {
            cached_input_tokens: self.cached_input_tokens,
            observed_cache_write_input_tokens: self.observed_cache_write_input_tokens,
            lower_nano_usd: self.lower_nano_usd,
            upper_nano_usd: self.upper_nano_usd,
            complete_requests: self.complete_requests,
            partial_requests: self.partial_requests,
        };
        if let Err(e) = checked_accumulate(
            &mut sum.cached_input_tokens,
            at_least_zero(row.usage.cached_input_tokens),
        ) {
            return Err(e);
        }
        if let Err(e) = checked_accumulate(
            &mut sum.observed_cache_write_input_tokens,
            at_least_zero(row.usage.cache_write_input_tokens),
        ) {
            return Err(e);
        }
        if let Err(e) = checked_accumulate(&mut sum.lower_nano_usd, zero_or(cost.lower_nano_usd)) {
            return Err(e);
        }
        if let Err(e) = checked_accumulate(&mut sum.upper_nano_usd, zero_or(cost.upper_nano_usd)) {
            return Err(e);
        }
        let complete: i64 = if cost.status == ApiCostStatus::Complete { 1 } else { 0 };
        let partial: i64 = if cost.status == ApiCostStatus::MissingCacheWrite { 1 } else { 0 };
        if let Err(e) = checked_accumulate(&mut sum.complete_requests, complete) {
            return Err(e);
        }
        if let Err(e) = checked_accumulate(&mut sum.partial_requests, partial) {
            return Err(e);
        }
        Ok(sum)
    }
}

/// Whether the `i`th request was priced now, for the given account.
pub open spec fn counts_for(
    rows: Seq<PendingApiCostRow>,
    taken: Seq<bool>,
    account: u128,
    i: int,
) -> bool {
    taken[i] && rows[i].account_id == Some(account)
}

/// What the first `n` requests add to the totals of an account.
pub open spec fn account_delta(
    rows: Seq<PendingApiCostRow>,
    taken: Seq<bool>,
    account: u128,
    n: int,
) -> DeltaView
    decreases n,
{
    if n <= 0 {
        no_delta()
    } else if counts_for(rows, taken, account, n - 1) {
        delta_sum(account_delta(rows, taken, account, n - 1), row_delta(rows[n - 1]))
    } else {
        account_delta(rows, taken, account, n - 1)
    }
}

pub open spec fn account_counts(
    rows: Seq<PendingApiCostRow>,
    taken: Seq<bool>,
    account: u128,
    n: int,
) -> bool {
    exists|i: int| 0 <= i < n && counts_for(rows, taken, account, i)
}

pub open spec fn taken_count(taken: Seq<bool>, n: int) -> int
    decreases n,
{
    if n <= 0 {
        0
    } else {
        taken_count(taken, n - 1) + if taken[n - 1] {
            1int
        } else {
            0int
        }
    }
}

pub(crate) proof fn deltas_grow(rows: Seq<PendingApiCostRow>, taken: Seq<bool>, account: u128, n: int, m: int)
    requires
        0 <= n <= m,
    ensures
        is_natural(account_delta(rows, taken, account, n)),
        !fits(account_delta(rows, taken, account, n)) ==> !fits(
            account_delta(rows, taken, account, m),
        ),
    decreases m, n,
{
    if n < m {
        deltas_grow(rows, taken, account, n, m - 1);
        let row = rows[m - 1];
        priced_estimates_have_bounds(priced_model(row.model.deep_view(), row.usage@), row.usage@);
        deltas_grow(rows, taken, account, m - 1, m - 1);
    } else if n > 0 {
        deltas_grow(rows, taken, account, n - 1, n - 1);
        let row = rows[n - 1];
        priced_estimates_have_bounds(priced_model(row.model.deep_view(), row.usage@), row.usage@);
    }
}

/// The totals that newly priced requests add, one entry for each account that has any.
pub struct BackfillTotals {
    pub batch: ApiCostBackfillBatch,
    pub deltas: Vec<(u128, ApiCostAggregateDelta)>,
}

/// Whether an account has an entry.
pub open spec fn has_entry(deltas: Seq<(u128, ApiCostAggregateDelta)>, a: u128) -> bool {
    exists|i: int| 0 <= i < deltas.len() && (#[trigger] deltas[i]).0 == a
}

/// Adds up the requests of a batch that were priced now (`taken`), account by account.
#[verifier::spinoff_prover]
pub fn backfill_totals(rows: &Vec<PendingApiCostRow>, taken: &Vec<bool>) -> (r: Result<
    BackfillTotals,
    AppError,
>)
    requires
        taken.len() == rows.len(),
    ensures
        match r {
            Ok(t) => {
                &&& t.batch.selected == rows.len()
                &&& t.batch.updated == taken_count(taken@, rows.len() as int)
                &&& forall|i: int, j: int|
                    0 <= i < j < t.deltas.len() ==> (#[trigger] t.deltas@[i]).0 != (
                    #[trigger] t.deltas@[j]).0
                &&& forall|i: int|
                    0 <= i < t.deltas.len() ==> account_counts(
                        rows@,
                        taken@,
                        (#[trigger] t.deltas@[i]).0,
                        rows.len() as int,
                    ) && t.deltas@[i].1@ == account_delta(
                        rows@,
                        taken@,
                        t.deltas@[i].0,
                        rows.len() as int,
                    )
                &&& forall|a: u128| #[trigger]
                    account_counts(rows@, taken@, a, rows.len() as int) ==> has_entry(
                        t.deltas@,
                        a,
                    )
            },
            Err(e) => e@ == (AppErrorKind::Internal, overflow_text()) && exists|a: u128|
                !fits(#[trigger] account_delta(rows@, taken@, a, rows.len() as int)),
        },
{
    let mut deltas: Vec<(u128, ApiCostAggregateDelta)> = Vec::new();
    let mut updated: u64 = 0;
    let mut n: usize = 0;
    while n < rows.len()
        invariant
            n <= rows.len(),
            taken.len() == rows.len(),
            updated == taken_count(taken@, n as int),
            updated <= n,
            forall|i: int, j: int|
                0 <= i < j < deltas.len() ==> (#[trigger] deltas@[i]).0 != (
                #[trigger] deltas@[j]).0,
            forall|i: int|
                0 <= i < deltas.len() ==> account_counts(
                    rows@,
                    taken@,
                    (#[trigger] deltas@[i]).0,
                    n as int,
                ) && deltas@[i].1@ == account_delta(rows@, taken@, deltas@[i].0, n as int)
                    && is_natural(deltas@[i].1@),
            forall|a: u128| #[trigger]
                account_counts(rows@, taken@, a, n as int) ==> has_entry(deltas@, a),
        decreases rows.len() - n,
    {
        let ghost old_deltas = deltas@;
        proof {
            assert forall|a: u128| #[trigger]
                account_counts(rows@, taken@, a, n as int + 1) implies account_counts(
                rows@,
                taken@,
                a,
                n as int,
            ) || counts_for(rows@, taken@, a, n as int) by {
                let i = choose|i: int| 0 <= i < n + 1 && counts_for(rows@, taken@, a, i);
                if i < n {
                    assert(0 <= i < n && counts_for(rows@, taken@, a, i));
                }
            }
            assert forall|a: u128| #[trigger]
                account_counts(rows@, taken@, a, n as int) implies account_counts(
                rows@,
                taken@,
                a,
                n as int + 1,
            ) by {
                let i = choose|i: int| 0 <= i < n && counts_for(rows@, taken@, a, i);
                assert(0 <= i < n + 1 && counts_for(rows@, taken@, a, i));
            }
        }
        if taken[n] {
            updated = updated + 1;
            if let Some(account) = rows[n].account_id {
                assert(counts_for(rows@, taken@, account, n as int));
                assert(account_counts(rows@, taken@, account, n as int + 1));
                let mut k: usize = 0;
                while k < deltas.len() && deltas[k].0 != account
                    invariant
                        k <= deltas.len(),
                        deltas@ == old_deltas,
                        forall|i: int| 0 <= i < k ==> (#[trigger] deltas@[i]).0 != account,
                    decreases deltas.len() - k,
                {
                    k += 1;
                }
                if k < deltas.len() {
                    let sum = match deltas[k].1.added(&rows[n]) {
                        Ok(sum) => sum,
                        Err(error) => {
                            proof {
                                deltas_grow(rows@, taken@, account, n as int + 1, rows.len() as int);
                            }
                            return Err(error);
                        },
                    };
                    deltas.set(k, (account, sum));
                    proof {
                        assert forall|i: int| 0 <= i < deltas.len() implies account_counts(
                            rows@,
                            taken@,
                            (#[trigger] deltas@[i]).0,
                            n as int + 1,
                        ) && deltas@[i].1@ == account_delta(
                            rows@,
                            taken@,
                            deltas@[i].0,
                            n as int + 1,
                        ) && is_natural(deltas@[i].1@) by {
                            assert(account_counts(rows@, taken@, old_deltas[i].0, n as int));
                        }
                        assert forall|a: u128| #[trigger]
                            account_counts(rows@, taken@, a, n as int + 1) implies has_entry(deltas@, a) by {
                            if a == account {
                                assert(deltas@[k as int].0 == a);
                            } else {
                                assert(has_entry(old_deltas, a));
                                let i = choose|i: int|
                                    0 <= i < old_deltas.len() && (#[trigger] old_deltas[i]).0 == a;
                                assert(deltas@[i].0 == a);
                            }
                        }
                    }
                } else {
                    proof {
                        assert(!account_counts(rows@, taken@, account, n as int)) by {
                            if account_counts(rows@, taken@, account, n as int) {
                                assert(has_entry(old_deltas, account));
                                let i = choose|i: int|
                                    0 <= i < old_deltas.len() && (#[trigger] old_deltas[i]).0
                                        == account;
                                assert(old_deltas[i].0 == account);
                            }
                        }
                        uncounted_is_nothing(rows@, taken@, account, n as int);
                    }
                    let start = ApiCostAggregateDelta::zero();
                    let sum = match start.added(&rows[n]) {
                        Ok(sum) => sum,
                        Err(error) => {
                            proof {
                                deltas_grow(rows@, taken@, account, n as int + 1, rows.len() as int);
                            }
                            return Err(error);
                        },
                    };
                    deltas.push((account, sum));
                    proof {
                        assert forall|i: int| 0 <= i < deltas.len() implies account_counts(
                            rows@,
                            taken@,
                            (#[trigger] deltas@[i]).0,
                            n as int + 1,
                        ) && deltas@[i].1@ == account_delta(
                            rows@,
                            taken@,
                            deltas@[i].0,
                            n as int + 1,
                        ) && is_natural(deltas@[i].1@) by {
                            if i < old_deltas.len() {
                                assert(deltas@[i] == old_deltas[i]);
                                assert(account_counts(rows@, taken@, old_deltas[i].0, n as int));
                            }
                        }
                        assert forall|a: u128| #[trigger]
                            account_counts(rows@, taken@, a, n as int + 1) implies has_entry(deltas@, a) by {
                            if a == account {
                                assert(deltas@[old_deltas.len() as int].0 == a);
                            } else {
                                assert(has_entry(old_deltas, a));
                                let i = choose|i: int|
                                    0 <= i < old_deltas.len() && (#[trigger] old_deltas[i]).0 == a;
                                assert(deltas@[i].0 == a);
                            }
                        }
                    }
                }
            } else {
                assert forall|a: u128| !counts_for(rows@, taken@, a, n as int) by {}
            }
        } else {
            assert forall|a: u128| !counts_for(rows@, taken@, a, n as int) by {}
        }
        n += 1;
    }
    Ok(
        BackfillTotals {
            batch: ApiCostBackfillBatch { selected: rows.len() as u64, updated },
            deltas,
        },
    )
}

pub(crate) proof fn uncounted_is_nothing(
    rows: Seq<PendingApiCostRow>,
    taken: Seq<bool>,
    account: u128,
    n: int,
)
    requires
        0 <= n,
        !account_counts(rows, taken, account, n),
    ensures
        account_delta(rows, taken, account, n) == no_delta(),
    decreases n,
{
    if n > 0 {
        assert(!counts_for(rows, taken, account, n - 1));
        assert(!account_counts(rows, taken, account, n - 1)) by {
            if account_counts(rows, taken, account, n - 1) {
                let i = choose|i: int| 0 <= i < n - 1 && counts_for(rows, taken, account, i);
                assert(0 <= i < n && counts_for(rows, taken, account, i));
            }
        }
        uncounted_is_nothing(rows, taken, account, n - 1);
    }
}

/// How many of an account's requests are priced neither in full nor in part.
pub open spec fn unpriced(requests: int, complete: int, partial: int) -> int {
    if requests - complete - partial < 0 {
        0
    } else {
        requests - complete - partial
    }
}

/// How many requests of an account remain without a price: never less than none.
pub fn unpriced_after(request_count: i64, complete: i64, partial: i64) -> (r: i64)
    requires
        0 <= complete,
        0 <= partial,
    ensures
        r == unpriced(request_count as int, complete as int, partial as int),
        r == if request_count - complete - partial < 0 {
            0
        } else {
            request_count - complete - partial
        },
{
    let left: i128 = request_count as i128 - complete as i128 - partial as i128;
    if left < 0 {
        0
    } else {
        left as i64
    }
}

/// The number of requests priced so far, refused where it cannot be counted any more.
pub fn backfill_count(total: u64, batch: ApiCostBackfillBatch) -> (r: Result<u64, AppError>)
    ensures
        match r {
            Ok(sum) => sum == total + batch.updated,
            Err(e) => total + batch.updated > u64::MAX && e@ == (
                AppErrorKind::Internal,
                "API cost backfill count overflowed"@,
            ),
        },
{
    match total.checked_add(batch.updated) {
        Some(sum) => Ok(sum),
        None => Err(internal("API cost backfill count overflowed")),
    }
}

/// Each total of a request is its own counter of the usage, and nothing else: the input is the input,
/// the output the output, and so for the two counters of the cache; one that is absent counts as
/// nothing, and one of the cache that is negative too.
pub proof fn totals_are_their_own_counters(
    status: Seq<char>,
    model: Option<Seq<char>>,
    usage: UsageView,
    n: i64,
)
    ensures
        usage.input == Some(n) ==> totals_of(status, model, usage).input_tokens == n,
        usage.output == Some(n) ==> totals_of(status, model, usage).output_tokens == n,
        usage.cached == Some(n) && n >= 0 ==> totals_of(status, model, usage).cached_input_tokens
            == n,
        usage.cache_write == Some(n) && n >= 0 ==> totals_of(
            status,
            model,
            usage,
        ).cache_write_input_tokens == n,
        usage.cached == Some(n) && n < 0 ==> totals_of(status, model, usage).cached_input_tokens
            == 0,
        usage.cache_write == Some(n) && n < 0 ==> totals_of(
            status,
            model,
            usage,
        ).cache_write_input_tokens == 0,
        usage.input is None ==> totals_of(status, model, usage).input_tokens == 0,
        usage.output is None ==> totals_of(status, model, usage).output_tokens == 0,
        usage.cached is None ==> totals_of(status, model, usage).cached_input_tokens == 0,
        usage.cache_write is None ==> totals_of(status, model, usage).cache_write_input_tokens == 0,
{
}

/// Two requests with one counter in common have that total in common, whatever else differs.
pub proof fn totals_do_not_mix(
    first: Seq<char>,
    second: Seq<char>,
    first_model: Option<Seq<char>>,
    second_model: Option<Seq<char>>,
    a: UsageView,
    b: UsageView,
)
    ensures
        ({
            let x = totals_of(first, first_model, a);
            let y = totals_of(second, second_model, b);
            &&& a.input == b.input ==> x.input_tokens == y.input_tokens
            &&& a.output == b.output ==> x.output_tokens == y.output_tokens
            &&& a.cached == b.cached ==> x.cached_input_tokens == y.cached_input_tokens
            &&& a.cache_write == b.cache_write ==> x.cache_write_input_tokens
                == y.cache_write_input_tokens
            &&& first == second ==> x.successful == y.successful && x.failed == y.failed
        }),
{
}

/// A request counts as a success exactly where its status says so, and otherwise as a failure.
pub proof fn success_goes_by_status(
    status: Seq<char>,
    model: Option<Seq<char>>,
    usage: UsageView,
)
    ensures
        status == "success"@ ==> totals_of(status, model, usage).successful == 1 && totals_of(
            status,
            model,
            usage,
        ).failed == 0,
        status != "success"@ ==> totals_of(status, model, usage).successful == 0 && totals_of(
            status,
            model,
            usage,
        ).failed == 1,
{
}

/// A request costs what it is estimated to cost, between the same bounds, by the model that served it
/// and, where that is not known, by the model that was asked for.
pub proof fn costs_go_by_the_serving_model(
    status: Seq<char>,
    model: Option<Seq<char>>,
    usage: UsageView,
    served: Seq<char>,
    lower: i64,
    upper: i64,
)
    ensures
        usage.model == Some(served) ==> priced_model(model, usage) == Some(served),
        usage.model is None ==> priced_model(model, usage) == model,
        estimated(priced_model(model, usage), usage).lower_nano_usd == Some(lower) ==> totals_of(
            status,
            model,
            usage,
        ).lower_nano_usd == lower,
        estimated(priced_model(model, usage), usage).upper_nano_usd == Some(upper) ==> totals_of(
            status,
            model,
            usage,
        ).upper_nano_usd == upper,
        estimated(priced_model(model, usage), usage).upper_nano_usd is None ==> totals_of(
            status,
            model,
            usage,
        ).upper_nano_usd == 0,
        totals_of(status, model, usage).complete == 1 <==> estimated(
            priced_model(model, usage),
            usage,
        ).status is Complete,
        totals_of(status, model, usage).partial == 1 <==> estimated(
            priced_model(model, usage),
            usage,
        ).status is MissingCacheWrite,
        totals_of(status, model, usage).unpriced == 1 <==> !(estimated(
            priced_model(model, usage),
            usage,
        ).status is Complete) && !(estimated(
            priced_model(model, usage),
            usage,
        ).status is MissingCacheWrite),
{
}

/// What a stored request adds when it is priced later is what it would have added when it finished.
pub proof fn later_pricing_adds_the_same(row: PendingApiCostRow, status: Seq<char>)
    ensures
        ({
            let t = totals_of(status, row.model.deep_view(), row.usage@);
            let d = row_delta(row);
            &&& d.cached == t.cached_input_tokens
            &&& d.written == t.cache_write_input_tokens
            &&& d.lower == t.lower_nano_usd
            &&& d.upper == t.upper_nano_usd
            &&& d.complete == t.complete
            &&& d.partial == t.partial
        }),
{
}

/// What is added to an account grows by each of its requests that is taken, and by no other.
pub proof fn accounts_grow_by_their_requests(
    rows: Seq<PendingApiCostRow>,
    taken: Seq<bool>,
    account: u128,
    n: int,
)
    requires
        0 <= n < rows.len(),
        taken.len() == rows.len(),
    ensures
        taken[n] && rows[n].account_id == Some(account) ==> {
            let before = account_delta(rows, taken, account, n);
            let after = account_delta(rows, taken, account, n + 1);
            let row = row_delta(rows[n]);
            &&& after.cached == before.cached + row.cached
            &&& after.written == before.written + row.written
            &&& after.lower == before.lower + row.lower
            &&& after.upper == before.upper + row.upper
            &&& after.complete == before.complete + row.complete
            &&& after.partial == before.partial + row.partial
        },
        !taken[n] || rows[n].account_id != Some(account) ==> account_delta(
            rows,
            taken,
            account,
            n + 1,
        ) == account_delta(rows, taken, account, n),
        account_delta(rows, taken, account, 0).upper == 0,
        account_delta(rows, taken, account, 0).lower == 0,
        account_delta(rows, taken, account, 0).cached == 0,
        account_delta(rows, taken, account, 0).written == 0,
        taken_count(taken, n + 1) == taken_count(taken, n) + if taken[n] {
            1int
        } else {
            0int
        },
        taken_count(taken, 0) == 0,
{
}

/// What is added to an account is seen under its own names.
pub proof fn deltas_are_seen_by_name(delta: ApiCostAggregateDelta)
    ensures
        delta@.cached == delta.cached_input_tokens,
        delta@.written == delta.observed_cache_write_input_tokens,
        delta@.lower == delta.lower_nano_usd,
        delta@.upper == delta.upper_nano_usd,
        delta@.complete == delta.complete_requests,
        delta@.partial == delta.partial_requests,
{
}

/// The requests of an account that are priced in full, in part and not at all are all of them, where
/// no more are priced than there are.
pub proof fn requests_are_priced_or_not(requests: int, complete: int, partial: int)
    ensures
        complete + partial <= requests ==> unpriced(requests, complete, partial) + complete
            + partial == requests,
        complete + partial > requests ==> unpriced(requests, complete, partial) == 0,
{
}

} // verus!
