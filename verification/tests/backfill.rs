use codex_lb_rs::backfill::{
    backfill_api_costs, backfill_api_costs_batch, CostTotals, RequestLedger,
};
use codex_lb_rs::ledger::{ApiCostAggregateDelta, PendingApiCostRow};
use codex_lb_rs::models::UsageData;
use codex_lb_rs::pricing::{ApiCostEstimate, ApiCostStatus};

fn row(id: i64, account_id: Option<u128>, model: &str) -> PendingApiCostRow {
    PendingApiCostRow {
        id,
        account_id,
        model: Some(model.to_string()),
        usage: UsageData {
            input_tokens: Some(1_200),
            output_tokens: Some(11),
            cached_input_tokens: Some(200),
            reasoning_tokens: Some(3),
            ..UsageData::default()
        },
    }
}

fn totals(request_count: i64) -> CostTotals {
    CostTotals {
        request_count,
        sums: ApiCostAggregateDelta::default(),
        unpriced_requests: request_count,
    }
}

fn ledger(rows: Vec<PendingApiCostRow>, accounts: Vec<(u128, CostTotals)>) -> RequestLedger {
    RequestLedger {
        costs: vec![None; rows.len()],
        rows,
        accounts,
    }
}

#[test]
fn migration_backfills_historical_cost_as_cache_write_range() {
    let mut ledger = ledger(vec![row(1, Some(9), "gpt-5.6-sol")], vec![(9, totals(1))]);
    let pending = ledger.accounts[0].1;
    assert_eq!(pending.sums.complete_requests, 0);
    assert_eq!(pending.sums.partial_requests, 0);
    assert_eq!(pending.unpriced_requests, 1);

    let first_batch = backfill_api_costs_batch(&mut ledger, 1).unwrap();
    assert_eq!(first_batch.selected, 1);
    assert_eq!(first_batch.updated, 1);
    let finished_batch = backfill_api_costs_batch(&mut ledger, 1).unwrap();
    assert_eq!(finished_batch.selected, 0);
    assert_eq!(finished_batch.updated, 0);
    assert_eq!(backfill_api_costs(&mut ledger).unwrap(), 0);

    let cost = ledger.costs[0].unwrap();
    assert_eq!(cost.status.as_str(), "missing_cache_write");
    assert_eq!(cost.lower_nano_usd, Some(5_430_000));
    assert_eq!(cost.upper_nano_usd, Some(6_680_000));

    let account = ledger.accounts[0].1;
    assert_eq!(account.sums.cached_input_tokens, 200);
    assert_eq!(account.sums.observed_cache_write_input_tokens, 0);
    assert_eq!(account.sums.lower_nano_usd, 5_430_000);
    assert_eq!(account.sums.upper_nano_usd, 6_680_000);
    assert_eq!(account.sums.complete_requests, 0);
    assert_eq!(account.sums.partial_requests, 1);
    assert_eq!(account.unpriced_requests, 0);
}

#[test]
fn a_backfill_prices_what_has_no_price_and_nothing_else() {
    let known = ApiCostEstimate::priced(ApiCostStatus::Complete, 7, 7);
    let mut served = row(3, Some(2), "unheard-of");
    served.usage.effective_model = Some("gpt-5.6-sol".to_string());
    let mut ledger = ledger(
        vec![
            row(1, Some(1), "gpt-5.6-sol"),
            row(2, Some(1), "gpt-5.6-sol"),
            served,
            row(4, None, "gpt-5.6-sol"),
            row(5, Some(1), "unheard-of"),
            row(6, Some(3), "gpt-5.6-sol"),
        ],
        vec![(1, totals(5)), (2, totals(1)), (8, totals(4))],
    );
    ledger.costs[1] = Some(known);
    assert_eq!(backfill_api_costs(&mut ledger).unwrap(), 5);
    assert_eq!(ledger.costs[0].unwrap().lower_nano_usd, Some(5_430_000));
    assert_eq!(ledger.costs[1], Some(known));
    assert_eq!(ledger.costs[2].unwrap().upper_nano_usd, Some(6_680_000));
    assert_eq!(ledger.costs[3].unwrap().status, ApiCostStatus::MissingCacheWrite);
    assert_eq!(ledger.costs[4].unwrap().status, ApiCostStatus::UnknownModel);
    let first = ledger.accounts[0].1;
    assert_eq!(first.sums.partial_requests, 1);
    assert_eq!(first.sums.cached_input_tokens, 400);
    assert_eq!(first.unpriced_requests, 4);
    assert_eq!(ledger.accounts[1].1.unpriced_requests, 0);
    assert_eq!(ledger.accounts[2].1, totals(4));
    let (costs, accounts) = (ledger.costs.clone(), ledger.accounts.clone());
    assert_eq!(backfill_api_costs(&mut ledger).unwrap(), 0);
    assert_eq!((ledger.costs, ledger.accounts), (costs, accounts));
}

#[test]
fn batches_come_to_the_same_as_one_backfill() {
    let rows = || (0..1_203).map(|id| row(id, Some(1), "gpt-5.6-sol")).collect();
    let mut whole = ledger(rows(), vec![(1, totals(1_203))]);
    assert_eq!(backfill_api_costs(&mut whole).unwrap(), 1_203);
    let mut parts = ledger(rows(), vec![(1, totals(1_203))]);
    for (size, updated) in [(0, 1), (3, 3), (10_000, 500), (500, 500), (500, 199), (500, 0)] {
        let batch = backfill_api_costs_batch(&mut parts, size).unwrap();
        assert_eq!((batch.selected, batch.updated), (updated, updated), "size={size}");
    }
    assert_eq!((parts.costs, parts.accounts), (whole.costs, whole.accounts));
}

#[test]
fn a_sum_that_runs_over_leaves_the_batches_before_it() {
    let mut full = totals(2);
    full.sums.upper_nano_usd = i64::MAX;
    let mut rows: Vec<PendingApiCostRow> = (0..500).map(|id| row(id, None, "gpt-5.6-sol")).collect();
    rows.push(row(500, Some(1), "gpt-5.6-sol"));
    let mut ledger = ledger(rows, vec![(1, full)]);
    let error = backfill_api_costs(&mut ledger).unwrap_err();
    assert_eq!(error.status_code(), 500);
    assert!(ledger.costs[..500].iter().all(Option::is_some));
    assert_eq!(ledger.costs[500], None);
    assert_eq!(ledger.accounts, vec![(1, full)]);
}

#[test]
fn only_what_was_taken_is_settled() {
    let mut ledger = ledger(
        vec![row(1, Some(1), "gpt-5.6-sol"), row(2, Some(1), "gpt-5.6-sol")],
        vec![(1, totals(2))],
    );
    assert_eq!(ledger.settle(&vec![false, true]).unwrap(), 1);
    assert_eq!(ledger.costs[0], None);
    assert!(ledger.costs[1].is_some());
    assert_eq!(ledger.accounts[0].1.sums.partial_requests, 1);
    assert_eq!(ledger.accounts[0].1.unpriced_requests, 1);
}
