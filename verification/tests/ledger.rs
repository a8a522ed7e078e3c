use codex_lb_rs::ledger::{
    backfill_count, backfill_totals, checked_accumulate, request_log_totals, unpriced_after,
    ApiCostBackfillBatch, PendingApiCostRow,
};
use codex_lb_rs::models::UsageData;
use codex_lb_rs::pricing::ApiCostStatus;

fn usage(input: i64, cached: i64, written: Option<i64>, output: i64) -> UsageData {
    UsageData {
        input_tokens: Some(input),
        output_tokens: Some(output),
        cached_input_tokens: Some(cached),
        cache_write_input_tokens: written,
        ..UsageData::default()
    }
}

#[test]
fn every_request_is_counted_once() {
    let (cost, totals) = request_log_totals(
        "success",
        Some("gpt-5.6-sol"),
        &usage(3_000, 1_000, Some(1_000), 1_000),
    );
    assert_eq!(cost.status, ApiCostStatus::Complete);
    assert_eq!(totals.requests, 1);
    assert_eq!((totals.successful, totals.failed), (1, 0));
    assert_eq!(totals.complete + totals.partial + totals.unpriced, 1);
    assert_eq!(totals.lower_nano_usd, 41_750_000);
    let (_, totals) = request_log_totals("error", None, &usage(1, -5, Some(-1), 2));
    assert_eq!((totals.successful, totals.failed), (0, 1));
    assert_eq!(totals.unpriced, 1);
    assert_eq!(totals.cached_input_tokens, 0);
    assert_eq!(totals.cache_write_input_tokens, 0);
}

#[test]
fn the_model_that_served_a_request_sets_its_price() {
    let mut served = usage(3_000, 1_000, Some(1_000), 1_000);
    served.effective_model = Some("gpt-5.6-luna".to_string());
    let (cost, _) = request_log_totals("success", Some("gpt-5.6-sol"), &served);
    assert_eq!(cost.lower_nano_usd, Some(8_350_000));
}

#[test]
fn a_backfill_adds_up_account_by_account() {
    let row = |id, account_id| PendingApiCostRow {
        id,
        account_id,
        model: Some("gpt-5.6-sol".to_string()),
        usage: usage(2_000, 200, None, 100),
    };
    let rows = vec![row(1, Some(7)), row(2, Some(8)), row(3, Some(7)), row(4, None)];
    let totals = backfill_totals(&rows, &vec![true, true, true, true]).ok().unwrap();
    assert_eq!((totals.batch.selected, totals.batch.updated), (4, 4));
    assert_eq!(totals.deltas.len(), 2);
    let seven = totals.deltas.iter().find(|entry| entry.0 == 7).unwrap().1;
    assert_eq!(seven.partial_requests, 2);
    assert_eq!(seven.lower_nano_usd, 24_200_000);
    assert_eq!(seven.upper_nano_usd, 28_700_000);
    let some = backfill_totals(&rows, &vec![false, true, false, false]).ok().unwrap();
    assert_eq!(some.batch.updated, 1);
    assert_eq!(some.deltas.len(), 1);
}

#[test]
fn sums_that_run_over_are_refused() {
    let mut total = i64::MAX;
    assert_eq!(checked_accumulate(&mut total, 1).unwrap_err().status_code(), 500);
    assert_eq!(total, i64::MAX);
    assert!(checked_accumulate(&mut total, 0).is_ok());
    let batch = ApiCostBackfillBatch {
        selected: 1,
        updated: 1,
    };
    assert_eq!(backfill_count(1, batch).unwrap(), 2);
    assert!(backfill_count(u64::MAX, batch).is_err());
    assert_eq!(unpriced_after(10, 3, 4), 3);
    assert_eq!(unpriced_after(1, 3, 4), 0);
}
