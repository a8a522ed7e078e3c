use codex_lb_rs::accounts::{
    cooldown_account, delete_account, mark_auth_failed, mark_usage_error, replace_usage_windows,
    update_account, update_account_tokens, upsert_account, usage_summary, validate_status_opt,
    Account, RuntimeState,
};
use codex_lb_rs::admin::{
    admin_auth, check_resolve_request, health, read_import, Import, ImportStep,
};
use codex_lb_rs::auth_file::{claims_from_auth, AuthFile, AuthTokens};
use codex_lb_rs::crypto::TokenCrypto;
use codex_lb_rs::history::{previous_usage_sample, UsageSample};
use codex_lb_rs::json::{parse_text, Json};
use codex_lb_rs::labels::normalize_label;
use codex_lb_rs::models::{AccountUpdateRequest, ResolveSessionRoutesRequest};
use codex_lb_rs::refresh::{refreshed_auth, was_refreshed};
use codex_lb_rs::scheduler::{
    next_refresh_count, prune_before, prunes_after, Backfill, BackfillStep,
};
use codex_lb_rs::ledger::ApiCostBackfillBatch;
use codex_lb_rs::time::{to_millis, YEAR_TEN_THOUSAND};
use codex_lb_rs::upstream::Header;
use codex_lb_rs::usage::ParsedUsageWindow;

const SECOND: i128 = 1_000_000_000;
const NOW: i128 = 1_700_000_000 * SECOND;

fn account(id: u128) -> Account {
    Account {
        id,
        chatgpt_account_id: Some("chat".to_string()),
        label: "old".to_string(),
        email: "old@example.com".to_string(),
        plan_type: "plus".to_string(),
        encrypted_access_token: "a".to_string(),
        encrypted_refresh_token: "r".to_string(),
        encrypted_id_token: "i".to_string(),
        last_refresh_at: 1,
        access_token_expires_at: Some(2),
        last_usage_refresh_at: None,
        last_usage_error: Some("late".to_string()),
        status: "rate_limited".to_string(),
        status_reason: Some("why".to_string()),
        created_at: 3,
        updated_at: 4,
    }
}

fn auth(account_id: Option<&str>) -> AuthFile {
    AuthFile {
        openai_api_key: None,
        tokens: AuthTokens {
            id_token: "id-secret".to_string(),
            access_token: "access-secret".to_string(),
            refresh_token: "refresh-secret".to_string(),
            account_id: account_id.map(str::to_string),
        },
        last_refresh_at: None,
    }
}

fn update(status: Option<&str>, label: Option<&str>) -> AccountUpdateRequest {
    AccountUpdateRequest {
        status: status.map(str::to_string),
        label: label.map(str::to_string),
        email: None,
        plan_type: None,
    }
}

#[test]
fn updates_change_what_they_name() {
    let a = update_account(Some(account(1)), 1, update(Some("active"), Some(" New ")), NOW)
        .ok()
        .unwrap();
    assert_eq!(a.status, "active");
    assert_eq!(a.label, "new");
    assert_eq!(a.status_reason, None);
    assert_eq!(a.email, "old@example.com");
    assert_eq!(a.updated_at, NOW);
    let a = update_account(Some(account(1)), 1, update(Some("paused"), None), NOW)
        .ok()
        .unwrap();
    assert_eq!(a.status_reason.as_deref(), Some("why"));
    assert_eq!(a.label, "old");
    let error = update_account(Some(account(1)), 1, update(Some("gone"), None), NOW)
        .err()
        .unwrap();
    assert_eq!(error.message(), "invalid account status 'gone'");
    let error = update_account(Some(account(1)), 1, update(None, Some("a b")), NOW)
        .err()
        .unwrap();
    assert_eq!(error.message(), "label must be 1-32 ASCII letters, numbers, '-' or '_'");
    let error = update_account(None, 1, update(None, None), NOW).err().unwrap();
    assert_eq!(error.status_code(), 404);
    assert_eq!(
        error.message(),
        "account 00000000-0000-0000-0000-000000000001 not found"
    );
    assert!(validate_status_opt(None).is_ok());
    assert!(validate_status_opt(Some("quota_exceeded")).is_ok());
    assert_eq!(normalize_label("A-1").unwrap(), "a-1");
}

#[test]
fn imports_seal_the_tokens_and_keep_known_accounts() {
    let (crypto, _) = TokenCrypto::create();
    let file = auth(Some("chat"));
    let claims = claims_from_auth(&file);
    let fresh = upsert_account(&crypto, None, 9, &file, &claims, &None, NOW).ok().unwrap();
    assert_eq!(fresh.id, 9);
    assert_eq!(fresh.label, "");
    assert_eq!(fresh.status, "active");
    assert_eq!(fresh.last_refresh_at, NOW);
    assert_eq!(
        crypto.decrypt(&fresh.encrypted_access_token).unwrap(),
        "access-secret"
    );
    assert_eq!(
        crypto.decrypt(&fresh.encrypted_refresh_token).unwrap(),
        "refresh-secret"
    );
    assert_eq!(crypto.decrypt(&fresh.encrypted_id_token).unwrap(), "id-secret");
    let known = upsert_account(&crypto, Some(account(1)), 9, &file, &claims, &None, NOW)
        .ok()
        .unwrap();
    assert_eq!((known.id, known.label.as_str(), known.created_at), (1, "old", 3));
    assert_eq!(known.status_reason, None);
    let label = Some("Work".to_string());
    let named = upsert_account(&crypto, Some(account(1)), 9, &file, &claims, &label, NOW)
        .ok()
        .unwrap();
    assert_eq!(named.label, "work");
    let other = auth(Some("another"));
    let claims = claims_from_auth(&other);
    let added = upsert_account(&crypto, Some(account(1)), 9, &other, &claims, &None, NOW)
        .ok()
        .unwrap();
    assert_eq!(added.id, 9);
    let bad = Some("!".to_string());
    assert!(upsert_account(&crypto, None, 9, &other, &claims, &bad, NOW).is_err());
}

#[test]
fn refreshed_tokens_make_an_account_active() {
    let (crypto, _) = TokenCrypto::create();
    let (file, claims) = refreshed_auth(auth(None).tokens, NOW);
    assert_eq!(file.last_refresh_at, Some(NOW));
    let a = update_account_tokens(&crypto, Some(account(1)), 1, &file, &claims, NOW)
        .ok()
        .unwrap();
    assert_eq!(a.status, "active");
    assert_eq!(a.chatgpt_account_id.as_deref(), Some("chat"));
    assert_eq!(a.access_token_expires_at, Some(2));
    assert_eq!(a.last_refresh_at, NOW);
    assert!(was_refreshed(&account(1), &a));
    assert!(!was_refreshed(&account(1), &account(1)));
    let error = update_account_tokens(&crypto, None, 1, &file, &claims, NOW).err().unwrap();
    assert_eq!(error.code(), "not_found");
}

fn window(quota_key: &str) -> ParsedUsageWindow {
    ParsedUsageWindow {
        quota_key: quota_key.to_string(),
        quota_name: "Codex".to_string(),
        source_slot: "primary".to_string(),
        window_kind: "5h".to_string(),
        used_percent: 0,
        window_seconds: None,
        reset_at: None,
    }
}

#[test]
fn usage_reports_wake_limited_accounts() {
    let plan = Some("pro".to_string());
    let a = replace_usage_windows(account(1), plan, NOW - 1, &vec![window("codex")], NOW)
        .ok()
        .unwrap();
    assert_eq!(a.status, "active");
    assert_eq!(a.status_reason, None);
    assert_eq!(a.plan_type, "pro");
    assert_eq!(a.last_usage_refresh_at, Some(NOW - 1));
    assert_eq!(a.last_usage_error, None);
    let mut paused = account(1);
    paused.status = "paused".to_string();
    let a = replace_usage_windows(paused, None, NOW, &vec![window("codex")], NOW).ok().unwrap();
    assert_eq!(a.status, "paused");
    assert_eq!(a.plan_type, "plus");
    let error = replace_usage_windows(account(1), None, NOW, &vec![window("other")], NOW)
        .err()
        .unwrap();
    assert_eq!(error.status_code(), 502);
    assert_eq!(
        error.message(),
        "usage response did not contain a Codex quota window"
    );
    let failed = mark_auth_failed(account(1), "gone", NOW);
    assert_eq!(failed.status, "auth_failed");
    assert_eq!(failed.status_reason.as_deref(), Some("gone"));
    let failed = mark_usage_error(account(1), "slow", NOW);
    assert_eq!(failed.last_usage_error.as_deref(), Some("slow"));
    assert!(delete_account(1, 1).is_ok());
    assert!(delete_account(1, 0).is_err());
}

fn state(requests: i64) -> RuntimeState {
    RuntimeState {
        request_count: requests,
        successful_request_count: 1,
        failed_request_count: 2,
        input_tokens: 3,
        output_tokens: 4,
        cooldown_until: None,
        cooldown_reason: None,
        failure_count: 5,
    }
}

#[test]
fn counters_add_up_over_accounts() {
    let statuses = vec!["active".to_string(), "paused".to_string()];
    let s = usage_summary(&statuses, &vec![state(10), state(20)]).unwrap();
    assert_eq!((s.account_count, s.active_account_count), (2, 1));
    assert_eq!(s.request_count, 30);
    assert_eq!(s.output_tokens, 8);
    assert!(usage_summary(&statuses, &vec![state(i64::MAX), state(1)]).is_none());
    let mut cooling = state(1);
    cooldown_account(&mut cooling, 60, "limited", NOW);
    assert_eq!(cooling.cooldown_until, Some(NOW + 60 * SECOND));
    assert_eq!(cooling.failure_count, 6);
    assert_eq!(cooling.cooldown_reason.as_deref(), Some("limited"));
}

fn json(text: &str) -> Json {
    parse_text(text).expect("a JSON text")
}

#[test]
fn the_admin_api_needs_its_token() {
    let header = Header {
        name: "authorization".to_string(),
        value: b"Bearer key".to_vec(),
    };
    let headers = vec![header];
    assert!(admin_auth(&None, &vec![]).is_ok());
    assert!(admin_auth(&Some("key".to_string()), &headers).is_ok());
    let error = admin_auth(&Some("other".to_string()), &headers).unwrap_err();
    assert_eq!(error.message(), "invalid admin token");
    assert!(admin_auth(&Some("key".to_string()), &vec![]).is_err());
    assert_eq!(health(true).get_str("status"), Some("ok"));
    assert_eq!(health(false).get_str("status"), Some("degraded"));
}

#[test]
fn questions_for_routes_are_checked() {
    let ask = |key_hashes| check_resolve_request(&ResolveSessionRoutesRequest { key_hashes });
    assert!(ask(vec!["aF".repeat(32)]).is_ok());
    assert_eq!(
        ask(vec!["a".repeat(63)]).unwrap_err().message(),
        "session hashes must be 64 hexadecimal characters"
    );
    assert!(ask(vec!["g".repeat(64)]).is_err());
    assert_eq!(
        ask(vec!["a".repeat(64); 501]).unwrap_err().message(),
        "at most 500 session hashes can be resolved at once"
    );
}

#[test]
fn imports_refresh_what_runs_out_and_warn() {
    let tokens = r#"{"tokens": {"idToken": "i", "accessToken": "a", "refreshToken": "r"}}"#;
    let plain = read_import(&json(tokens)).ok().unwrap();
    assert_eq!(plain.label, None);
    assert_eq!(plain.auth.tokens.access_token, "a");
    let named = read_import(&json(&format!(r#"{{"auth": {tokens}, "label": "x"}}"#)))
        .ok()
        .unwrap();
    assert_eq!(named.label.as_deref(), Some("x"));
    let error = read_import(&json("{}")).err().unwrap();
    assert_eq!(error.message(), "invalid auth.json payload");

    let (mut import, step) = Import::start(Some(NOW + 300 * SECOND), NOW);
    assert_eq!(step, ImportStep::RefreshToken);
    let (step, note) = import.tokens_refreshed(Some("no"));
    assert_eq!(step, ImportStep::Finish);
    assert_eq!(note.as_deref(), Some("initial token refresh failed: no"));
    assert_eq!(import.finish(true).unwrap(), vec!["initial token refresh failed: no"]);

    let (mut import, step) = Import::start(Some(NOW + 300 * SECOND + 1), NOW);
    assert_eq!(step, ImportStep::RefreshUsage);
    let (step, note) = import.usage_refreshed(Some("late"));
    assert_eq!(step, ImportStep::Finish);
    assert_eq!(note.as_deref(), Some("initial usage refresh failed: late"));
    assert_eq!(
        import.finish(false).unwrap_err().message(),
        "imported account disappeared"
    );
}

#[test]
fn the_latest_earlier_reading_is_compared_with() {
    let sample = |id, slot: &str, recorded_at| UsageSample {
        id,
        account_id: 1,
        quota_key: "codex".to_string(),
        source_slot: slot.to_string(),
        used_percent: 0,
        reset_at: None,
        recorded_at,
    };
    let samples = vec![
        sample(1, "primary", NOW - 2_000 * SECOND),
        sample(2, "primary", NOW - 900 * SECOND),
        sample(3, "primary", NOW - 900 * SECOND),
        sample(4, "primary", NOW - 899 * SECOND),
        sample(5, "secondary", NOW - 900 * SECOND),
    ];
    assert_eq!(previous_usage_sample(&samples, 1, "codex", "primary", NOW), Some(2));
    assert_eq!(previous_usage_sample(&samples, 2, "codex", "primary", NOW), None);
}

#[test]
fn history_is_pruned_now_and_then() {
    assert!(prunes_after(1));
    assert!(!prunes_after(359));
    assert!(prunes_after(360));
    assert_eq!(next_refresh_count(u64::MAX), 0);
    assert_eq!(prune_before(NOW, 30), NOW - 30 * 86_400 * SECOND);
    assert_eq!(prune_before(NOW, 0), NOW - 86_400 * SECOND);
    assert_eq!(prune_before(NOW, 9_999), NOW - 365 * 86_400 * SECOND);
    let mut backfill = Backfill::new();
    let batch = |selected, updated| Some(ApiCostBackfillBatch { selected, updated });
    assert_eq!(backfill.batch(batch(5, 4)), BackfillStep::Next);
    assert_eq!(backfill.batch(None), BackfillStep::Retry);
    assert_eq!(backfill.batch(batch(0, 0)), BackfillStep::Done { report: true });
    assert_eq!(backfill.total, 4);
}

#[test]
fn readings_are_compared_in_whole_milliseconds() {
    let sample = |recorded_at| {
        vec![UsageSample {
            id: 1,
            account_id: 1,
            quota_key: "codex".to_string(),
            source_slot: "primary".to_string(),
            used_percent: 0,
            reset_at: None,
            recorded_at,
        }]
    };
    let compares = |recorded_at, fetched_at| {
        previous_usage_sample(&sample(recorded_at), 1, "codex", "primary", fetched_at).is_some()
    };
    let limit = NOW - 900 * SECOND;
    assert!(compares(limit + 400_000, NOW));
    assert!(!compares(limit + 600_000, NOW));
    assert!(compares(limit + 1_000_000, NOW + 600_000));
    assert!(!compares(limit + 1_000_000, NOW + 400_000));
    let end = YEAR_TEN_THOUSAND;
    assert!(compares(end - 901 * SECOND, end - 1));
    assert!(!compares(end - 901 * SECOND, end));
    assert!(!compares(end, end + 1_000 * SECOND));
}

#[test]
fn a_cooldown_ends_at_a_time_that_can_be_stored() {
    let until = |seconds, now| {
        let mut cooling = state(1);
        cooldown_account(&mut cooling, seconds, "limited", now);
        assert_eq!(cooling.failure_count, 6);
        assert_eq!(cooling.cooldown_reason.as_deref(), Some("limited"));
        cooling.cooldown_until
    };
    assert_eq!(until(0, NOW), Some(NOW));
    assert_eq!(until(10, NOW + 1_999_999), Some(NOW + 1_000_000 + 10 * SECOND));
    assert_eq!(until(-1, NOW), None);
    assert_eq!(until(i64::MIN, NOW), None);
    assert_eq!(until(i64::MAX, NOW), None);
    let left = i64::try_from((YEAR_TEN_THOUSAND - NOW) / SECOND).unwrap();
    assert_eq!(until(left - 1, NOW), Some(YEAR_TEN_THOUSAND - SECOND));
    assert_eq!(until(left, NOW), None);
}

#[test]
fn milliseconds_are_rounded_as_doubles() {
    let in_doubles = |seconds: u32, nanos: u32| {
        let fraction = f64::from(nanos) / 1_000_000_000.0;
        ((f64::from(seconds) + fraction) * 1_000.0 + 0.5) as i128
    };
    let minute = 1_700_000_040;
    assert_eq!(minute % 60, 0);
    let mut ties_down = 0;
    for seconds in 0..60 {
        for milli in (0..1_000).step_by(7) {
            for rest in [0, 1, 499_999, 500_000, 500_001, 999_999] {
                let nanos = milli * 1_000_000 + rest;
                let expected = in_doubles(seconds, nanos);
                let since = i128::from(seconds) * SECOND + i128::from(nanos);
                assert_eq!(to_millis(minute * SECOND + since), minute * 1_000 + expected);
                assert_eq!(to_millis(-minute * SECOND + since), -minute * 1_000 + expected);
                if rest == 500_000 && expected * 1_000_000 < since {
                    ties_down += 1;
                }
            }
        }
    }
    assert!(ties_down > 0);
    assert_eq!(to_millis(-1), 0);
    assert_eq!(to_millis(-600_000), -1);
}
