use codex_lb_rs::figures::{compact_count, human_duration, one_line, short_label, usage_bar};
use codex_lb_rs::models::AccountSummary;
use codex_lb_rs::status::{
    build_status, to_account_status, AccountStatus, AccountWindow, PoolStatus, WindowStatus,
};
use codex_lb_rs::usage::PaceMetrics;
use codex_lb_rs::waybar::{
    compact_account_state, display_window, exhaustion_forecast, format_waybar, reset_eta,
};

const SECOND: i128 = 1_000_000_000;
const NOW: i128 = 1_700_000_000 * SECOND;

fn quota(
    quota_key: &str,
    quota_name: &str,
    used_percent: f64,
    risk: &'static str,
    pace_ratio: Option<f64>,
) -> WindowStatus {
    WindowStatus {
        quota_key: quota_key.to_string(),
        quota_name: quota_name.to_string(),
        window: "7d".to_string(),
        used_percent: used_percent.to_bits(),
        used_text: format!("{used_percent:.0}"),
        remaining_percent: (100.0 - used_percent).to_bits(),
        remaining_text: format!("{:.0}", 100.0 - used_percent),
        window_seconds: Some(604_800),
        reset_at: None,
        fetched_at: NOW,
        pace: PaceMetrics {
            observed_percent_per_hour: None,
            sustainable_percent_per_hour: None,
            pace_ratio: pace_ratio.map(f64::to_bits),
            headroom_percent: None,
            projected_exhaustion_at: None,
            risk,
        },
    }
}

fn account_summary(now: i128) -> AccountSummary {
    AccountSummary {
        id: 0,
        chatgpt_account_id: None,
        label: "account-a".to_string(),
        email: "account-a@example.com".to_string(),
        plan_type: "pro".to_string(),
        status: "active".to_string(),
        status_reason: None,
        last_refresh_at: now,
        access_token_expires_at: None,
        last_usage_refresh_at: Some(now),
        last_usage_error: None,
        created_at: now,
        latest_used_percent: None,
        latest_reset_at: None,
        request_count: 0,
        input_tokens: 0,
        output_tokens: 0,
        cached_input_tokens: 0,
        observed_cache_write_input_tokens: 0,
        api_cost_lower_nano_usd: 0,
        api_cost_upper_nano_usd: 0,
        api_cost_complete_request_count: 0,
        api_cost_partial_request_count: 0,
        api_cost_unpriced_request_count: 0,
        last_selected_at: None,
        last_request_at: None,
        cooldown_until: None,
        cooldown_reason: None,
        inflight_count: 0,
    }
}

fn account_status(quotas: Vec<WindowStatus>) -> AccountStatus {
    AccountStatus {
        id: 0,
        label: "account-a".to_string(),
        plan: "pro".to_string(),
        status: "active".to_string(),
        available: true,
        selected: true,
        status_reason: None,
        auth_expires_at: None,
        last_usage_refresh_at: Some(NOW),
        last_usage_error: None,
        last_selected_at: Some(NOW),
        last_request_at: Some(NOW),
        cooldown_until: None,
        inflight_requests: 0,
        // Intentionally synthetic values; do not copy live account telemetry here.
        request_count: 12_345,
        input_tokens: 1_234_567_890,
        output_tokens: 5_678_901,
        quotas,
    }
}

fn pool(accounts: Vec<AccountStatus>) -> PoolStatus {
    PoolStatus {
        service: "codex-lb-rs",
        version: "test",
        healthy: true,
        degraded: false,
        routing_strategy: "usage_weighted".to_string(),
        account_count: accounts.len(),
        active_account_count: accounts.len(),
        available_account_count: accounts.len(),
        inflight_requests: 0,
        selected_account: Some("account-a".to_string()),
        accounts,
        generated_at: NOW,
    }
}

#[test]
fn empty_pool_has_actionable_waybar_state() {
    let output = format_waybar(&PoolStatus {
        healthy: false,
        degraded: true,
        selected_account: None,
        ..pool(vec![])
    });
    assert_eq!(output.alt, "empty");
    assert!(output.text.contains("no accounts"));
}

#[test]
fn waybar_only_renders_core_codex_quota() {
    let output = format_waybar(&pool(vec![account_status(vec![
        quota("codex", "Codex", 42.0, "safe", Some(0.5)),
        quota(
            "codex_bengalfox",
            "GPT-5.3-Codex-Spark",
            99.0,
            "danger",
            Some(10.0),
        ),
    ])]));

    assert!(output.tooltip.contains("Codex  •  7d"));
    assert!(!output.tooltip.contains("GPT-5.3-Codex-Spark"));
    assert!(output
        .tooltip
        .contains("Activity  12.3k requests  •  1.2B input / 5.7M output tokens"));
    assert_eq!(output.percentage, 42);
    assert!(!output.class.iter().any(|class| class == "pace-hot"));
    assert!(!output.class.iter().any(|class| class == "pool-low"));
}

#[test]
fn compact_counts_use_decimal_units_and_promote_after_rounding() {
    let cases = [
        (0, "0"),
        (999, "999"),
        (1_000, "1k"),
        (1_250, "1.3k"),
        (12_345, "12.3k"),
        (999_499, "999k"),
        (999_500, "1M"),
        (5_678_901, "5.7M"),
        (1_234_567_890, "1.2B"),
        (i64::MAX, "9.2E"),
    ];
    for (value, expected) in cases {
        assert_eq!(compact_count(value), expected, "value={value}");
    }
}

#[test]
fn exhaustion_forecast_explains_survival_instead_of_pace_ratio() {
    let now = NOW;
    let mut window = quota("codex", "Codex", 50.0, "danger", Some(113.0));
    window.reset_at = Some(now + 2 * 86_400 * SECOND);
    window.pace.projected_exhaustion_at = Some(now + 15 * 3_600 * SECOND);
    assert_eq!(exhaustion_forecast(&window, now), "empty in ~15h 0m");

    window.pace.projected_exhaustion_at = window.reset_at;
    assert_eq!(exhaustion_forecast(&window, now), "survives to reset");

    window.pace.projected_exhaustion_at = Some(now - 60 * SECOND);
    assert_eq!(exhaustion_forecast(&window, now), "empty ETA due");

    window.used_percent = 100.0f64.to_bits();
    assert_eq!(exhaustion_forecast(&window, now), "empty now");

    window.reset_at = Some(now);
    assert_eq!(exhaustion_forecast(&window, now), "ETA stale");
}

#[test]
fn relative_times_are_clear_at_boundaries() {
    let now = NOW;
    assert_eq!(human_duration(59), "<1m");
    assert_eq!(human_duration(60), "1m");
    assert_eq!(human_duration(3_600), "1h 0m");
    assert_eq!(human_duration(90_000), "1d 1h");
    assert_eq!(reset_eta(None, now), "unknown");
    assert_eq!(reset_eta(Some(now), now), "due; refresh pending");
    assert_eq!(reset_eta(Some(now + 300 * SECOND), now), "in 5m");
}

#[test]
fn temporary_reason_is_visible_only_during_cooldown() {
    let now = NOW;
    let mut account = account_summary(now);
    account.status_reason = Some("legacy stale reason".to_string());
    account.cooldown_reason = Some("transient upstream error".to_string());
    account.cooldown_until = Some(now + 10 * SECOND);

    let cooling = to_account_status(&account, 0, vec![], now, false);
    assert_eq!(
        cooling.status_reason.as_deref(),
        Some("transient upstream error")
    );

    account.cooldown_until = Some(now - SECOND);
    let recovered = to_account_status(&account, 0, vec![], now, false);
    assert_eq!(recovered.status_reason, None);

    account.status = "auth_failed".to_string();
    account.status_reason = Some("device login required".to_string());
    let persistent = to_account_status(&account, 0, vec![], now, false);
    assert_eq!(
        persistent.status_reason.as_deref(),
        Some("device login required")
    );
}

fn compact_in_floats(value: i64) -> String {
    let units = ["", "k", "M", "B", "T", "P", "E"];
    let sign = if value < 0 { "-" } else { "" };
    let mut unit = 0;
    let mut scaled = value.unsigned_abs() as f64;
    while scaled >= 1_000.0 && unit < 6 {
        scaled /= 1_000.0;
        unit += 1;
    }
    if unit == 0 {
        return value.to_string();
    }
    let factor = if scaled < 100.0 { 10.0 } else { 1.0 };
    let mut rounded = (scaled * factor).round() / factor;
    if rounded >= 1_000.0 && unit < 6 {
        rounded /= 1_000.0;
        unit += 1;
    }
    if rounded.fract() == 0.0 {
        format!("{sign}{rounded:.0}{}", units[unit])
    } else {
        format!("{sign}{rounded:.1}{}", units[unit])
    }
}

#[test]
fn counts_are_rounded_as_doubles_are() {
    let mut value: i64 = 1;
    let mut step: i64 = 1;
    for _ in 0..60_000 {
        assert_eq!(compact_count(value), compact_in_floats(value), "value={value}");
        assert_eq!(compact_count(-value), compact_in_floats(-value));
        step = step.wrapping_mul(6_364_136_223_846_793_005).wrapping_add(1_442_695_040_888_963_407);
        value = step >> (step as u64 % 63);
        if value == i64::MIN {
            value = 0;
        }
    }
    for base in [1_000i64, 1_000_000, 1_000_000_000, 1_000_000_000_000, 1_000_000_000_000_000] {
        for tenth in 0..400i64 {
            for off in -2..3i64 {
                let value = base / 20 * (2 * tenth + 1) + off;
                assert_eq!(compact_count(value), compact_in_floats(value), "value={value}");
            }
        }
        for number in 100..1_000i64 {
            for off in -2..3i64 {
                let value = base / 2 * (2 * number + 1) + off;
                assert_eq!(compact_count(value), compact_in_floats(value), "value={value}");
            }
        }
    }
    for value in [6_449_999_999_999_999, 9_949_999_999_999_999, i64::MIN, i64::MIN + 1] {
        assert_eq!(compact_count(value), compact_in_floats(value), "value={value}");
    }
}

#[test]
fn bars_are_rounded_as_doubles_are() {
    for step in 0..2_001 {
        let used = step as f64 / 20.0;
        let filled = (used.clamp(0.0, 100.0) / 10.0).round() as usize;
        let wanted = format!("{}{}", "█".repeat(filled), "░".repeat(10 - filled));
        assert_eq!(usage_bar(used.to_bits()), wanted, "used={used}");
    }
    assert_eq!(usage_bar((-3.0f64).to_bits()), "░".repeat(10));
    assert_eq!(usage_bar(400.0f64.to_bits()), "█".repeat(10));
    assert_eq!(usage_bar(f64::NAN.to_bits()), "░".repeat(10));
    assert_eq!(usage_bar(4.999999999999999f64.to_bits()), "░".repeat(10));
}

#[test]
fn texts_fit_on_one_line() {
    assert_eq!(one_line("  a \n b\t\tc ", 10), "a b c");
    assert_eq!(one_line("abcdef", 6), "abcdef");
    assert_eq!(one_line("abc def", 6), "abc de…");
    assert_eq!(one_line(" \u{2003} ", 3), "");
    assert_eq!(short_label("--work"), "W");
    assert_eq!(short_label("9x"), "9");
    assert_eq!(short_label("é"), "?");
}

#[test]
fn the_heaviest_core_window_stands_for_an_account() {
    let account = account_status(vec![
        quota("codex", "Codex", 10.0, "safe", Some(1.5)),
        quota("codex", "Codex", 10.0, "warning", Some(1.5)),
        quota("codex", "Codex", 10.0, "danger", None),
        quota("other", "Other", 99.0, "danger", Some(9.0)),
    ]);
    assert_eq!(display_window(&account), Some(1));
    assert_eq!(compact_account_state(&account, NOW), "10%↗");
    let mut cooling = account_status(vec![]);
    cooling.cooldown_until = Some(NOW + 1);
    assert_eq!(compact_account_state(&cooling, NOW), "wait");
    cooling.status = "paused".to_string();
    assert_eq!(compact_account_state(&cooling, NOW), "pause");
    cooling.status = "auth_failed".to_string();
    assert_eq!(compact_account_state(&cooling, NOW), "login");
    let full = account_status(vec![quota("codex", "Codex", 100.0, "critical", None)]);
    assert_eq!(compact_account_state(&full, NOW), "100%");
    let mut blocked = account_status(vec![quota("codex", "Codex", 20.0, "safe", None)]);
    blocked.available = false;
    assert_eq!(compact_account_state(&blocked, NOW), "!");
    assert_eq!(compact_account_state(&account_status(vec![]), NOW), "—");
}

#[test]
fn a_hot_pool_is_marked() {
    let mut first = account_status(vec![quota("codex", "Codex", 90.5, "danger", None)]);
    first.status_reason = Some("why\nnot".to_string());
    let mut second = account_status(vec![]);
    second.label = "work".to_string();
    second.selected = false;
    second.last_usage_error = Some("late".to_string());
    let output = format_waybar(&PoolStatus {
        degraded: true,
        ..pool(vec![first, second])
    });
    assert_eq!(output.text, "󰬫 ●A:90%↑ · W:—");
    assert_eq!(
        output.class,
        vec!["codex-pool", "degraded", "pace-hot", "pool-low"]
    );
    assert_eq!(output.percentage, 91);
    assert_eq!(output.alt, "degraded");
    assert!(output
        .tooltip
        .starts_with("CODEX POOL  •  2/2 READY\nusage weighted  •  cached locally\n\n┌ ● ACCOUNT-A  •  PRO  •  READY\n│ why not\n├ Codex  •  7d\n│ █████████░   90% used  •   10% free\n│ at pace  empty ETA —  •  DANGER\n│ reset unknown\n└ Activity"));
    assert!(output
        .tooltip
        .contains("┌ ○ WORK  •  PRO  •  NO DATA\n│ No fresh quota data\n│ Usage: late\n└ Activity"));
}

#[test]
fn a_pool_is_reported_with_its_windows_in_order() {
    let mut first = account_summary(NOW);
    first.id = 1;
    first.last_selected_at = Some(NOW - 5);
    first.inflight_count = 2;
    let mut second = account_summary(NOW);
    second.id = 2;
    second.label = String::new();
    second.last_selected_at = Some(NOW - 5);
    second.inflight_count = 3;
    let window = |account_id, key: &str, seconds| AccountWindow {
        account_id,
        window: WindowStatus {
            window_seconds: seconds,
            ..quota(key, "Codex", 5.0, "safe", None)
        },
    };
    let accounts = vec![first, second];
    let status = build_status(
        &accounts,
        vec![
            window(2, "codex", Some(9)),
            window(1, "other", Some(1)),
            window(2, "codex", None),
            window(2, "alpha", Some(7)),
            window(3, "codex", Some(2)),
        ],
        "round_robin",
        "test",
        120,
        NOW,
    );
    assert!(status.healthy);
    assert!(!status.degraded);
    assert_eq!(status.inflight_requests, 5);
    assert_eq!(status.available_account_count, 2);
    assert_eq!(status.selected_account.as_deref(), Some("account-2"));
    assert!(status.accounts[1].selected && !status.accounts[0].selected);
    assert_eq!(status.accounts[1].label, "account-2");
    let keys: Vec<(&str, Option<i64>)> = status.accounts[1]
        .quotas
        .iter()
        .map(|w| (w.quota_key.as_str(), w.window_seconds))
        .collect();
    assert_eq!(
        keys,
        vec![("alpha", Some(7)), ("codex", None), ("codex", Some(9))]
    );

    let mut stale = account_summary(NOW);
    stale.last_usage_refresh_at = Some(NOW - 481 * SECOND);
    let status = build_status(&vec![stale], vec![], "round_robin", "test", 120, NOW);
    assert!(status.degraded && status.healthy);
    let full = AccountWindow {
        account_id: 0,
        window: quota("codex", "Codex", 100.0, "critical", None),
    };
    let status = build_status(
        &vec![account_summary(NOW)],
        vec![full],
        "round_robin",
        "test",
        120,
        NOW,
    );
    assert!(!status.healthy);
    assert_eq!(status.active_account_count, 1);
}

#[test]
fn small_counts_are_plain_and_signs_are_kept() {
    for value in -999..1_000_i64 {
        assert_eq!(compact_count(value), value.to_string());
    }
    for value in [1_000, 12_345, 999_950, 1_234_567_890, i64::MAX] {
        assert_eq!(compact_count(-value), format!("-{}", compact_count(value)));
    }
}

#[test]
fn windows_of_other_quotas_change_nothing_of_the_bar() {
    let core = || quota("codex", "Codex", 42.0, "safe", Some(0.5));
    let other = || quota("codex_bengalfox", "Spark", 99.0, "danger", Some(10.0));
    let alone = format_waybar(&pool(vec![account_status(vec![core()])]));
    for quotas in [vec![core(), other()], vec![other(), core()], vec![other(), core(), other()]] {
        let output = format_waybar(&pool(vec![account_status(quotas)]));
        assert_eq!(output.text, alone.text);
        assert_eq!(output.tooltip, alone.tooltip);
        assert_eq!(output.class, alone.class);
        assert_eq!(output.percentage, alone.percentage);
        assert_eq!(output.alt, alone.alt);
    }
}
