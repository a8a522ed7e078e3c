use codex_lb_rs::double::HUNDRED;
use codex_lb_rs::lease::{release_retry_ms, AccountLoad};
use codex_lb_rs::routing::{
    account_is_eligible, account_telemetry, classify_window, freshness_seconds,
    preview_smart_account, select_account_for_request, weighs_usage, Candidate, CodexWindow, Moment, Pin, RoutingAccount,
    ScoreKind, SelectionReason, Telemetry,
};
use codex_lb_rs::time::FIRST_MILLI;

const NOW: i64 = 1_700_000_000_000;

fn window(used: f64, reset_at: Moment) -> CodexWindow {
    CodexWindow {
        used_percent: Some(used.to_bits()),
        window_seconds: Some(18_000),
        reset_at,
        fetched_at: Some(NOW),
        ahead_of_pace: 12.5f64.to_bits(),
    }
}

fn account(id: u128, created_at: &str) -> RoutingAccount {
    RoutingAccount {
        id,
        row: id as i64,
        active: true,
        cooldown_until: Moment::Missing,
        inflight: 0,
        last_selected_at: None,
        created_at: created_at.to_string(),
        windows: vec![],
    }
}

fn candidate(id: u128, score: f64) -> Candidate {
    Candidate {
        account: account(id, "2024"),
        score: score.to_bits(),
        doubt: 0,
        used: 0,
    }
}

#[test]
fn windows_are_trusted_as_far_as_they_can_be() {
    let soon = Moment::At(NOW + 60_000);
    assert_eq!(classify_window(&window(5.0, soon), NOW, 300), ScoreKind::Timed);
    assert_eq!(
        classify_window(&window(5.0, Moment::Missing), NOW, 300),
        ScoreKind::Raw
    );
    assert_eq!(
        classify_window(&window(5.0, Moment::At(NOW - 300_000)), NOW, 300),
        ScoreKind::Reset
    );
    assert_eq!(
        classify_window(&window(5.0, Moment::At(NOW - 300_001)), NOW, 300),
        ScoreKind::Unknown
    );
    assert_eq!(
        classify_window(&window(5.0, Moment::Unreadable), NOW, 300),
        ScoreKind::Unknown
    );
    let mut stale = window(5.0, soon);
    stale.fetched_at = Some(NOW - 300_001);
    assert_eq!(classify_window(&stale, NOW, 300), ScoreKind::Unknown);
    let mut far = window(5.0, Moment::At(NOW + 18_300_001));
    assert_eq!(classify_window(&far, NOW, 300), ScoreKind::Unknown);
    far.reset_at = Moment::At(NOW + 18_300_000);
    assert_eq!(classify_window(&far, NOW, 300), ScoreKind::Timed);
    assert_eq!(freshness_seconds(60), 300);
    assert_eq!(freshness_seconds(120), 360);
}

#[test]
fn the_tightest_window_counts() {
    let windows = vec![
        window(5.0, Moment::At(NOW + 60_000)),
        window(40.0, Moment::Missing),
    ];
    assert_eq!(
        account_telemetry(&windows, NOW, 300),
        Telemetry {
            pressure: 40.0f64.to_bits(),
            doubt: 0,
            used: 40.0f64.to_bits()
        }
    );
    assert_eq!(
        account_telemetry(&vec![], NOW, 300),
        Telemetry {
            pressure: HUNDRED,
            doubt: 2,
            used: HUNDRED
        }
    );
}

#[test]
fn accounts_that_cannot_be_used_are_left_out() {
    let mut a = account(1, "2024");
    assert!(account_is_eligible(&a, NOW));
    a.cooldown_until = Moment::At(NOW + 1);
    assert!(!account_is_eligible(&a, NOW));
    a.cooldown_until = Moment::At(NOW);
    assert!(account_is_eligible(&a, NOW));
    a.windows.push(window(100.0, Moment::At(NOW + 1)));
    assert!(!account_is_eligible(&a, NOW));
    a.windows[0].reset_at = Moment::At(NOW);
    assert!(account_is_eligible(&a, NOW));
    a.active = false;
    assert!(!account_is_eligible(&a, NOW));
}

#[test]
fn the_lower_score_wins_unless_accounts_rotate() {
    let candidates = vec![candidate(2, 9.0), candidate(1, 3.5), candidate(3, 3.5)];
    assert_eq!(preview_smart_account(&candidates, &vec![], true, NOW), Some(1));
    assert_eq!(preview_smart_account(&candidates, &vec![1], true, NOW), Some(2));
    let mut rotating = candidates;
    rotating[1].account.last_selected_at = Some("2025-01-01T00:00:00.000Z".to_string());
    assert_eq!(preview_smart_account(&rotating, &vec![], false, NOW), Some(0));
    assert_eq!(
        preview_smart_account(&rotating, &vec![1, 2, 3], false, NOW),
        None
    );
    assert!(weighs_usage("usage_weighted"));
    assert!(!weighs_usage("round_robin"));
}

#[test]
fn sessions_stay_where_they_are_while_they_can() {
    let candidates = vec![candidate(1, 1.0), candidate(2, 90.0)];
    let pin = |at| {
        Some(Pin {
            account_id: 2,
            last_used_at: at,
        })
    };
    let select = |candidates: &Vec<Candidate>, pin, excluded: &Vec<u128>| {
        select_account_for_request(candidates, pin, excluded, true, 60, NOW)
    };
    assert_eq!(
        select(&candidates, pin(Moment::At(NOW - 60_000)), &vec![]).unwrap(),
        (1, SelectionReason::Sticky)
    );
    assert_eq!(
        select(&candidates, pin(Moment::At(NOW - 60_001)), &vec![]).unwrap(),
        (0, SelectionReason::UsageWeighted)
    );
    assert_eq!(
        select(&candidates, pin(Moment::At(NOW)), &vec![2]).unwrap(),
        (0, SelectionReason::Failover)
    );
    let error = select(&candidates, None, &vec![1, 2]).unwrap_err();
    assert_eq!(error.status_code(), 503);
    assert_eq!(
        error.message(),
        "no eligible accounts are available; retry after the current cooldown"
    );
    assert_eq!(SelectionReason::RoundRobin.as_str(), "round_robin");
}

#[test]
fn requests_in_flight_are_counted_from_zero() {
    let mut load = AccountLoad {
        inflight: 7,
        last_selected_at: None,
        last_request_at: None,
        cooldown_until: Moment::At(NOW),
        cooldown_reason: Some("limited".to_string()),
    };
    assert!(load.acquire_if_available(true, &vec![], NOW));
    assert_eq!(load.inflight, 8);
    assert_eq!(load.last_selected_at, Some(NOW));
    assert_eq!(load.cooldown_until, Moment::Missing);
    assert_eq!(load.cooldown_reason, None);
    load.release(NOW + 1);
    assert_eq!((load.inflight, load.last_request_at), (7, Some(NOW + 1)));
    load.release_reservation();
    assert_eq!((load.inflight, load.last_request_at), (6, Some(NOW + 1)));
    load.reset_inflight();
    load.release(NOW + 2);
    assert_eq!(load.inflight, 0);
    assert!(!load.acquire_if_available(false, &vec![], NOW));
    assert!(!load.acquire_if_available(true, &vec![window(100.0, Moment::Missing)], NOW));
    load.cooldown_until = Moment::At(NOW + 1);
    assert!(!load.acquire_if_available(true, &vec![], NOW));
    assert_eq!(load.inflight, 0);
    load.acquire(NOW + 5);
    assert_eq!(load.cooldown_until, Moment::Missing);
    assert_eq!(release_retry_ms(0), Some(25));
    assert_eq!(release_retry_ms(1), Some(50));
    assert_eq!(release_retry_ms(2), None);
}

#[test]
fn a_session_stays_for_a_time_that_can_be_reckoned() {
    let candidates = vec![candidate(1, 1.0), candidate(2, 90.0)];
    let select = |ttl| {
        let pin = Some(Pin {
            account_id: 2,
            last_used_at: Moment::At(NOW),
        });
        select_account_for_request(&candidates, pin, &vec![], true, ttl, NOW).unwrap().1
    };
    assert_eq!(select(0), SelectionReason::Sticky);
    assert_eq!(select(-1), SelectionReason::UsageWeighted);
    assert_eq!(select(i64::MIN), SelectionReason::UsageWeighted);
    let longest = (NOW - FIRST_MILLI) / 1_000;
    assert_eq!(select(longest), SelectionReason::Sticky);
    assert_eq!(select(longest + 1), SelectionReason::UsageWeighted);
    assert_eq!(select(i64::MAX), SelectionReason::UsageWeighted);
}

#[test]
fn windows_are_compared_in_days_as_doubles() {
    let day = |millis: i64| (millis - FIRST_MILLI) as f64 / 86_400_000.0;
    let span = |seconds: i64| seconds as f64 / 86_400.0;
    let kind = |reset: Option<i64>, length: Option<i64>, fetched: i64, now: i64, fresh: i64| {
        let far = |reset: i64, length: i64| day(reset) > day(now) + span(length) + span(300);
        match (reset, length) {
            (Some(reset), Some(length)) if far(reset, length) => ScoreKind::Unknown,
            (Some(reset), _) if day(reset) <= day(now) => {
                if day(reset) >= day(now) - span(fresh) {
                    ScoreKind::Reset
                } else {
                    ScoreKind::Unknown
                }
            }
            _ if day(fetched) < day(now) - span(fresh) || day(fetched) > day(now) + span(300) => {
                ScoreKind::Unknown
            }
            (None, _) | (_, None) => ScoreKind::Raw,
            _ => ScoreKind::Timed,
        }
    };
    let mut inexact = 0;
    for step in 0..2_000 {
        let now = NOW + step * 86_413;
        for (fresh, length) in [(300, 18_000), (360, 604_800), (1_000_007, 1)] {
            for shift in -1..=1 {
                for (reset, length, fetched) in [
                    (Some(now - fresh * 1_000 + shift), Some(length), now),
                    (Some(now + (length + 300) * 1_000 + shift), Some(length), now),
                    (Some(now + (length + 300) * 1_000 + shift), None, now),
                    (Some(now + 1_000), Some(length), now - fresh * 1_000 + shift),
                    (None, Some(length), now + 300_000 + shift),
                ] {
                    let mut it = window(5.0, reset.map_or(Moment::Missing, Moment::At));
                    it.window_seconds = length;
                    it.fetched_at = Some(fetched);
                    let expected = kind(reset, length, fetched, now, fresh);
                    assert_eq!(classify_window(&it, now, fresh), expected);
                    if shift == 0 && expected == ScoreKind::Unknown {
                        inexact += 1;
                    }
                }
            }
        }
    }
    assert!(inexact > 0);
    let mut old = window(5.0, Moment::At(NOW - 1));
    old.window_seconds = Some(i64::MAX);
    assert_eq!(classify_window(&old, NOW, i64::MAX), ScoreKind::Reset);
}
