use codex_lb_rs::error::AppError;
use codex_lb_rs::hashing::session_route_key;
use codex_lb_rs::keys::{
    parse_session_route_action, parse_session_route_status, validate_session_route_keys,
    SessionRouteActionKind, SessionRouteActionStatus, SessionRouteKey,
};
use codex_lb_rs::route_actions::{
    apply_session_route_action, SessionRouteActionRequest, SessionRouteActionResponse,
};
use codex_lb_rs::route_binding::{
    bind_affinities_at_epoch, bind_affinity, session_route_epoch_is_current,
};
use codex_lb_rs::route_commands::command_session;
use codex_lb_rs::routing::{Candidate, Moment, RoutingAccount};
use codex_lb_rs::route_listing::{list_session_routes, resolve_session_routes, StoredRoute};
use codex_lb_rs::route_lookup::{
    list_pending_session_route_actions, resolve_session_route_context, resolve_session_route_epoch,
};
use codex_lb_rs::routes::{
    account_display_label, resolve_session_route_target, AccountLabel, RouteTables,
};
use sha2::Digest as _;
use uuid::Uuid;

const PERSONAL: u128 = 0x11;
const WORK: u128 = 0x22;
const NOW: i64 = 1_700_000_000_000;

fn accounts() -> Vec<AccountLabel> {
    vec![
        AccountLabel {
            id: PERSONAL,
            label: "personal".to_string(),
        },
        AccountLabel {
            id: WORK,
            label: "work".to_string(),
        },
    ]
}

fn reroute_request(
    root: &SessionRouteKey,
    keys: Vec<SessionRouteKey>,
    target: &str,
    dry_run: bool,
) -> SessionRouteActionRequest {
    SessionRouteActionRequest {
        root_key_hash: root.key_hash.clone(),
        keys,
        action: SessionRouteActionKind::Reroute,
        target: Some(target.to_string()),
        dry_run,
    }
}

fn act(
    tables: &mut RouteTables,
    eligible: &[u128],
    request: &SessionRouteActionRequest,
) -> Result<SessionRouteActionResponse, AppError> {
    let eligible = eligible.to_vec();
    let smart = eligible.first().copied();
    apply_session_route_action(tables, &accounts(), &eligible, smart, request, &vec![], NOW)
}

fn route(tables: &RouteTables, key: &SessionRouteKey) -> (u128, i64) {
    let row = tables.affinity.get(&key.key_hash).expect("a route");
    (row.account_id, row.route_generation)
}

#[test]
fn route_actions_are_atomic_durable_and_generation_guarded() {
    let mut tables = RouteTables::new();
    let session = session_route_key("session_id", "route-action-session");
    bind_affinity(&mut tables, &session.key_hash, &session.kind, PERSONAL, NOW)
        .expect("seed legacy route");
    let old_epoch = resolve_session_route_epoch(&tables, &vec![session.clone()])
        .expect("resolve route epoch")
        .expect("seeded route root");
    assert_eq!(old_epoch.route_generation, 0);

    let both = [PERSONAL, WORK];
    let to_work = reroute_request(&session, vec![session.clone()], "work", false);
    let applied = act(&mut tables, &both, &to_work).expect("apply reroute");
    assert_eq!(applied.status, SessionRouteActionStatus::Applied);
    assert_eq!(applied.route_generation, 1);
    assert_eq!(applied.previous_accounts, ["personal"]);
    assert_eq!(applied.effective_account.as_deref(), Some("work"));

    assert_eq!(route(&tables, &session), (WORK, 1));
    assert!(!bind_affinities_at_epoch(
        &mut tables,
        &vec![session.clone()],
        PERSONAL,
        Some(&old_epoch),
        NOW,
    )
    .expect("reject stale route bind"));
    assert!(!session_route_epoch_is_current(&tables, &old_epoch));

    let no_op = act(&mut tables, &both, &to_work).expect("repeat reroute");
    assert_eq!(no_op.status, SessionRouteActionStatus::NoOp);
    assert_eq!(no_op.route_generation, 1);

    let dry_run = act(
        &mut tables,
        &both,
        &SessionRouteActionRequest {
            root_key_hash: session.key_hash.clone(),
            keys: vec![session.clone()],
            action: SessionRouteActionKind::Rebalance,
            target: None,
            dry_run: true,
        },
    )
    .expect("preview rebalance");
    assert!(dry_run.dry_run);
    assert_eq!(dry_run.status, SessionRouteActionStatus::Applied);
    assert_eq!(dry_run.effective_account.as_deref(), Some("personal"));
    assert_eq!(route(&tables, &session), (WORK, 1));

    let fallback = act(&mut tables, &[PERSONAL], &to_work).expect("fallback reroute");
    assert_eq!(fallback.status, SessionRouteActionStatus::Fallback);
    assert_eq!(fallback.effective_account.as_deref(), Some("personal"));
    assert_eq!(fallback.route_generation, 2);

    let pending = act(&mut tables, &[], &to_work).expect("persist pending reroute");
    assert_eq!(pending.status, SessionRouteActionStatus::Pending);
    assert_eq!(pending.route_generation, 2);
    assert_eq!(route(&tables, &session), (PERSONAL, 2));
    let retry = list_pending_session_route_actions(&tables, 100);
    assert_eq!(retry.len(), 1);
    assert_eq!(
        retry[0].target.as_deref(),
        Some(Uuid::from_u128(WORK).to_string().as_str())
    );
}

#[test]
fn route_actions_merge_roots_and_reject_orphans() {
    let mut tables = RouteTables::new();
    let root = session_route_key("session_id", "merge-root");
    let alias = session_route_key("prompt_cache_key", "merge-alias");
    bind_affinity(&mut tables, &root.key_hash, &root.kind, PERSONAL, NOW)
        .expect("seed first route root");
    bind_affinity(&mut tables, &alias.key_hash, &alias.kind, WORK, NOW)
        .expect("seed second route root");

    let both = [PERSONAL, WORK];
    let merged = act(
        &mut tables,
        &both,
        &reroute_request(&root, vec![root.clone(), alias.clone()], "work", false),
    )
    .expect("merge conflicting roots");
    assert_eq!(merged.status, SessionRouteActionStatus::Applied);
    assert_eq!(merged.merged_root_count, 1);
    assert_eq!(merged.linked_route_count, 2);
    assert_eq!(route(&tables, &root).0, WORK);
    assert_eq!(route(&tables, &alias).0, WORK);
    let current_epoch = resolve_session_route_epoch(&tables, &vec![root.clone()])
        .expect("resolve merged epoch")
        .expect("merged root epoch");
    assert!(bind_affinities_at_epoch(
        &mut tables,
        &vec![root.clone()],
        PERSONAL,
        Some(&current_epoch),
        NOW,
    )
    .expect("bind successful transport fallback"));
    assert_eq!(route(&tables, &root).0, PERSONAL);
    assert_eq!(route(&tables, &alias).0, PERSONAL);
    let state = tables.roots.get(&root.key_hash).expect("the merged root");
    assert_eq!(state.effective_account_id, Some(PERSONAL));
    assert_eq!(state.action_status.as_deref(), Some("fallback"));
    assert_eq!(tables.roots.len(), 1);

    let orphan = session_route_key("session_id", "never-routed-session");
    let error = act(
        &mut tables,
        &both,
        &reroute_request(&orphan, vec![orphan.clone()], "work", false),
    )
    .expect_err("reject an unknown session fingerprint");
    assert!(matches!(error, AppError::NotFound(_)));
    assert!(!tables.roots.contains(&orphan.key_hash));
}

#[test]
fn commanded_sessions_are_found_with_their_command() {
    let mut tables = RouteTables::new();
    let session = session_route_key("session_id", "s");
    bind_affinity(&mut tables, &session.key_hash, &session.kind, PERSONAL, NOW).unwrap();
    let before = resolve_session_route_context(&tables, &vec![session.clone()])
        .unwrap()
        .unwrap();
    assert_eq!(before.action, None);
    act(
        &mut tables,
        &[PERSONAL, WORK],
        &reroute_request(&session, vec![session.clone()], &Uuid::from_u128(WORK).to_string(), false),
    )
    .unwrap();
    let context = resolve_session_route_context(&tables, &vec![session.clone()])
        .unwrap()
        .unwrap();
    assert_eq!(context.action, Some(SessionRouteActionKind::Reroute));
    assert_eq!(context.requested_account_id, Some(WORK));
    assert_eq!(context.effective_account_id, Some(WORK));
    assert!(!bind_affinities_at_epoch(&mut tables, &vec![session], PERSONAL, None, NOW).unwrap());
}

#[test]
fn targets_are_labels_or_identifiers() {
    let target = resolve_session_route_target(&accounts(), " Work ").unwrap();
    assert_eq!((target.account_id, target.account_label.as_str()), (WORK, "work"));
    let by_id = Uuid::from_u128(PERSONAL).to_string();
    assert_eq!(
        resolve_session_route_target(&accounts(), &by_id).unwrap().account_id,
        PERSONAL
    );
    assert!(resolve_session_route_target(&accounts(), "nobody").is_err());
    let nameless = vec![AccountLabel {
        id: 5,
        label: String::new(),
    }];
    assert_eq!(account_display_label(&nameless, 5).as_deref(), Some("unlabeled"));
    assert_eq!(account_display_label(&nameless, 6), None);
}

#[test]
fn keys_are_checked_before_they_are_used() {
    let key = |hash: &str, kind: &str| SessionRouteKey {
        key_hash: hash.to_string(),
        kind: kind.to_string(),
    };
    let hash = "a".repeat(64);
    assert!(validate_session_route_keys(&vec![]).unwrap().is_empty());
    assert!(validate_session_route_keys(&vec![key("short", "session_id")]).is_err());
    assert!(validate_session_route_keys(&vec![key(&hash, "no good")]).is_err());
    let many: Vec<SessionRouteKey> = (0..501)
        .map(|i| session_route_key("session_id", &i.to_string()))
        .collect();
    assert!(validate_session_route_keys(&many).is_err());
    let checked = validate_session_route_keys(&vec![
        key(&hash, " session_id "),
        key(&hash, "session_id"),
    ])
    .unwrap();
    assert_eq!(checked, vec![key(&hash, "session_id")]);
    assert!(validate_session_route_keys(&vec![
        key(&hash, "session_id"),
        key(&hash, "thread_id"),
    ])
    .is_err());
}

#[test]
fn names_of_actions_and_states_are_read_back() {
    for action in [SessionRouteActionKind::Rebalance, SessionRouteActionKind::Reroute] {
        assert_eq!(parse_session_route_action(action.as_str()).unwrap(), action);
    }
    for status in [
        SessionRouteActionStatus::Applied,
        SessionRouteActionStatus::Fallback,
        SessionRouteActionStatus::Pending,
        SessionRouteActionStatus::NoOp,
    ] {
        assert_eq!(parse_session_route_status(status.as_str()).unwrap(), status);
    }
    assert!(parse_session_route_action("move").is_err());
    assert!(parse_session_route_status("done").is_err());
}

#[test]
fn hashes_are_those_of_sha_256() {
    let key = session_route_key("session_id", "abc");
    assert_eq!(key.key_hash.len(), 64);
    assert_ne!(key.key_hash, session_route_key("thread_id", "abc").key_hash);
    assert_ne!(key.key_hash, session_route_key("session_id", "abd").key_hash);
}

fn stored(hash: &str, kind: &str, account_id: u128, last_used_at: i64) -> StoredRoute {
    StoredRoute {
        key_hash: hash.to_string(),
        kind: kind.to_string(),
        account_id,
        created_at: 1,
        last_used_at,
    }
}

#[test]
fn routes_are_listed_by_their_last_use() {
    let rows = vec![
        stored("bb", "session_id", PERSONAL, NOW),
        stored("aa", "thread_id", 0xdeadbeef_00000000_00000000_00000001, NOW),
        stored("cc", "response_id", PERSONAL, NOW),
        stored("dd", "session_id", WORK, NOW - 61_000),
        stored("ee", "conversation_id", WORK, NOW + 5),
        stored("ff", "prompt_cache_key", 0x99, NOW),
    ];
    let mut known = accounts();
    known.push(AccountLabel {
        id: 0xdeadbeef_00000000_00000000_00000001,
        label: String::new(),
    });
    let listed = list_session_routes(&rows, &known, 100, 60, NOW);
    let shown: Vec<(&str, &str)> = listed
        .iter()
        .map(|r| (r.key_hash.as_str(), r.account_label.as_str()))
        .collect();
    assert_eq!(
        shown,
        vec![("ee", "work"), ("aa", "account-DEADBEEF"), ("bb", "personal")]
    );
    assert_eq!(list_session_routes(&rows, &known, 0, 60, NOW).len(), 1);
    let wanted = vec!["cc".to_string(), "dd".to_string()];
    let found = resolve_session_routes(&rows, &known, &wanted, 60, NOW);
    assert_eq!(found.len(), 1);
    assert_eq!(found[0].key_hash, "cc");
    assert!(resolve_session_routes(&rows, &known, &vec![], 60, NOW).is_empty());
}

#[test]
fn aliases_are_hashed_with_sha_256() {
    let digest = sha2::Sha256::digest(b"session_id\0abc");
    let wanted: String = digest.iter().map(|byte| format!("{byte:02x}")).collect();
    assert_eq!(session_route_key("session_id", "abc").key_hash, wanted);
}

#[test]
fn failures_have_their_status_and_code() {
    let text = || "why".to_string();
    for (error, status, code) in [
        (AppError::BadRequest(text()), 400, "bad_request"),
        (AppError::Unauthorized(text()), 401, "unauthorized"),
        (AppError::NotFound(text()), 404, "not_found"),
        (AppError::Unavailable(text()), 503, "unavailable"),
        (AppError::Upstream(text()), 502, "upstream"),
        (AppError::Internal(text()), 500, "internal"),
    ] {
        assert_eq!(error.status_code(), status);
        assert_eq!(error.code(), code);
        assert_eq!(error.message(), "why");
    }
}

#[test]
fn commands_take_the_accounts_as_they_are_now() {
    let candidate = |id: u128, cooldown_until: Moment, score: f64| Candidate {
        account: RoutingAccount {
            id,
            row: id as i64,
            active: true,
            cooldown_until,
            inflight: 0,
            last_selected_at: None,
            created_at: "2024".to_string(),
            windows: vec![],
        },
        score: score.to_bits(),
        doubt: 0,
        used: 0,
    };
    let mut tables = RouteTables::new();
    let session = session_route_key("session_id", "now");
    bind_affinity(&mut tables, &session.key_hash, &session.kind, PERSONAL, NOW).unwrap();
    let to_work = reroute_request(&session, vec![session.clone()], "work", false);
    let cooling = vec![
        candidate(PERSONAL, Moment::Missing, 50.0),
        candidate(WORK, Moment::At(NOW + 1), 1.0),
    ];
    let held = command_session(&mut tables, &accounts(), &cooling, true, &to_work, &vec![], NOW)
        .unwrap();
    assert_eq!(held.status, SessionRouteActionStatus::Fallback);
    assert_eq!(held.effective_account.as_deref(), Some("personal"));
    let free = vec![
        candidate(PERSONAL, Moment::Missing, 50.0),
        candidate(WORK, Moment::At(NOW), 90.0),
    ];
    let moved = command_session(&mut tables, &accounts(), &free, true, &to_work, &vec![], NOW)
        .unwrap();
    assert_eq!(moved.status, SessionRouteActionStatus::Applied);
    assert_eq!(route(&tables, &session).0, WORK);
}

#[test]
fn routes_are_listed_for_a_time_that_can_be_reckoned() {
    let rows = vec![stored("aa", "session_id", WORK, NOW - 1_000)];
    let listed = |ttl| list_session_routes(&rows, &accounts(), 10, ttl, NOW).len();
    assert_eq!(listed(1), 1);
    assert_eq!(listed(-5), 1);
    assert_eq!(listed(1_000_000_000), 1);
    assert_eq!(listed(i64::MAX), 0);
    let wanted = vec!["aa".to_string()];
    assert_eq!(resolve_session_routes(&rows, &accounts(), &wanted, i64::MAX, NOW).len(), 0);
    assert_eq!(resolve_session_routes(&rows, &accounts(), &wanted, 60, NOW).len(), 1);
}
