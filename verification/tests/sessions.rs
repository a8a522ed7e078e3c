use std::collections::HashSet;

use codex_lb_rs::cli::{
    list_report, list_sessions, run_sessions, run_with_catalog, session_action, show_report,
    show_session, ApiRequest, CatalogStep, Method, SessionsCommand, SessionsStep,
};
use codex_lb_rs::json::{parse_text, Json};
use codex_lb_rs::keys::validate_session_route_keys;
use codex_lb_rs::sessions::{
    first_session_meta, root_session_key_hash, session_action_payload,
    session_id_from_rollout_path, session_tree_aliases, RolloutNode, SessionCatalog, SessionTree,
    MAX_SESSION_ACTION_KEYS,
};
use uuid::Uuid;

const SESSION_ALIAS_KINDS: [&str; 4] = [
    "session_id",
    "thread_id",
    "conversation_id",
    "prompt_cache_key",
];

fn text(id: u128) -> String {
    Uuid::from_u128(id).to_string()
}

fn write_rollout(catalog: &mut SessionCatalog, directory: &str, filename_id: u128, records: &[String]) {
    let file_name = format!("rollout-test-{}.jsonl", text(filename_id));
    let path = format!("/home/codex/{directory}/{file_name}");
    let meta = first_session_meta(&records.to_vec());
    catalog.add_rollout(&path, &file_name, 0, meta.as_ref());
}

fn session_meta(
    id: u128,
    session_id: Option<u128>,
    parent_thread_id: Option<u128>,
    forked_from_id: Option<u128>,
) -> String {
    let field = |value: Option<u128>| match value {
        Some(id) => format!("\"{}\"", text(id)),
        None => "null".to_string(),
    };
    format!(
        r#"{{"type":"session_meta","payload":{{"id":{},"session_id":{},"parent_thread_id":{},"forked_from_id":{}}}}}"#,
        field(Some(id)),
        field(session_id),
        field(parent_thread_id),
        field(forked_from_id)
    )
}

fn json(text: &str) -> Json {
    parse_text(text).expect("a JSON text")
}

#[test]
fn reads_session_id_from_rollout_filename() {
    let session_id = session_id_from_rollout_path(
        "rollout-2026-07-22T12-00-00-019f8a00-1234-7abc-8def-0123456789ab.jsonl",
    );
    assert_eq!(
        session_id.map(text).as_deref(),
        Some("019f8a00-1234-7abc-8def-0123456789ab")
    );
    assert_eq!(session_id_from_rollout_path("notes.jsonl"), None);
    assert_eq!(
        session_id_from_rollout_path(
            "rollout-2026-07-22T12-00-00-019f8a00-1234-7abc-8def-0123456789ab.txt",
        ),
        None
    );
}

#[test]
fn modern_metadata_groups_a_whole_root_tree_before_limits() {
    let mut catalog = SessionCatalog::new();
    let root = 1;
    let child = 2;
    let grandchild = 3;
    let other_root = 4;
    write_rollout(
        &mut catalog,
        "sessions/2026/07/23",
        root,
        &[session_meta(root, Some(root), None, None)],
    );
    write_rollout(
        &mut catalog,
        "archived_sessions",
        child,
        &[
            r#"{"type":"ignored_before_meta"}"#.to_string(),
            session_meta(child, Some(root), Some(root), Some(root)),
        ],
    );
    write_rollout(
        &mut catalog,
        "nested/agent/tree",
        grandchild,
        &[session_meta(grandchild, Some(root), Some(child), Some(child))],
    );
    write_rollout(
        &mut catalog,
        "sessions/2026/07/22",
        other_root,
        &[session_meta(other_root, Some(other_root), None, None)],
    );

    let trees = catalog.session_trees();
    assert_eq!(trees.len(), 2, "children must not consume list slots");
    let tree = catalog.tree_for(grandchild).expect("resolve descendant");
    assert_eq!(tree.root_id, root);
    assert_eq!(
        tree.member_ids.into_iter().collect::<HashSet<_>>(),
        HashSet::from([root, child, grandchild])
    );
}

#[test]
fn legacy_metadata_follows_parent_graph_and_filename_fallback() {
    let mut catalog = SessionCatalog::new();
    let root = 10;
    let child = 11;
    let filename_only = 12;
    write_rollout(
        &mut catalog,
        "sessions/legacy",
        root,
        &[session_meta(root, None, None, None)],
    );
    write_rollout(
        &mut catalog,
        "sessions/legacy",
        child,
        &[session_meta(child, None, Some(root), Some(root))],
    );
    write_rollout(
        &mut catalog,
        "other-history",
        filename_only,
        &[r#"{"type":"event_msg","payload":{}}"#.to_string()],
    );

    assert_eq!(catalog.tree_for(child).unwrap().root_id, root);
    assert_eq!(
        catalog.tree_for(filename_only).unwrap().root_id,
        filename_only
    );
}

#[test]
fn mutation_rejects_metadata_filename_mismatch() {
    let mut catalog = SessionCatalog::new();
    let filename_id = 20;
    let metadata_id = 21;
    write_rollout(
        &mut catalog,
        "sessions/mismatch",
        filename_id,
        &[session_meta(metadata_id, Some(metadata_id), None, None)],
    );

    let error = catalog
        .mutation_tree_for(metadata_id)
        .expect_err("mismatch must block mutation");
    assert!(error.message().contains("inconsistent"));
}

#[test]
fn mutation_rejects_cycles_and_duplicate_conflicts() {
    let mut catalog = SessionCatalog::new();
    let first = 30;
    let second = 31;
    write_rollout(
        &mut catalog,
        "sessions/cycle",
        first,
        &[session_meta(first, None, Some(second), Some(second))],
    );
    write_rollout(
        &mut catalog,
        "sessions/cycle",
        second,
        &[session_meta(second, None, Some(first), Some(first))],
    );
    assert!(catalog
        .mutation_tree_for(first)
        .expect_err("cycle must fail")
        .message()
        .contains("cycle"));

    let mut catalog = SessionCatalog::new();
    let duplicate = 32;
    let root_a = 33;
    let root_b = 34;
    write_rollout(
        &mut catalog,
        "sessions/a",
        duplicate,
        &[session_meta(duplicate, Some(root_a), None, None)],
    );
    write_rollout(
        &mut catalog,
        "sessions/b",
        duplicate,
        &[session_meta(duplicate, Some(root_b), None, None)],
    );
    assert!(catalog
        .mutation_tree_for(duplicate)
        .expect_err("conflict must fail")
        .message()
        .contains("inconsistent"));
}

#[test]
fn mutation_validates_only_the_requested_connected_tree() {
    let mut catalog = SessionCatalog::new();
    let valid_root = 40;
    let unrelated_filename = 41;
    let unrelated_metadata = 42;
    write_rollout(
        &mut catalog,
        "sessions/valid",
        valid_root,
        &[session_meta(valid_root, Some(valid_root), None, None)],
    );
    write_rollout(
        &mut catalog,
        "sessions/unrelated-mismatch",
        unrelated_filename,
        &[session_meta(
            unrelated_metadata,
            Some(unrelated_metadata),
            None,
            None,
        )],
    );

    assert!(catalog.mutation_tree_for(valid_root).is_ok());
    assert!(catalog.mutation_tree_for(unrelated_metadata).is_err());
}

#[test]
fn modern_session_root_must_match_the_parent_graph() {
    let mut catalog = SessionCatalog::new();
    let claimed_root = 50;
    let parent_root = 51;
    let child = 52;
    write_rollout(
        &mut catalog,
        "sessions/conflicting-modern-root",
        claimed_root,
        &[session_meta(claimed_root, Some(claimed_root), None, None)],
    );
    write_rollout(
        &mut catalog,
        "sessions/conflicting-modern-root",
        parent_root,
        &[session_meta(parent_root, Some(parent_root), None, None)],
    );
    write_rollout(
        &mut catalog,
        "sessions/conflicting-modern-root",
        child,
        &[session_meta(
            child,
            Some(claimed_root),
            Some(parent_root),
            Some(parent_root),
        )],
    );

    let error = catalog
        .mutation_tree_for(child)
        .expect_err("conflicting modern and parent roots must fail");
    assert!(error.message().contains("conflicts with its parent root"));
}

#[test]
fn action_aliases_are_typed_unique_bounded_and_privacy_safe() {
    let root = 100;
    let member_ids = (100..225).collect::<Vec<u128>>();
    let tree = SessionTree {
        root_id: root,
        member_ids: member_ids.clone(),
        modified: 0,
    };

    let aliases = session_tree_aliases(&tree).expect("500 aliases fit exactly");
    assert_eq!(aliases.len(), MAX_SESSION_ACTION_KEYS);
    assert_eq!(aliases[0].key_hash, root_session_key_hash(root));
    assert_eq!(
        aliases
            .iter()
            .take(SESSION_ALIAS_KINDS.len())
            .map(|alias| alias.kind.as_str())
            .collect::<Vec<_>>(),
        SESSION_ALIAS_KINDS
    );
    assert_eq!(
        aliases
            .iter()
            .map(|alias| alias.key_hash.as_str())
            .collect::<HashSet<_>>()
            .len(),
        aliases.len()
    );

    let payload = session_action_payload(&tree, "reroute", Some("account-a"), true)
        .expect("build bounded payload");
    assert_eq!(payload.get_str("action"), Some("reroute"));
    assert_eq!(payload.get_str("target"), Some("account-a"));
    assert_eq!(payload.get("dryRun"), Some(&Json::Bool(true)));
    assert_eq!(
        payload.get("keys").unwrap().items().unwrap().len(),
        MAX_SESSION_ACTION_KEYS
    );
    let serialized = format!("{payload:?}");
    for id in member_ids {
        assert!(!serialized.contains(&text(id)));
    }
}

#[test]
fn action_aliases_reject_a_partial_tree() {
    let root = 400;
    let tree = SessionTree {
        root_id: root,
        member_ids: (400..526).collect(),
        modified: 0,
    };

    let error = session_tree_aliases(&tree).expect_err("more than 500 keys must fail");
    assert!(error.message().contains("refusing to operate on only part"));
    assert!(session_action_payload(&tree, "rebalance", None, false).is_err());
}

#[test]
fn duplicate_identical_metadata_merges_latest_rollout_without_conflict() {
    let id = 300;
    let mut catalog = SessionCatalog::new();
    catalog.insert_node(RolloutNode {
        id,
        session_id: Some(id),
        parent_thread_id: None,
        forked_from_id: None,
        modified: 0,
    });
    catalog.insert_node(RolloutNode {
        id,
        session_id: Some(id),
        parent_thread_id: None,
        forked_from_id: None,
        modified: 1_700_000_000_000,
    });
    assert!(catalog.mutation_tree_for(id).is_ok());
    assert_eq!(catalog.tree_for(id).unwrap().modified, 1_700_000_000_000);
}

fn family() -> SessionCatalog {
    let mut catalog = SessionCatalog::new();
    for (id, parent, modified) in [(1, None, 5), (2, Some(1), 9), (7, None, 3)] {
        catalog.insert_node(RolloutNode {
            id,
            session_id: None,
            parent_thread_id: parent,
            forked_from_id: None,
            modified,
        });
    }
    catalog
}

#[test]
fn keys_of_a_tree_are_keys_that_routes_accept() {
    let tree = family().tree_for(2).unwrap();
    let aliases = session_tree_aliases(&tree).unwrap();
    assert_eq!(aliases.len(), 8);
    let checked = validate_session_route_keys(&aliases).unwrap();
    assert_eq!(checked, aliases);
}

#[test]
fn connected_sessions_are_so_in_both_directions() {
    let catalog = family();
    let mut from_child = catalog.connected_ids(2);
    let mut from_root = catalog.connected_ids(1);
    from_child.sort();
    from_root.sort();
    assert_eq!(from_child, vec![1, 2]);
    assert_eq!(from_child, from_root);
    assert_eq!(catalog.connected_ids(99), vec![99]);
    assert_eq!(catalog.canonical_root(2).unwrap(), 1);
    assert_eq!(catalog.canonical_root(1).unwrap(), 1);
}

#[test]
fn trees_are_listed_by_their_last_rollout_and_do_not_overlap() {
    let trees = family().session_trees();
    assert_eq!(trees.len(), 2);
    assert_eq!((trees[0].root_id, trees[0].modified), (1, 9));
    assert_eq!((trees[1].root_id, trees[1].modified), (7, 3));
    assert_eq!(trees[0].member_ids, vec![1, 2]);
    assert_eq!(trees[1].member_ids, vec![7]);
}

#[test]
fn sessions_are_shown_with_the_route_of_their_root() {
    let catalog = family();
    let lookup = show_session(&catalog, 2).unwrap();
    assert_eq!(lookup.root_id, 1);
    assert_eq!(lookup.request.method, Method::Post);
    assert_eq!(lookup.request.path, "/admin/session-routes");
    let body = lookup.request.body.as_ref().unwrap();
    assert_eq!(body.get("keyHashes").unwrap().items().unwrap().len(), 8);
    let root_hash = root_session_key_hash(1);
    let answer = json(&format!(
        r#"{{"sessionRoutes": [{{"keyHash": "x", "accountLabel": "a"}}, {{"keyHash": "{root_hash}", "accountLabel": "b"}}]}}"#
    ));
    let report = show_report(&lookup, &answer);
    assert_eq!(report.get_str("sessionId"), Some(text(2).as_str()));
    assert_eq!(report.get_str("rootSessionId"), Some(text(1).as_str()));
    assert_eq!(report.get_str("fingerprint"), Some(&root_hash[..12]));
    assert_eq!(report.get("route").unwrap().get_str("accountLabel"), Some("b"));
    assert_eq!(report.get("routes").unwrap().items().unwrap().len(), 2);
    let report = show_report(&lookup, &json("{}"));
    assert_eq!(report.get("route"), Some(&Json::Null));
}

#[test]
fn listed_sessions_are_matched_by_their_hashes() {
    let catalog = family();
    let (known, request) = list_sessions(&catalog);
    assert_eq!(known.len(), 2);
    let hashes = request.body.as_ref().unwrap().get("keyHashes").unwrap();
    assert_eq!(hashes.items().unwrap().len(), 2);
    let answer = json(&format!(
        r#"{{"sessionRoutes": [{{"keyHash": "other"}}, {{"keyHash": "{}", "accountLabel": "a", "lastUsedAt": "t"}}, {{"keyHash": "{}"}}]}}"#,
        root_session_key_hash(7),
        root_session_key_hash(1)
    ));
    let report = list_report(&known, 100, &answer);
    let sessions = report.get("sessions").unwrap().items().unwrap();
    assert_eq!(sessions.len(), 2);
    assert_eq!(sessions[0].get_str("sessionId"), Some(text(7).as_str()));
    assert_eq!(sessions[0].get_str("account"), Some("a"));
    assert_eq!(sessions[0].get_str("lastRoutedAt"), Some("t"));
    assert_eq!(sessions[1].get("account"), Some(&Json::Null));
    let report = list_report(&known, 0, &answer);
    assert_eq!(report.get("sessions").unwrap().items().unwrap().len(), 1);
}

#[test]
fn session_commands_step_by_step() {
    let first = run_sessions(&SessionsCommand::Routes { limit: 900 }).unwrap();
    match first {
        SessionsStep::Send(ApiRequest { path, .. }) => {
            assert_eq!(path, "/admin/session-routes?limit=500")
        }
        SessionsStep::ReadCatalog => panic!("no catalog is needed"),
    }
    let blank = SessionsCommand::Reroute {
        session_id: 1,
        to: "  ".to_string(),
        dry_run: false,
    };
    assert_eq!(
        run_sessions(&blank).unwrap_err(),
        "--to must be a non-empty account label or UUID"
    );
    let catalog = family();
    let command = SessionsCommand::Reroute {
        session_id: 2,
        to: " work ".to_string(),
        dry_run: true,
    };
    match run_with_catalog(&command, &catalog).unwrap() {
        CatalogStep::Send(request) => {
            assert_eq!(request.path, "/admin/session-routes/actions");
            let body = request.body.unwrap();
            assert_eq!(body.get_str("target"), Some("work"));
            assert_eq!(body.get_str("rootKeyHash"), Some(root_session_key_hash(1).as_str()));
        }
        _ => panic!("a command is sent"),
    }
    let mut broken = family();
    write_rollout(&mut broken, "sessions", 2, &[session_meta(3, Some(3), None, None)]);
    assert!(session_action(&broken, 1, "rebalance", None, false).is_err());
    assert!(session_action(&broken, 7, "rebalance", None, false).is_ok());
}

#[test]
fn sessions_that_cannot_be_resolved_say_why() {
    let mut catalog = SessionCatalog::new();
    for (id, session_id, parent) in [(1, Some(2), None), (2, None, Some(3))] {
        catalog.insert_node(RolloutNode {
            id,
            session_id,
            parent_thread_id: parent,
            forked_from_id: None,
            modified: 0,
        });
    }
    assert_eq!(
        catalog.tree_for(1).unwrap_err().message(),
        "cannot resolve this session tree because its authoritative root is not a root"
    );
    let mut broken = SessionCatalog::new();
    let meta = json(r#"{"type":"session_meta","payload":{"id":7}}"#);
    let name = format!("rollout-test-{}.jsonl", text(9));
    broken.add_rollout("/x", &name, 0, Some(&meta));
    assert!(broken
        .tree_for(9)
        .unwrap_err()
        .message()
        .starts_with("cannot resolve this session tree: invalid session metadata in /x: "));
}

#[test]
fn damaged_rollouts_elsewhere_change_nothing_of_a_tree() {
    let connected = |catalog: &mut SessionCatalog| {
        for (id, parent) in [(60, None), (61, Some(60)), (62, Some(61))] {
            write_rollout(
                catalog,
                "sessions/connected",
                id,
                &[session_meta(id, Some(60), parent, None)],
            );
        }
    };
    let mut alone = SessionCatalog::new();
    connected(&mut alone);
    let mut damaged = SessionCatalog::new();
    for (id, parent) in [(70, 71), (71, 70)] {
        write_rollout(
            &mut damaged,
            "sessions/cycle",
            id,
            &[session_meta(id, None, Some(parent), None)],
        );
    }
    write_rollout(
        &mut damaged,
        "sessions/mismatch",
        80,
        &[session_meta(81, Some(81), None, None)],
    );
    connected(&mut damaged);
    for id in [60, 61, 62, 90] {
        let (a, b) = (
            alone.mutation_tree_for(id).ok().unwrap(),
            damaged.mutation_tree_for(id).ok().unwrap(),
        );
        assert_eq!((a.root_id, &a.member_ids, a.modified), (b.root_id, &b.member_ids, b.modified));
    }
    assert!(damaged.mutation_tree_for(70).is_err());
    assert!(damaged.mutation_tree_for(80).is_err());
}
