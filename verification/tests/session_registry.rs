use codex_lb_rs::session_registry::SessionConnectionRegistry;

fn texts(list: &[&str]) -> Vec<String> {
    list.iter().map(|text| text.to_string()).collect()
}

#[test]
fn signals_every_matching_connection_once_and_cleans_up_by_token() {
    let mut registry = SessionConnectionRegistry::new();
    let account_a = 0xa;
    let account_b = 0xb;
    let (first, _) = registry.register("root", &texts(&["root", "alias-a"]), account_a, 1);
    let (second, _) = registry.register("alias-b", &texts(&["alias-b"]), account_b, 1);

    let result = registry.signal_reroute("root", &texts(&["alias-a", "alias-b"]), 2);
    assert_eq!(result.matching_connections, 2);
    assert_eq!(result.signaled_connections, 2);
    let mut accounts = result.account_ids;
    accounts.sort();
    assert_eq!(accounts, vec![account_a, account_b]);
    assert_eq!(registry.signal_of(first).map(|item| item.generation), Some(2));
    assert_eq!(registry.signal_of(second).map(|item| item.generation), Some(2));

    registry.unregister(first);
    assert_eq!(
        registry
            .snapshot("root", &texts(&["alias-a", "alias-b"]))
            .connection_count,
        1
    );
    registry.unregister(second);
    assert_eq!(
        registry
            .snapshot("root", &texts(&["alias-a", "alias-b"]))
            .connection_count,
        0
    );
}

#[test]
fn late_old_generation_registration_starts_signaled() {
    let mut registry = SessionConnectionRegistry::new();
    let result = registry.signal_reroute("root", &texts(&["alias"]), 7);
    assert_eq!(result.matching_connections, 0);

    let (token, signal) = registry.register("alias", &texts(&["alias"]), 1, 6);
    assert_eq!(signal.map(|item| item.generation), Some(7));
    assert_eq!(registry.signal_of(token).map(|item| item.generation), Some(7));
}

#[test]
fn current_connections_are_not_signaled() {
    let mut registry = SessionConnectionRegistry::new();
    let (token, signal) = registry.register("root", &texts(&[]), 1, 3);
    assert_eq!(signal, None);
    let result = registry.signal_reroute("root", &texts(&[]), 3);
    assert_eq!(result.matching_connections, 1);
    assert_eq!(result.signaled_connections, 0);
    assert_eq!(registry.signal_of(token), None);
    let result = registry.signal_reroute("root", &texts(&[]), 4);
    assert_eq!(result.signaled_connections, 1);
    let result = registry.signal_reroute("root", &texts(&[]), 4);
    assert_eq!(result.signaled_connections, 1);
    assert_eq!(registry.signal_of(token).map(|item| item.generation), Some(4));
}
