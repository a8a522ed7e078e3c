use codex_lb_rs::config::{
    default_data_dir, default_database_url, default_encryption_key_file, env_value, expand_home_in_sqlite_url, join_path, Config,
    ConfigError, ConfigVars,
};

fn config_with_upstream(upstream_base_url: &str) -> Config {
    Config {
        database_url: "sqlite::memory:".to_string(),
        host: "127.0.0.1".to_string(),
        port: 2455,
        upstream_base_url: upstream_base_url.to_string(),
        auth_base_url: "https://auth.openai.com".to_string(),
        oauth_client_id: "client".to_string(),
        oauth_scope: "openid profile email".to_string(),
        encryption_key_file: "key".to_string(),
        admin_token: None,
        proxy_api_token: None,
        request_timeout_seconds: 1,
        token_refresh_interval_days: 8,
        usage_refresh_interval_seconds: 120,
    }
}

#[test]
fn upstream_responses_url_appends_codex_responses() {
    let config = config_with_upstream("https://chatgpt.com/backend-api/");

    assert_eq!(
        config.upstream_codex_responses_url(),
        "https://chatgpt.com/backend-api/codex/responses"
    );
}

#[test]
fn upstream_websocket_url_rewrites_https_scheme() {
    let config = config_with_upstream("https://chatgpt.com/backend-api/");

    assert_eq!(
        config.upstream_codex_responses_websocket_url().unwrap(),
        "wss://chatgpt.com/backend-api/codex/responses"
    );
}

#[test]
fn usage_url_handles_backend_api_base() {
    let config = config_with_upstream("https://chatgpt.com/backend-api");

    assert_eq!(
        config.upstream_usage_url(),
        "https://chatgpt.com/backend-api/wham/usage"
    );
}

#[test]
fn usage_url_adds_backend_api_when_base_is_origin() {
    let config = config_with_upstream("https://chatgpt.com");

    assert_eq!(
        config.upstream_usage_url(),
        "https://chatgpt.com/backend-api/wham/usage"
    );
}

#[test]
fn websocket_url_keeps_or_refuses_other_schemes() {
    assert_eq!(
        config_with_upstream("http://local:1//").upstream_codex_responses_websocket_url(),
        Ok("ws://local:1/codex/responses".to_string())
    );
    assert_eq!(
        config_with_upstream("wss://local").upstream_codex_responses_websocket_url(),
        Ok("wss://local/codex/responses".to_string())
    );
    assert_eq!(
        config_with_upstream("ftp://local").upstream_codex_responses_websocket_url(),
        Err(ConfigError::UpstreamScheme)
    );
}

#[test]
fn other_urls_of_the_upstream() {
    let config = config_with_upstream("https://chatgpt.com/backend-api//");
    assert_eq!(
        config.upstream_codex_compact_url(),
        "https://chatgpt.com/backend-api/codex/responses/compact"
    );
    assert_eq!(
        config.upstream_codex_models_url(),
        "https://chatgpt.com/backend-api/codex/models"
    );
    assert_eq!(config.token_refresh_url(), "https://auth.openai.com/oauth/token");
}

#[test]
fn defaults_of_an_empty_environment() {
    let vars = ConfigVars {
        home: Some("/home/me".to_string()),
        ..ConfigVars::default()
    };
    let config = Config::from_vars(&vars).unwrap();
    assert_eq!(config.port, 2455);
    assert_eq!(config.request_timeout_seconds, 600);
    assert_eq!(config.token_refresh_interval_days, 8);
    assert_eq!(config.usage_refresh_interval_seconds, 120);
    assert_eq!(config.admin_token, None);
    assert_eq!(
        config.database_url,
        "sqlite:///home/me/.local/share/codex-lb-rs/codex-lb.sqlite"
    );
    assert_eq!(
        config.encryption_key_file,
        "/home/me/.local/share/codex-lb-rs/encryption.key"
    );
}

#[test]
fn numbers_that_are_none_are_refused_by_name() {
    let bad = |change: fn(&mut ConfigVars)| {
        let mut vars = ConfigVars::default();
        change(&mut vars);
        Config::from_vars(&vars).unwrap_err()
    };
    assert_eq!(bad(|v| v.port = Some("65536".into())), ConfigError::Port);
    assert_eq!(bad(|v| v.codex_lb_port = Some("-1".into())), ConfigError::Port);
    assert_eq!(
        bad(|v| v.codex_lb_proxy_request_budget_seconds = Some("x".into())),
        ConfigError::RequestBudget
    );
    assert_eq!(
        bad(|v| v.codex_lb_token_refresh_interval_days = Some("1.5".into())),
        ConfigError::TokenRefreshDays
    );
    assert_eq!(
        bad(|v| v.codex_lb_usage_refresh_interval_seconds = Some("-2".into())),
        ConfigError::UsageRefreshSeconds
    );
    assert_eq!(
        ConfigError::Port.message(),
        "PORT/CODEX_LB_PORT must be a valid TCP port"
    );
}

#[test]
fn port_comes_before_its_longer_name_and_blanks_do_not_count() {
    let vars = ConfigVars {
        port: Some(" 8080 ".to_string()),
        codex_lb_port: Some("9090".to_string()),
        ..ConfigVars::default()
    };
    assert_eq!(Config::from_vars(&vars).unwrap().port, 8080);
    let vars = ConfigVars {
        port: Some("  ".to_string()),
        codex_lb_port: Some("9090".to_string()),
        ..ConfigVars::default()
    };
    assert_eq!(Config::from_vars(&vars).unwrap().port, 9090);
    assert_eq!(env_value(&Some("\t".to_string())), None);
}

#[test]
fn paths_and_urls_of_the_data_directory() {
    assert_eq!(join_path("/a/", "b"), "/a/b");
    assert_eq!(join_path("/a", "/b"), "/b");
    assert_eq!(default_data_dir(&None, &None), "./codex-lb-rs");
    assert_eq!(
        default_database_url(&Some("/data".to_string()), &None),
        "sqlite:///data/codex-lb-rs/codex-lb.sqlite"
    );
    let home = Some("/home/me".to_string());
    assert_eq!(
        expand_home_in_sqlite_url("sqlite://~/x.db", &home).as_deref(),
        Some("sqlite:///home/me/x.db")
    );
    assert_eq!(
        expand_home_in_sqlite_url("sqlite:~/x.db", &home).as_deref(),
        Some("sqlite:///home/me/x.db")
    );
    assert_eq!(expand_home_in_sqlite_url("sqlite://~/x.db", &None), None);
    assert_eq!(
        expand_home_in_sqlite_url("sqlite::memory:", &None).as_deref(),
        Some("sqlite::memory:")
    );
}

#[test]
fn an_empty_data_home_counts_as_not_set() {
    let (empty, home) = (Some(String::new()), Some("/home/u".to_string()));
    assert_eq!(default_data_dir(&empty, &home), "/home/u/.local/share/codex-lb-rs");
    assert_eq!(default_data_dir(&empty, &None), "./codex-lb-rs");
    assert_eq!(
        default_database_url(&empty, &home),
        "sqlite:///home/u/.local/share/codex-lb-rs/codex-lb.sqlite"
    );
    assert_eq!(
        default_encryption_key_file(&empty, &home),
        "/home/u/.local/share/codex-lb-rs/encryption.key"
    );
    let config = Config::from_vars(&ConfigVars {
        xdg_data_home: empty,
        home,
        ..ConfigVars::default()
    })
    .unwrap();
    assert_eq!(
        config.database_url,
        "sqlite:///home/u/.local/share/codex-lb-rs/codex-lb.sqlite"
    );
    assert_eq!(
        config.encryption_key_file,
        "/home/u/.local/share/codex-lb-rs/encryption.key"
    );
}
