use codex_lb_rs::cli::{
    config_report, import_file, import_opencode_file, login_home, offline_status, read_answer,
    request_url, required_string, run_accounts, run_logs, run_settings, run_usage, sanitize_label,
    serve_config, status_request, AccountsCommand, AccountsStep, ApiRequest, LogsCommand, Method,
    ServeArgs, SettingsCommand, UsageCommand,
};
use codex_lb_rs::config::{Config, ConfigVars};
use codex_lb_rs::json::Json;

const ID: u128 = 0x019f8a00_1234_7abc_8def_0123456789ab;
const ID_TEXT: &str = "019f8a00-1234-7abc-8def-0123456789ab";

fn sent(step: AccountsStep) -> ApiRequest {
    match step {
        AccountsStep::Send(request) => request,
        _ => panic!("a request is sent"),
    }
}

#[test]
fn accounts_commands_become_requests() {
    let list = sent(run_accounts(&AccountsCommand::List));
    assert_eq!((list.method, list.path.as_str()), (Method::Get, "/admin/accounts"));
    let pause = sent(run_accounts(&AccountsCommand::Pause { id: ID }));
    assert_eq!(pause.method, Method::Patch);
    assert_eq!(pause.path, format!("/admin/accounts/{ID_TEXT}"));
    assert_eq!(pause.body.unwrap().get_str("status"), Some("paused"));
    let wake = sent(run_accounts(&AccountsCommand::Reactivate { id: ID }));
    assert_eq!(wake.body.unwrap().get_str("status"), Some("active"));
    let token = sent(run_accounts(&AccountsCommand::RefreshToken { id: ID }));
    assert_eq!(token.path, format!("/admin/accounts/{ID_TEXT}/refresh-token"));
    let usage = sent(run_accounts(&AccountsCommand::RefreshUsage { id: ID }));
    assert_eq!(usage.path, format!("/admin/accounts/{ID_TEXT}/refresh-usage"));
    match run_accounts(&AccountsCommand::Remove { id: ID }) {
        AccountsStep::SendThenSay(request, line) => {
            assert_eq!(request.method, Method::Delete);
            assert_eq!(line, format!("deleted {ID_TEXT}"));
        }
        _ => panic!("a request is sent"),
    }
    match run_accounts(&AccountsCommand::Login { label: "Work".to_string() }) {
        AccountsStep::Login { label } => assert_eq!(label, "Work"),
        _ => panic!("a login is run"),
    }
}

#[test]
fn imports_take_files_as_they_are() {
    let request = import_file(&br#"{"tokens": {}}"#.to_vec(), &None, "auth file").unwrap();
    let body = request.body.unwrap();
    assert!(body.get("auth").unwrap().get("tokens").is_some());
    assert_eq!(body.get("label"), Some(&Json::Null));
    assert_eq!(
        import_file(&b"{".to_vec(), &None, "auth file").unwrap_err(),
        "auth file must be JSON"
    );
}

#[test]
fn opencode_slots_need_all_their_texts() {
    let file = br#"{"openai": {"access": "a", "refresh": "r", "accountId": "i"}, "x": 1}"#.to_vec();
    let request = import_opencode_file(&file, "openai", "work").unwrap();
    let body = request.body.unwrap();
    assert_eq!(body.get_str("label"), Some("work"));
    let tokens = body.get("auth").unwrap().get("tokens").unwrap();
    assert_eq!(tokens.get_str("idToken"), Some("a"));
    assert_eq!(tokens.get_str("accessToken"), Some("a"));
    assert_eq!(tokens.get_str("refreshToken"), Some("r"));
    assert_eq!(tokens.get_str("accountId"), Some("i"));
    for (file, provider, wanted) in [
        (&b"["[..], "openai", "OpenCode auth file must be JSON"),
        (&b"{}"[..], "openai", "OpenCode provider 'openai' was not found"),
        (&br#"{"x": 1}"#[..], "x", "OpenCode provider 'x' was not found"),
        (
            &br#"{"x": {"refresh": "r"}}"#[..],
            "x",
            "OpenCode OAuth slot is missing 'access'",
        ),
        (
            &br#"{"x": {"access": "a", "refresh": " "}}"#[..],
            "x",
            "OpenCode OAuth slot is missing 'refresh'",
        ),
        (
            &br#"{"x": {"access": "a", "refresh": "r"}}"#[..],
            "x",
            "OpenCode OAuth slot is missing 'accountId'",
        ),
    ] {
        assert_eq!(
            import_opencode_file(&file.to_vec(), provider, "l").unwrap_err(),
            wanted
        );
    }
    let value = Json::of_text("v");
    assert_eq!(required_string(Some(&value), "n").unwrap(), "v");
}

#[test]
fn labels_become_directories() {
    assert_eq!(sanitize_label("  Work_1 ").unwrap(), "work_1");
    assert!(sanitize_label("a b").is_err());
    assert!(sanitize_label("").is_err());
    assert!(sanitize_label(&"x".repeat(33)).is_err());
    assert_eq!(
        login_home(&None, &Some("/home/me".to_string()), "Work").unwrap(),
        "/home/me/.local/share/codex-lb-rs/login-homes/work"
    );
    assert_ne!(
        login_home(&None, &Some("/home/me".to_string()), "Work").unwrap(),
        login_home(&None, &Some("/home/me".to_string()), "Home").unwrap()
    );
    assert_eq!(
        login_home(&None, &None, "Work").unwrap_err(),
        "HOME or XDG_DATA_HOME is required"
    );
}

#[test]
fn other_commands_become_requests() {
    assert_eq!(status_request(true).path, "/api/v1/status/waybar");
    assert_eq!(status_request(false).path, "/api/v1/status");
    assert_eq!(
        run_usage(&UsageCommand::Account { id: ID }).path,
        format!("/admin/usage/accounts/{ID_TEXT}")
    );
    assert_eq!(run_usage(&UsageCommand::Refresh).method, Method::Post);
    assert_eq!(
        run_logs(&LogsCommand::List { limit: 5, offset: -1 }).path,
        "/admin/request-logs?limit=5&offset=-1"
    );
    let put = run_settings(&SettingsCommand::Put {
        key: "proxy_max_attempts".to_string(),
        value: "3".to_string(),
    });
    assert_eq!(put.method, Method::Put);
    assert_eq!(put.body.unwrap().get_i64("proxy_max_attempts"), Some(3));
    let put = run_settings(&SettingsCommand::Put {
        key: "routing_strategy".to_string(),
        value: "round_robin".to_string(),
    });
    assert_eq!(
        put.body.unwrap().get_str("routing_strategy"),
        Some("round_robin")
    );
    assert_eq!(request_url("http://x//", "/y"), "http://x/y");
    let offline = offline_status("refused");
    assert_eq!(offline.tooltip, "codex-lb-rs is unavailable: refused");
    assert_eq!(offline.class, vec!["codex-pool", "offline"]);
}

#[test]
fn answers_are_json_or_text() {
    let read = |status, text| read_answer(status, "404 Not Found", text);
    assert_eq!(read(204, "").unwrap().get_str("status"), Some("ok"));
    assert_eq!(read(200, "{\"a\": 1}").unwrap().get_i64("a"), Some(1));
    assert_eq!(read(200, "plain").unwrap(), Json::of_text("plain"));
    assert_eq!(
        read(404, "{\"e\": 1}").unwrap_err(),
        "admin API returned 404 Not Found: {\"e\":1}"
    );
    assert_eq!(
        read(404, "gone").unwrap_err(),
        "admin API returned 404 Not Found: \"gone\""
    );
}

#[test]
fn the_configuration_is_reported_without_its_secrets() {
    let vars = ConfigVars {
        codex_lb_admin_token: Some("hidden".to_string()),
        ..ConfigVars::default()
    };
    let config = serve_config(
        Config::from_vars(&vars).unwrap(),
        &ServeArgs {
            host: Some("::1".to_string()),
            port: Some(9),
        },
    );
    let report = config_report(&config);
    assert_eq!(report.get_str("listen"), Some("::1:9"));
    assert_eq!(report.get("adminTokenConfigured"), Some(&Json::Bool(true)));
    assert_eq!(report.get("proxyTokenConfigured"), Some(&Json::Bool(false)));
    assert!(!format!("{report:?}").contains("hidden"));
}

#[test]
fn an_empty_data_home_does_not_hold_login_homes() {
    let empty = Some(String::new());
    assert_eq!(
        login_home(&empty, &Some("/home/me".to_string()), "Work").unwrap(),
        "/home/me/.local/share/codex-lb-rs/login-homes/work"
    );
    assert_eq!(
        login_home(&Some("/data".to_string()), &None, "Work").unwrap(),
        "/data/codex-lb-rs/login-homes/work"
    );
    assert_eq!(
        login_home(&empty, &None, "Work").unwrap_err(),
        "HOME or XDG_DATA_HOME is required"
    );
}
