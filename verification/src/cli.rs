//! Commands for the daemon: what each of them asks of the admin API, and what is made of the answer.
use vstd::prelude::*;
use vstd::string::StringExecFns;
use crate::config::{
    join_path, joined, no_slashes, set_text, set_value, trim_slashes, Config,
};
use crate::hashing::key_hash;
use crate::ids::{text_of_uuid, uuid_text};
use crate::json::{
    cut_text, entry_views, item_views, json_of_bytes, json_of_text, json_opt, member_text,
    members_are_first_entries, opt_json, opt_text, opt_view, parse_bytes, parse_text, put, read_answer_text, written, Json, JsonView,
};
use crate::keys::{key_views, valid_word, RouteKeyView};
use crate::labels::{is_label, normal_label};
use crate::models::{clamp, clamped};
use crate::sessions::{
    action_json, canonical, consistent, key_order, keys_of, lists_trees, root_session_key_hash,
    session_action_payload, session_tree_aliases, tree_fault, tree_of, CatalogView, SessionCatalog,
    SessionError, SessionErrorView, SessionTree,
};
use crate::text::{
    char_count, concat, decimal, decimal_text, same, take_chars, to_lower, trim, trimmed, views,
};
use crate::waybar::WaybarStatus;

verus! {

#[derive(Debug)]
pub struct ServeArgs {
    pub host: Option<String>,
    pub port: Option<u16>,
}

#[derive(Debug)]
pub struct MigrateArgs {
    pub command: MigrateCommand,
}

#[derive(Debug, Clone, Copy, PartialEq, Eq, Structural)]
pub enum MigrateCommand {
    Up,
}

#[derive(Debug)]
pub enum AccountsCommand {
    List,
    Import { path: String, label: Option<String> },
    ImportOpencode { path: String, provider: String, label: String },
    Login { label: String },
    Pause { id: u128 },
    Reactivate { id: u128 },
    Remove { id: u128 },
    RefreshToken { id: u128 },
    RefreshUsage { id: u128 },
}

#[derive(Debug, Clone, Copy, PartialEq, Eq, Structural)]
pub enum UsageCommand {
    Summary,
    Account { id: u128 },
    Refresh,
}

#[derive(Debug, Clone, Copy, PartialEq, Eq, Structural)]
pub enum LogsCommand {
    List { limit: i64, offset: i64 },
}

#[derive(Debug)]
pub enum SessionsCommand {
    List { limit: usize },
    Show { session_id: u128 },
    Routes { limit: i64 },
    Rebalance { session_id: u128, dry_run: bool },
    Reroute { session_id: u128, to: String, dry_run: bool },
}

#[derive(Debug)]
pub enum SettingsCommand {
    Get,
    Put { key: String, value: String },
}

#[derive(Debug, Clone, Copy, PartialEq, Eq, Structural)]
pub enum ConfigCommand {
    Check,
}

#[derive(Debug, Clone, Copy, PartialEq, Eq, Structural)]
pub enum Method {
    Get,
    Post,
    Put,
    Patch,
    Delete,
}

/// A request to the admin API.
#[derive(Debug)]
pub struct ApiRequest {
    pub method: Method,
    pub path: String,
    pub body: Option<Json>,
}

pub struct RequestView {
    pub method: Method,
    pub path: Seq<char>,
    pub body: Option<JsonView>,
}

impl View for ApiRequest {
    type V = RequestView;

    open spec fn view(&self) -> RequestView {
        RequestView { method: self.method, path: self.path@, body: json_opt(self.body) }
    }
}

/// A request without a body.
pub open spec fn bare(method: Method, path: Seq<char>) -> RequestView {
    RequestView { method, path, body: None }
}

pub open spec fn with_body(method: Method, path: Seq<char>, body: JsonView) -> RequestView {
    RequestView { method, path, body: Some(body) }
}

fn ask(method: Method, path: String) -> (r: ApiRequest)
    ensures
        r@ == bare(method, path@),
{
    ApiRequest { method, path, body: None }
}

fn tell(method: Method, path: String, body: Json) -> (r: ApiRequest)
    ensures
        r@ == with_body(method, path@, body@),
{
    ApiRequest { method, path, body: Some(body) }
}

/// The path of an account in the admin API.
pub open spec fn account_path(id: u128, tail: Seq<char>) -> Seq<char> {
    "/admin/accounts/"@ + text_of_uuid(id) + tail
}

fn account_url(id: u128, tail: &str) -> (r: String)
    ensures
        r@ == account_path(id, tail@),
{
    let mut r = "/admin/accounts/".to_owned();
    r.append(&uuid_text(id));
    r.append(tail);
    r
}

pub open spec fn status_json(status: Seq<char>) -> JsonView {
    JsonView::Object(seq![("status"@, JsonView::Str(status))])
}

fn status_object(status: &str) -> (r: Json)
    ensures
        r@ == status_json(status@),
{
    let mut entries: Vec<(String, Json)> = Vec::new();
    assert(entry_views(entries@) =~= Seq::empty());
    put(&mut entries, "status", Json::of_text(status));
    assert(entry_views(entries@) =~= seq![("status"@, JsonView::Str(status@))]);
    Json::object(entries)
}

/// What an accounts command does first.
#[derive(Debug)]
pub enum AccountsStep {
    /// Send the request and print the answer.
    Send(ApiRequest),
    /// Send the request and print the line.
    SendThenSay(ApiRequest, String),
    /// Read the file and import what it holds.
    Import { path: String, label: Option<String> },
    /// Read the file and import one slot of it.
    ImportOpencode { path: String, provider: String, label: String },
    /// Log in and import the result.
    Login { label: String },
}

/// Whether a step is the one of a command.
pub open spec fn steps(command: AccountsCommand, step: AccountsStep) -> bool {
    match command {
        AccountsCommand::List => step matches AccountsStep::Send(request) && request@ == bare(
            Method::Get,
            "/admin/accounts"@,
        ),
        AccountsCommand::Import { path, label } => step matches AccountsStep::Import {
            path: from,
            label: named,
        } && from@ == path@ && named.deep_view() == label.deep_view(),
        AccountsCommand::ImportOpencode { path, provider, label } => step matches
            AccountsStep::ImportOpencode { path: from, provider: slot, label: named } && from@
            == path@ && slot@ == provider@ && named@ == label@,
        AccountsCommand::Login { label } => step matches AccountsStep::Login { label: named }
            && named@ == label@,
        AccountsCommand::Pause { id } => step matches AccountsStep::Send(request) && request@
            == with_body(Method::Patch, account_path(id, ""@), status_json("paused"@)),
        AccountsCommand::Reactivate { id } => step matches AccountsStep::Send(request) && request@
            == with_body(Method::Patch, account_path(id, ""@), status_json("active"@)),
        AccountsCommand::Remove { id } => step matches AccountsStep::SendThenSay(request, line)
            && request@ == bare(Method::Delete, account_path(id, ""@)) && line@ == "deleted "@
            + text_of_uuid(id),
        AccountsCommand::RefreshToken { id } => step matches AccountsStep::Send(request) && request@
            == bare(Method::Post, account_path(id, "/refresh-token"@)),
        AccountsCommand::RefreshUsage { id } => step matches AccountsStep::Send(request) && request@
            == bare(Method::Post, account_path(id, "/refresh-usage"@)),
    }
}

/// The first step of an accounts command.
pub fn run_accounts(command: &AccountsCommand) -> (r: AccountsStep)
    ensures
        steps(*command, r),
{
    match command {
        AccountsCommand::List => AccountsStep::Send(
            ask(Method::Get, "/admin/accounts".to_owned()),
        ),
        AccountsCommand::Import { path, label } => AccountsStep::Import {
            path: path.clone(),
            label: crate::text::clone_opt(label),
        },
        AccountsCommand::ImportOpencode { path, provider, label } => AccountsStep::ImportOpencode {
            path: path.clone(),
            provider: provider.clone(),
            label: label.clone(),
        },
        AccountsCommand::Login { label } => AccountsStep::Login { label: label.clone() },
        AccountsCommand::Pause { id } => AccountsStep::Send(
            tell(Method::Patch, account_url(*id, ""), status_object("paused")),
        ),
        AccountsCommand::Reactivate { id } => AccountsStep::Send(
            tell(Method::Patch, account_url(*id, ""), status_object("active")),
        ),
        AccountsCommand::Remove { id } => AccountsStep::SendThenSay(
            ask(Method::Delete, account_url(*id, "")),
            concat("deleted ", &uuid_text(*id)),
        ),
        AccountsCommand::RefreshToken { id } => AccountsStep::Send(
            ask(Method::Post, account_url(*id, "/refresh-token")),
        ),
        AccountsCommand::RefreshUsage { id } => AccountsStep::Send(
            ask(Method::Post, account_url(*id, "/refresh-usage")),
        ),
    }
}

/// The import of an auth file, under a label where one is given.
pub open spec fn import_of(auth: JsonView, label: Option<Seq<char>>) -> RequestView {
    with_body(
        Method::Post,
        "/admin/accounts"@,
        JsonView::Object(seq![("auth"@, auth), ("label"@, opt_json(label))]),
    )
}

pub fn import_payload(auth: Json, label: &Option<String>) -> (r: ApiRequest)
    ensures
        r@ == import_of(auth@, label.deep_view()),
{
    let mut entries: Vec<(String, Json)> = Vec::new();
    put(&mut entries, "auth", auth);
    put(&mut entries, "label", Json::of_opt(label));
    assert(entry_views(entries@) =~= seq![("auth"@, auth@), ("label"@, opt_json(label.deep_view()))]);
    tell(Method::Post, "/admin/accounts".to_owned(), Json::object(entries))
}

/// The import of a file that Codex wrote; `what` names the file where it is no JSON.
pub fn import_file(raw: &Vec<u8>, label: &Option<String>, what: &str) -> (r: Result<
    ApiRequest,
    String,
>)
    ensures
        match r {
            Ok(request) => json_of_bytes(raw@) is Some && request@ == import_of(
                json_of_bytes(raw@)->0,
                label.deep_view(),
            ),
            Err(text) => json_of_bytes(raw@) is None && text@ == what@ + " must be JSON"@,
        },
{
    match parse_bytes(raw.as_slice()) {
        Some(auth) => Ok(import_payload(auth, label)),
        None => Err(concat(what, " must be JSON")),
    }
}

/// The text of a slot's member, where it is not blank.
pub open spec fn slot_text(slot: JsonView, name: Seq<char>) -> Option<Seq<char>> {
    match member_text(slot, name) {
        Some(text) => if trimmed(text).len() > 0 {
            Some(text)
        } else {
            None
        },
        None => None,
    }
}

pub open spec fn missing(name: Seq<char>) -> Seq<char> {
    "OpenCode OAuth slot is missing '"@ + name + "'"@
}

pub open spec fn no_provider(provider: Seq<char>) -> Seq<char> {
    "OpenCode provider '"@ + provider + "' was not found"@
}

/// The text of a value that has to be there and not be blank.
pub fn required_string(value: Option<&Json>, name: &str) -> (r: Result<String, String>)
    ensures
        ({
            let text = match opt_view(value) {
                Some(inner) => inner.text(),
                None => None,
            };
            match r {
                Ok(found) => text == Some(found@) && trimmed(found@).len() > 0,
                Err(e) => (text matches Some(t) ==> trimmed(t).len() == 0) && e@ == missing(name@),
            }
        }),
{
    if let Some(inner) = value {
        if let Some(text) = inner.as_str() {
            if !trim(text).as_str().is_empty() {
                return Ok(text.to_owned());
            }
        }
    }
    let mut e = "OpenCode OAuth slot is missing '".to_owned();
    e.append(name);
    e.append("'");
    Err(e)
}

pub open spec fn slot_auth(access: Seq<char>, refresh: Seq<char>, account: Seq<char>) -> JsonView {
    JsonView::Object(
        seq![
            (
                "tokens"@,
                JsonView::Object(
                    seq![
                        ("idToken"@, JsonView::Str(access)),
                        ("accessToken"@, JsonView::Str(access)),
                        ("refreshToken"@, JsonView::Str(refresh)),
                        ("accountId"@, JsonView::Str(account)),
                    ],
                ),
            ),
        ],
    )
}

/// The tokens of an OpenCode slot as an auth file, or why there are none.
pub open spec fn opencode_auth(root: JsonView, provider: Seq<char>) -> Result<JsonView, Seq<char>> {
    match root.get(provider) {
        Some(slot) => if !(slot is Object) {
            Err(no_provider(provider))
        } else if slot_text(slot, "access"@) is None {
            Err(missing("access"@))
        } else if slot_text(slot, "refresh"@) is None {
            Err(missing("refresh"@))
        } else if slot_text(slot, "accountId"@) is None {
            Err(missing("accountId"@))
        } else {
            Ok(
                slot_auth(
                    slot_text(slot, "access"@)->0,
                    slot_text(slot, "refresh"@)->0,
                    slot_text(slot, "accountId"@)->0,
                ),
            )
        },
        None => Err(no_provider(provider)),
    }
}

pub fn opencode_payload(root: &Json, provider: &str) -> (r: Result<Json, String>)
    ensures
        match r {
            Ok(auth) => opencode_auth(root@, provider@) == Ok::<JsonView, Seq<char>>(auth@),
            Err(e) => opencode_auth(root@, provider@) == Err::<JsonView, Seq<char>>(e@),
        },
{
    let slot = match root.get(provider) {
        Some(slot) => slot,
        None => {
            let mut e = "OpenCode provider '".to_owned();
            e.append(provider);
            e.append("' was not found");
            return Err(e);
        },
    };
    if !slot.is_object() {
        let mut e = "OpenCode provider '".to_owned();
        e.append(provider);
        e.append("' was not found");
        return Err(e);
    }
    let access = match required_string(slot.get("access"), "access") {
        Ok(text) => text,
        Err(e) => return Err(e),
    };
    let refresh = match required_string(slot.get("refresh"), "refresh") {
        Ok(text) => text,
        Err(e) => return Err(e),
    };
    let account = match required_string(slot.get("accountId"), "accountId") {
        Ok(text) => text,
        Err(e) => return Err(e),
    };
    let mut tokens: Vec<(String, Json)> = Vec::new();
    put(&mut tokens, "idToken", Json::of_text(&access));
    put(&mut tokens, "accessToken", Json::of_text(&access));
    put(&mut tokens, "refreshToken", Json::of_text(&refresh));
    put(&mut tokens, "accountId", Json::of_text(&account));
    let inner = Json::object(tokens);
    let mut entries: Vec<(String, Json)> = Vec::new();
    put(&mut entries, "tokens", inner);
    proof {
        let wanted = slot_auth(access@, refresh@, account@);
        assert(entry_views(tokens@) =~= wanted->Object_0[0].1->Object_0);
        assert(entry_views(entries@) =~= wanted->Object_0);
    }
    Ok(Json::object(entries))
}

/// The import of one slot of a file that OpenCode wrote.
pub fn import_opencode_file(raw: &Vec<u8>, provider: &str, label: &str) -> (r: Result<
    ApiRequest,
    String,
>)
    ensures
        match json_of_bytes(raw@) {
            None => r matches Err(e) && e@ == "OpenCode auth file must be JSON"@,
            Some(root) => match opencode_auth(root, provider@) {
                Ok(auth) => r matches Ok(request) && request@ == import_of(auth, Some(label@)),
                Err(text) => r matches Err(e) && e@ == text,
            },
        },
{
    let root = match parse_bytes(raw.as_slice()) {
        Some(root) => root,
        None => return Err("OpenCode auth file must be JSON".to_owned()),
    };
    match opencode_payload(&root, provider) {
        Ok(auth) => Ok(import_payload(auth, &Some(label.to_owned()))),
        Err(e) => Err(e),
    }
}

/// A label in its normal form for a directory name, refused where that form is no label.
pub fn sanitize_label(label: &str) -> (r: Result<String, String>)
    ensures
        match r {
            Ok(value) => is_label(normal_label(label@)) && value@ == normal_label(label@),
            Err(e) => !is_label(normal_label(label@)) && e@
                == "label must be 1-32 ASCII letters, numbers, '-' or '_'"@,
        },
{
    let value = to_lower(&trim(label));
    if valid_word(&value, 32) {
        Ok(value)
    } else {
        Err("label must be 1-32 ASCII letters, numbers, '-' or '_'".to_owned())
    }
}

/// The directory in which Codex logs in under a label: below `XDG_DATA_HOME` where that is not empty,
/// else below the home directory.
pub open spec fn home_for(xdg: Option<Seq<char>>, home: Option<Seq<char>>, label: Seq<char>) -> Option<
    Seq<char>,
> {
    let root = match set_value(xdg) {
        Some(dir) => Some(dir),
        None => match home {
            Some(dir) => Some(joined(dir, ".local/share"@)),
            None => None,
        },
    };
    match root {
        Some(dir) => Some(joined(joined(joined(dir, "codex-lb-rs"@), "login-homes"@), label)),
        None => None,
    }
}

pub fn login_home(xdg: &Option<String>, home: &Option<String>, label: &str) -> (r: Result<
    String,
    String,
>)
    ensures
        match r {
            Ok(dir) => is_label(normal_label(label@)) && home_for(
                xdg.deep_view(),
                home.deep_view(),
                normal_label(label@),
            ) == Some(dir@),
            Err(e) => if !is_label(normal_label(label@)) {
                e@ == "label must be 1-32 ASCII letters, numbers, '-' or '_'"@
            } else {
                set_value(xdg.deep_view()) is None && home is None && e@
                    == "HOME or XDG_DATA_HOME is required"@
            },
        },
{
    let safe = match sanitize_label(label) {
        Ok(safe) => safe,
        Err(e) => return Err(e),
    };
    let root = match set_text(xdg) {
        Some(dir) => dir,
        None => match home {
            Some(dir) => join_path(dir, ".local/share"),
            None => return Err("HOME or XDG_DATA_HOME is required".to_owned()),
        },
    };
    Ok(join_path(&join_path(&join_path(&root, "codex-lb-rs"), "login-homes"), &safe))
}

proof fn joined_label(dir: Seq<char>, a: Seq<char>, b: Seq<char>)
    requires
        is_label(a),
        is_label(b),
        joined(dir, a) == joined(dir, b),
    ensures
        a == b,
{
    assert(a[0] != '/' && b[0] != '/');
    let start = if dir.len() == 0 || dir.last() == '/' {
        dir
    } else {
        dir.push('/')
    };
    assert(joined(dir, a) == start + a && joined(dir, b) == start + b);
    assert(a =~= (start + a).skip(start.len() as int));
    assert(b =~= (start + b).skip(start.len() as int));
}

/// Every label has a directory of its own, so that one login does not replace another.
pub proof fn labels_have_their_own_homes(
    xdg: Option<Seq<char>>,
    home: Option<Seq<char>>,
    a: Seq<char>,
    b: Seq<char>,
)
    requires
        is_label(a),
        is_label(b),
        a != b,
        home_for(xdg, home, a) is Some,
    ensures
        home_for(xdg, home, a) != home_for(xdg, home, b),
{
    let root = match set_value(xdg) {
        Some(dir) => dir,
        None => joined(home->0, ".local/share"@),
    };
    let dir = joined(joined(root, "codex-lb-rs"@), "login-homes"@);
    if home_for(xdg, home, a) == home_for(xdg, home, b) {
        joined_label(dir, a, b);
    }
}

/// Whether a configuration is another with the address of the arguments.
pub open spec fn serves_at(r: Config, config: Config, args: ServeArgs) -> bool {
    &&& r.host@ == (match args.host {
        Some(host) => host@,
        None => config.host@,
    })
    &&& r.port == (match args.port {
        Some(port) => port,
        None => config.port,
    })
    &&& r == (Config { host: r.host, port: r.port, ..config })
}

/// The configuration with what the command line says of the address.
pub fn serve_config(config: Config, args: &ServeArgs) -> (r: Config)
    ensures
        serves_at(r, config, *args),
        r.host@ == (match args.host {
            Some(host) => host@,
            None => config.host@,
        }),
        r.port == (match args.port {
            Some(port) => port,
            None => config.port,
        }),
        r == (Config { host: r.host, port: r.port, ..config }),
{
    let mut c = config;
    if let Some(host) = &args.host {
        c.host = host.clone();
    }
    if let Some(port) = args.port {
        c.port = port;
    }
    c
}

pub open spec fn config_json(c: Config) -> JsonView {
    JsonView::Object(
        seq![
            ("databaseUrlConfigured"@, JsonView::Bool(c.database_url@.len() > 0)),
            ("listen"@, JsonView::Str(c.host@ + ":"@ + decimal(c.port as int))),
            ("upstreamBaseUrl"@, JsonView::Str(c.upstream_base_url@)),
            ("adminTokenConfigured"@, JsonView::Bool(c.admin_token is Some)),
            ("proxyTokenConfigured"@, JsonView::Bool(c.proxy_api_token is Some)),
        ],
    )
}

/// What the configuration says, without its secrets.
pub fn config_report(config: &Config) -> (r: Json)
    ensures
        r@ == config_json(*config),
{
    let mut listen = config.host.clone();
    listen.append(":");
    listen.append(&decimal_text(config.port as i128));
    let mut entries: Vec<(String, Json)> = Vec::new();
    put(
        &mut entries,
        "databaseUrlConfigured",
        Json::Bool(!config.database_url.as_str().is_empty()),
    );
    put(&mut entries, "listen", Json::of_text(&listen));
    put(&mut entries, "upstreamBaseUrl", Json::of_text(&config.upstream_base_url));
    put(&mut entries, "adminTokenConfigured", Json::Bool(config.admin_token.is_some()));
    put(&mut entries, "proxyTokenConfigured", Json::Bool(config.proxy_api_token.is_some()));
    assert(entry_views(entries@) =~= config_json(*config)->Object_0);
    Json::object(entries)
}

/// Where the status is asked for.
pub open spec fn status_path(waybar: bool) -> Seq<char> {
    if waybar {
        "/api/v1/status/waybar"@
    } else {
        "/api/v1/status"@
    }
}

/// The request for the status.
pub fn status_request(waybar: bool) -> (r: ApiRequest)
    ensures
        r@ == bare(Method::Get, status_path(waybar)),
        r@ == bare(
            Method::Get,
            if waybar {
                "/api/v1/status/waybar"@
            } else {
                "/api/v1/status"@
            },
        ),
{
    if waybar {
        ask(Method::Get, "/api/v1/status/waybar".to_owned())
    } else {
        ask(Method::Get, "/api/v1/status".to_owned())
    }
}

/// What the status bar shows while the daemon does not answer.
pub fn offline_status(error: &str) -> (r: WaybarStatus)
    ensures
        r.text@ == "󰬫 offline"@,
        r.tooltip@ == "codex-lb-rs is unavailable: "@ + error@,
        views(r.class@) == seq!["codex-pool"@, "offline"@],
        r.percentage == 0,
        r.alt@ == "offline"@,
{
    let mut class: Vec<String> = Vec::new();
    class.push("codex-pool".to_owned());
    class.push("offline".to_owned());
    assert(views(class@) =~= seq!["codex-pool"@, "offline"@]);
    WaybarStatus {
        text: "󰬫 offline".to_owned(),
        tooltip: concat("codex-lb-rs is unavailable: ", error),
        class,
        percentage: 0,
        alt: "offline".to_owned(),
    }
}

/// What is asked of the daemon about usage.
pub open spec fn usage_asked(command: UsageCommand) -> RequestView {
    match command {
        UsageCommand::Summary => bare(Method::Get, "/admin/usage/summary"@),
        UsageCommand::Account { id } => bare(
            Method::Get,
            "/admin/usage/accounts/"@ + text_of_uuid(id),
        ),
        UsageCommand::Refresh => bare(Method::Post, "/admin/usage/refresh"@),
    }
}

pub fn run_usage(command: &UsageCommand) -> (r: ApiRequest)
    ensures
        r@ == usage_asked(*command),
        r@ == match *command {
            UsageCommand::Summary => bare(Method::Get, "/admin/usage/summary"@),
            UsageCommand::Account { id } => bare(
                Method::Get,
                "/admin/usage/accounts/"@ + text_of_uuid(id),
            ),
            UsageCommand::Refresh => bare(Method::Post, "/admin/usage/refresh"@),
        },
{
    match command {
        UsageCommand::Summary => ask(Method::Get, "/admin/usage/summary".to_owned()),
        UsageCommand::Account { id } => ask(
            Method::Get,
            concat("/admin/usage/accounts/", &uuid_text(*id)),
        ),
        UsageCommand::Refresh => ask(Method::Post, "/admin/usage/refresh".to_owned()),
    }
}

pub open spec fn logs_path(limit: i64, offset: i64) -> Seq<char> {
    "/admin/request-logs?limit="@ + decimal(limit as int) + "&offset="@ + decimal(offset as int)
}

pub fn run_logs(command: &LogsCommand) -> (r: ApiRequest)
    ensures
        r@ == match *command {
            LogsCommand::List { limit, offset } => bare(Method::Get, logs_path(limit, offset)),
        },
{
    match command {
        LogsCommand::List { limit, offset } => {
            let mut path = "/admin/request-logs?limit=".to_owned();
            path.append(&decimal_text(*limit as i128));
            path.append("&offset=");
            path.append(&decimal_text(*offset as i128));
            ask(Method::Get, path)
        },
    }
}

/// A value given on the command line: JSON where it is that, else the text itself.
pub open spec fn given(value: Seq<char>) -> JsonView {
    match json_of_text(value) {
        Some(parsed) => parsed,
        None => JsonView::Str(value),
    }
}

fn read_given(value: &str) -> (r: Json)
    ensures
        r@ == given(value@),
{
    match parse_text(value) {
        Some(parsed) => parsed,
        None => Json::of_text(value),
    }
}

/// What is asked of the daemon about its settings.
pub open spec fn settings_asked(command: SettingsCommand) -> RequestView {
    match command {
        SettingsCommand::Get => bare(Method::Get, "/admin/settings"@),
        SettingsCommand::Put { key, value } => with_body(
            Method::Put,
            "/admin/settings"@,
            JsonView::Object(seq![(key@, given(value@))]),
        ),
    }
}

pub fn run_settings(command: &SettingsCommand) -> (r: ApiRequest)
    ensures
        r@ == settings_asked(*command),
        r@ == match *command {
            SettingsCommand::Get => bare(Method::Get, "/admin/settings"@),
            SettingsCommand::Put { key, value } => with_body(
                Method::Put,
                "/admin/settings"@,
                JsonView::Object(seq![(key@, given(value@))]),
            ),
        },
{
    match command {
        SettingsCommand::Get => ask(Method::Get, "/admin/settings".to_owned()),
        SettingsCommand::Put { key, value } => {
            let mut entries: Vec<(String, Json)> = Vec::new();
            put(&mut entries, key, read_given(value));
            assert(entry_views(entries@) =~= seq![(key@, given(value@))]);
            tell(Method::Put, "/admin/settings".to_owned(), Json::object(entries))
        },
    }
}

/// The address of a path of the daemon.
pub fn request_url(base_url: &str, path: &str) -> (r: String)
    ensures
        r@ == no_slashes(base_url@) + path@,
{
    concat(&trim_slashes(base_url), path)
}

/// What an answer of the daemon is read as.
pub open spec fn answer_of(status: u16, status_text: Seq<char>, text: Seq<char>) -> Result<
    JsonView,
    Seq<char>,
> {
    if status == 204 {
        Ok(status_json("ok"@))
    } else if 200 <= status < 300 {
        Ok(given(text))
    } else {
        Err("admin API returned "@ + status_text + ": "@ + written(given(text)))
    }
}

/// What the daemon's answer says: JSON where it is that, else its text. One without content is taken
/// as `ok`, and one that is no success is refused with what it says. `status_text` is the status in
/// words.
pub fn read_answer(status: u16, status_text: &str, text: &str) -> (r: Result<Json, String>)
    ensures
        match r {
            Ok(answer) => answer_of(status, status_text@, text@) == Ok::<JsonView, Seq<char>>(
                answer@,
            ),
            Err(e) => answer_of(status, status_text@, text@) == Err::<JsonView, Seq<char>>(e@),
        },
        match r {
            Ok(answer) => if status == 204 {
                answer@ == status_json("ok"@)
            } else {
                200 <= status < 300 && answer@ == given(text@)
            },
            Err(e) => !(200 <= status < 300) && e@ == "admin API returned "@ + status_text@ + ": "@
                + written(given(text@)),
        },
{
    if status == 204 {
        return Ok(status_object("ok"));
    }
    let limit = char_count(text);
    assert(cut_text(text@, limit as nat) =~= text@);
    let (answer, shown) = read_answer_text(text, limit);
    if 200 <= status && status < 300 {
        Ok(answer)
    } else {
        let mut e = "admin API returned ".to_owned();
        e.append(status_text);
        e.append(": ");
        e.append(&shown);
        Err(e)
    }
}

/// What the configuration report says does not depend on the secrets, only on whether there are any.
pub proof fn report_tells_no_secrets(a: Config, b: Config)
    requires
        a.database_url@ == b.database_url@,
        a.host@ == b.host@,
        a.port == b.port,
        a.upstream_base_url@ == b.upstream_base_url@,
        a.admin_token is Some <==> b.admin_token is Some,
        a.proxy_api_token is Some <==> b.proxy_api_token is Some,
    ensures
        config_json(a) == config_json(b),
{
}

/// The hashes of keys.
pub open spec fn hashes_of(keys: Seq<RouteKeyView>) -> Seq<Seq<char>> {
    Seq::new(keys.len(), |i: int| keys[i].hash)
}

pub open spec fn text_jsons(texts: Seq<Seq<char>>) -> Seq<JsonView> {
    Seq::new(texts.len(), |i: int| JsonView::Str(texts[i]))
}

/// The request for the routes of some keys.
pub open spec fn resolve_of(hashes: Seq<Seq<char>>) -> RequestView {
    with_body(
        Method::Post,
        "/admin/session-routes"@,
        JsonView::Object(seq![("keyHashes"@, JsonView::Array(text_jsons(hashes)))]),
    )
}

pub fn resolve_session_hashes(key_hashes: &Vec<String>) -> (r: ApiRequest)
    ensures
        r@ == resolve_of(views(key_hashes@)),
{
    let mut items: Vec<Json> = Vec::new();
    let mut i: usize = 0;
    while i < key_hashes.len()
        invariant
            i <= key_hashes.len(),
            items.len() == i,
            forall|k: int|
                0 <= k < i ==> (#[trigger] items@[k])@ == JsonView::Str(key_hashes@[k]@),
        decreases key_hashes.len() - i,
    {
        items.push(Json::of_text(&key_hashes[i]));
        i += 1;
    }
    assert(item_views(items@) =~= text_jsons(views(key_hashes@)));
    let mut entries: Vec<(String, Json)> = Vec::new();
    put(&mut entries, "keyHashes", Json::array(items));
    assert(entry_views(entries@) =~= seq![
        ("keyHashes"@, JsonView::Array(text_jsons(views(key_hashes@)))),
    ]);
    tell(Method::Post, "/admin/session-routes".to_owned(), Json::object(entries))
}

/// The question where a session is routed to.
#[derive(Debug)]
pub struct SessionLookup {
    pub session_id: u128,
    pub root_id: u128,
    pub request: ApiRequest,
}

/// A session on this machine, by the hash under which the daemon knows it.
#[derive(Debug)]
pub struct KnownSession {
    pub key_hash: String,
    pub session_id: u128,
}

pub open spec fn known_views(known: Seq<KnownSession>) -> Seq<(Seq<char>, u128)> {
    Seq::new(known.len(), |i: int| (known[i].key_hash@, known[i].session_id))
}

/// The session with a hash, where one is known.
pub open spec fn session_of(known: Seq<(Seq<char>, u128)>, hash: Seq<char>) -> Option<u128>
    decreases known.len(),
{
    if known.len() == 0 {
        None
    } else if known[0].0 == hash {
        Some(known[0].1)
    } else {
        session_of(known.drop_first(), hash)
    }
}

/// The place of the session with a hash.
pub open spec fn known_place(known: Seq<(Seq<char>, u128)>, hash: Seq<char>) -> int
    decreases known.len(),
{
    if known.len() == 0 {
        0
    } else if known[0].0 == hash {
        0
    } else {
        1 + known_place(known.drop_first(), hash)
    }
}

/// The known sessions with one more, which takes the place of one with the same hash.
pub open spec fn with_session(known: Seq<(Seq<char>, u128)>, hash: Seq<char>, id: u128) -> Seq<
    (Seq<char>, u128),
> {
    let at = known_place(known, hash);
    if at < known.len() {
        known.update(at, (hash, id))
    } else {
        known.push((hash, id))
    }
}

/// The sessions of the first `n` trees.
pub open spec fn sessions_of(trees: Seq<SessionTree>, n: int) -> Seq<(Seq<char>, u128)>
    decreases n,
{
    if n <= 0 {
        Seq::empty()
    } else {
        with_session(
            sessions_of(trees, n - 1),
            key_hash("session_id"@, text_of_uuid(trees[n - 1].root_id)),
            trees[n - 1].root_id,
        )
    }
}

pub open spec fn first_500(trees: Seq<SessionTree>) -> int {
    if trees.len() > 500 {
        500
    } else {
        trees.len() as int
    }
}

pub open spec fn known_hashes(known: Seq<(Seq<char>, u128)>) -> Seq<Seq<char>> {
    Seq::new(known.len(), |i: int| known[i].0)
}

fn find_known(known: &Vec<KnownSession>, hash: &str) -> (r: usize)
    ensures
        r == known_place(known_views(known@), hash@),
        r <= known.len(),
        session_of(known_views(known@), hash@) == if r < known.len() {
            Some(known@[r as int].session_id)
        } else {
            None
        },
{
    let ghost all = known_views(known@);
    let mut i: usize = 0;
    assert(all.skip(0) =~= all);
    while i < known.len()
        invariant
            i <= known.len(),
            all == known_views(known@),
            known_place(all, hash@) == i + known_place(all.skip(i as int), hash@),
            session_of(all, hash@) == session_of(all.skip(i as int), hash@),
        decreases known.len() - i,
    {
        assert(all.skip(i as int).drop_first() =~= all.skip(i + 1));
        assert(all.skip(i as int)[0] == all[i as int]);
        if same(&known[i].key_hash, hash) {
            return i;
        }
        i += 1;
    }
    i
}

fn add_known(known: &mut Vec<KnownSession>, key_hash: String, session_id: u128)
    ensures
        known_views(final(known)@) == with_session(
            known_views(old(known)@),
            key_hash@,
            session_id,
        ),
{
    let ghost before = known_views(known@);
    let at = find_known(known, &key_hash);
    let ghost hash = key_hash@;
    let one = KnownSession { key_hash, session_id };
    if at < known.len() {
        known.set(at, one);
        assert(known_views(known@) =~= before.update(at as int, (hash, session_id)));
    } else {
        known.push(one);
        assert(known_views(known@) =~= before.push((hash, session_id)));
    }
}

/// What a sessions command does.
#[derive(Debug)]
pub enum SessionsStep {
    /// Send the request and print the answer.
    Send(ApiRequest),
    /// Read the rollouts on this machine, and go on with them.
    ReadCatalog,
}

pub open spec fn empty_target() -> Seq<char> {
    "--to must be a non-empty account label or UUID"@
}

fn routes_request(limit: i64) -> (r: ApiRequest)
    ensures
        r@ == bare(
            Method::Get,
            "/admin/session-routes?limit="@ + decimal(clamped(limit as int, 1, 500)),
        ),
{
    let shown = clamp(limit, 1, 500);
    ask(Method::Get, concat("/admin/session-routes?limit=", &decimal_text(shown as i128)))
}

/// The first step of a sessions command.
pub fn run_sessions(command: &SessionsCommand) -> (r: Result<SessionsStep, String>)
    ensures
        match *command {
            SessionsCommand::Routes { limit } => r matches Ok(SessionsStep::Send(request))
                && request@ == bare(
                Method::Get,
                "/admin/session-routes?limit="@ + decimal(clamped(limit as int, 1, 500)),
            ),
            SessionsCommand::Reroute { to, .. } => if trimmed(to@).len() == 0 {
                r matches Err(e) && e@ == empty_target()
            } else {
                r == Ok::<SessionsStep, String>(SessionsStep::ReadCatalog)
            },
            _ => r == Ok::<SessionsStep, String>(SessionsStep::ReadCatalog),
        },
{
    match command {
        SessionsCommand::Routes { limit } => Ok(SessionsStep::Send(routes_request(*limit))),
        SessionsCommand::Reroute { to, .. } => {
            if trim(to).as_str().is_empty() {
                Err("--to must be a non-empty account label or UUID".to_owned())
            } else {
                Ok(SessionsStep::ReadCatalog)
            }
        },
        _ => Ok(SessionsStep::ReadCatalog),
    }
}

/// Whether a request asks for the routes of the tree of a session.
pub open spec fn asks_for_tree(
    c: CatalogView,
    id: u128,
    lookup: SessionLookup,
    tree: SessionTree,
    ids: Seq<u128>,
) -> bool {
    &&& tree_of(c, id, tree)
    &&& key_order(tree, ids)
    &&& keys_of(ids, ids.len() as int).len() <= 500
    &&& lookup.session_id == id
    &&& lookup.root_id == tree.root_id
    &&& lookup.request@ == resolve_of(hashes_of(keys_of(ids, ids.len() as int)))
}

/// Whether the tree of a session has more keys than one request can have.
pub open spec fn tree_is_large(
    c: CatalogView,
    id: u128,
    tree: SessionTree,
    ids: Seq<u128>,
) -> bool {
    tree_of(c, id, tree) && key_order(tree, ids) && keys_of(ids, ids.len() as int).len() > 500
}

/// The question where the tree of a session is routed to.
pub fn show_session(catalog: &SessionCatalog, session_id: u128) -> (r: Result<
    SessionLookup,
    SessionError,
>)
    requires
        catalog.wf(),
    ensures
        match r {
            Ok(lookup) => exists|tree: SessionTree, ids: Seq<u128>| #[trigger]
                asks_for_tree(catalog@, session_id, lookup, tree, ids),
            Err(e) => canonical(catalog@, session_id) == Err::<u128, SessionErrorView>(e@) || (e@
                == SessionErrorView::TooManyKeys && exists|tree: SessionTree, ids: Seq<u128>|
                #[trigger] tree_is_large(catalog@, session_id, tree, ids)),
        },
{
    let tree = match catalog.tree_for(session_id) {
        Ok(tree) => tree,
        Err(e) => return Err(e),
    };
    let keys = match session_tree_aliases(&tree) {
        Ok(keys) => keys,
        Err(e) => {
            proof {
                let ids = choose|ids: Seq<u128>| #[trigger]
                    key_order(tree, ids) && keys_of(ids, ids.len() as int).len() > 500;
                assert(tree_is_large(catalog@, session_id, tree, ids));
            }
            return Err(e);
        },
    };
    let mut hashes: Vec<String> = Vec::new();
    let mut i: usize = 0;
    while i < keys.len()
        invariant
            i <= keys.len(),
            hashes.len() == i,
            forall|k: int| 0 <= k < i ==> (#[trigger] hashes@[k])@ == key_views(keys@)[k].hash,
        decreases keys.len() - i,
    {
        hashes.push(keys[i].key_hash.clone());
        i += 1;
    }
    assert(views(hashes@) =~= hashes_of(key_views(keys@)));
    let lookup = SessionLookup {
        session_id,
        root_id: tree.root_id,
        request: resolve_session_hashes(&hashes),
    };
    proof {
        let ids = choose|ids: Seq<u128>| #[trigger]
            key_order(tree, ids) && keys_of(ids, ids.len() as int) == key_views(keys@);
        assert(asks_for_tree(catalog@, session_id, lookup, tree, ids));
    }
    Ok(lookup)
}

/// The routes in an answer.
pub open spec fn routes_in(answer: JsonView) -> Seq<JsonView> {
    match answer.get("sessionRoutes"@) {
        Some(list) => list.items(),
        None => Seq::empty(),
    }
}

/// The first route with a hash.
pub open spec fn route_with(routes: Seq<JsonView>, hash: Seq<char>) -> Option<JsonView>
    decreases routes.len(),
{
    if routes.len() == 0 {
        None
    } else if member_text(routes[0], "keyHash"@) == Some(hash) {
        Some(routes[0])
    } else {
        route_with(routes.drop_first(), hash)
    }
}

pub open spec fn last_routed_note() -> Seq<char> {
    "A sticky route is not proof that the session process is currently connected."@
}

pub open spec fn first_12(hash: Seq<char>) -> Seq<char> {
    hash.take(
        if hash.len() < 12 {
            hash.len() as int
        } else {
            12
        },
    )
}

/// What is shown of a session: the route of the session itself, else that of any of its tree.
pub open spec fn show_json(session_id: u128, root_id: u128, answer: JsonView) -> JsonView {
    let hash = key_hash("session_id"@, text_of_uuid(root_id));
    let routes = routes_in(answer);
    let route = match route_with(routes, hash) {
        Some(route) => route,
        None => if routes.len() > 0 {
            routes[0]
        } else {
            JsonView::Null
        },
    };
    JsonView::Object(
        seq![
            ("sessionId"@, JsonView::Str(text_of_uuid(session_id))),
            ("rootSessionId"@, JsonView::Str(text_of_uuid(root_id))),
            ("fingerprint"@, JsonView::Str(first_12(hash))),
            ("route"@, route),
            ("routes"@, JsonView::Array(routes)),
            ("semantics"@, JsonView::Str("last_routed"@)),
            ("note"@, JsonView::Str(last_routed_note())),
        ],
    )
}

fn copied_routes(answer: &Json) -> (r: Vec<Json>)
    ensures
        item_views(r@) == routes_in(answer@),
{
    let mut out: Vec<Json> = Vec::new();
    if let Some(list) = answer.get("sessionRoutes") {
        if let Some(items) = list.items() {
            let mut i: usize = 0;
            while i < items.len()
                invariant
                    i <= items.len(),
                    out.len() == i,
                    forall|k: int| 0 <= k < i ==> (#[trigger] out@[k])@ == items@[k]@,
                decreases items.len() - i,
            {
                out.push(items[i].copied());
                i += 1;
            }
            assert(item_views(out@) =~= item_views(items@));
            return out;
        }
    }
    assert(item_views(out@) =~= Seq::empty());
    out
}

fn find_route(routes: &Vec<Json>, hash: &str) -> (r: Option<usize>)
    ensures
        match r {
            Some(i) => i < routes.len() && route_with(item_views(routes@), hash@) == Some(
                routes@[i as int]@,
            ),
            None => route_with(item_views(routes@), hash@) is None,
        },
{
    let ghost all = item_views(routes@);
    let mut i: usize = 0;
    assert(all.skip(0) =~= all);
    while i < routes.len()
        invariant
            i <= routes.len(),
            all == item_views(routes@),
            route_with(all, hash@) == route_with(all.skip(i as int), hash@),
        decreases routes.len() - i,
    {
        assert(all.skip(i as int).drop_first() =~= all.skip(i + 1));
        assert(all.skip(i as int)[0] == all[i as int]);
        if let Some(text) = routes[i].get_str("keyHash") {
            if same(text, hash) {
                return Some(i);
            }
        }
        i += 1;
    }
    None
}

pub fn show_report(lookup: &SessionLookup, answer: &Json) -> (r: Json)
    ensures
        r@ == show_json(lookup.session_id, lookup.root_id, answer@),
{
    let hash = root_session_key_hash(lookup.root_id);
    let routes = copied_routes(answer);
    let route = match find_route(&routes, &hash) {
        Some(i) => routes[i].copied(),
        None => if routes.len() > 0 {
            routes[0].copied()
        } else {
            Json::Null
        },
    };
    let mut entries: Vec<(String, Json)> = Vec::new();
    put(&mut entries, "sessionId", Json::of_text(&uuid_text(lookup.session_id)));
    put(&mut entries, "rootSessionId", Json::of_text(&uuid_text(lookup.root_id)));
    put(&mut entries, "fingerprint", Json::of_text(&take_chars(&hash, 12)));
    put(&mut entries, "route", route);
    put(&mut entries, "routes", Json::array(routes));
    put(&mut entries, "semantics", Json::of_text("last_routed"));
    put(
        &mut entries,
        "note",
        Json::of_text(
            "A sticky route is not proof that the session process is currently connected.",
        ),
    );
    assert(entry_views(entries@) =~= show_json(
        lookup.session_id,
        lookup.root_id,
        answer@,
    )->Object_0);
    Json::object(entries)
}

/// Whether the known sessions are those of the trees written last.
pub open spec fn knows_latest(
    c: CatalogView,
    known: Seq<KnownSession>,
    trees: Seq<SessionTree>,
) -> bool {
    lists_trees(c, trees, c.nodes.len() as int) && known_views(known) == sessions_of(
        trees,
        first_500(trees),
    )
}

/// The question where the sessions written last are routed to. Trees are built from all rollouts
/// before any of them is left out.
pub fn list_sessions(catalog: &SessionCatalog) -> (r: (Vec<KnownSession>, ApiRequest))
    requires
        catalog.wf(),
    ensures
        exists|trees: Seq<SessionTree>| #[trigger] knows_latest(catalog@, r.0@, trees),
        r.1@ == resolve_of(known_hashes(known_views(r.0@))),
{
    let trees = catalog.session_trees();
    let mut known: Vec<KnownSession> = Vec::new();
    let mut i: usize = 0;
    assert(known_views(known@) =~= Seq::empty());
    while i < trees.len() && i < 500
        invariant
            i <= trees.len(),
            i <= 500,
            known_views(known@) == sessions_of(trees@, i as int),
        decreases trees.len() - i,
    {
        add_known(&mut known, root_session_key_hash(trees[i].root_id), trees[i].root_id);
        i += 1;
    }
    let mut hashes: Vec<String> = Vec::new();
    let mut k: usize = 0;
    while k < known.len()
        invariant
            k <= known.len(),
            hashes.len() == k,
            forall|j: int| 0 <= j < k ==> (#[trigger] hashes@[j])@ == known@[j].key_hash@,
        decreases known.len() - k,
    {
        hashes.push(known[k].key_hash.clone());
        k += 1;
    }
    assert(views(hashes@) =~= known_hashes(known_views(known@)));
    assert(knows_latest(catalog@, known@, trees@));
    let request = resolve_session_hashes(&hashes);
    (known, request)
}

pub open spec fn or_null(value: Option<JsonView>) -> JsonView {
    match value {
        Some(inner) => inner,
        None => JsonView::Null,
    }
}

/// What is listed of a route, where it is that of a known session.
pub open spec fn line_of(known: Seq<(Seq<char>, u128)>, route: JsonView) -> Option<JsonView> {
    match member_text(route, "keyHash"@) {
        None => None,
        Some(hash) => match session_of(known, hash) {
            None => None,
            Some(id) => Some(
                JsonView::Object(
                    seq![
                        ("sessionId"@, JsonView::Str(text_of_uuid(id))),
                        ("fingerprint"@, JsonView::Str(first_12(hash))),
                        ("account"@, or_null(route.get("accountLabel"@))),
                        ("lastRoutedAt"@, or_null(route.get("lastUsedAt"@))),
                        ("firstRoutedAt"@, or_null(route.get("createdAt"@))),
                    ],
                ),
            ),
        },
    }
}

/// What is listed of the first `n` routes, at most `limit` lines.
pub open spec fn lines_of(
    known: Seq<(Seq<char>, u128)>,
    routes: Seq<JsonView>,
    limit: int,
    n: int,
) -> Seq<JsonView>
    decreases n,
{
    if n <= 0 {
        Seq::empty()
    } else {
        let head = lines_of(known, routes, limit, n - 1);
        match line_of(known, routes[n - 1]) {
            Some(line) => if head.len() < limit {
                head.push(line)
            } else {
                head
            },
            None => head,
        }
    }
}

pub open spec fn listing_note() -> Seq<char> {
    "Raw session IDs are matched locally; the daemon stores and receives only SHA-256 hashes. A sticky route is not proof that the session process is currently connected."@
}

pub open spec fn list_json(
    known: Seq<(Seq<char>, u128)>,
    limit: int,
    answer: JsonView,
) -> JsonView {
    let routes = routes_in(answer);
    JsonView::Object(
        seq![
            (
                "sessions"@,
                JsonView::Array(
                    lines_of(known, routes, clamped(limit, 1, 500), routes.len() as int),
                ),
            ),
            ("semantics"@, JsonView::Str("last_routed"@)),
            ("note"@, JsonView::Str(listing_note())),
        ],
    )
}

fn copied_member(route: &Json, key: &str) -> (r: Json)
    ensures
        r@ == or_null(route@.get(key@)),
{
    match route.get(key) {
        Some(value) => value.copied(),
        None => Json::Null,
    }
}

fn session_line(known: &Vec<KnownSession>, route: &Json) -> (r: Option<Json>)
    ensures
        json_opt(r) == line_of(known_views(known@), route@),
{
    let hash = match route.get_str("keyHash") {
        Some(hash) => hash,
        None => return None,
    };
    let at = find_known(known, hash);
    if at >= known.len() {
        return None;
    }
    let mut entries: Vec<(String, Json)> = Vec::new();
    put(&mut entries, "sessionId", Json::of_text(&uuid_text(known[at].session_id)));
    put(&mut entries, "fingerprint", Json::of_text(&take_chars(hash, 12)));
    put(&mut entries, "account", copied_member(route, "accountLabel"));
    put(&mut entries, "lastRoutedAt", copied_member(route, "lastUsedAt"));
    put(&mut entries, "firstRoutedAt", copied_member(route, "createdAt"));
    assert(entry_views(entries@) =~= line_of(known_views(known@), route@)->0->Object_0);
    Some(Json::object(entries))
}

pub fn list_report(known: &Vec<KnownSession>, limit: usize, answer: &Json) -> (r: Json)
    ensures
        r@ == list_json(known_views(known@), limit as int, answer@),
{
    let most: usize = if limit < 1 {
        1
    } else if limit > 500 {
        500
    } else {
        limit
    };
    let routes = copied_routes(answer);
    let ghost all = item_views(routes@);
    let mut lines: Vec<Json> = Vec::new();
    let mut i: usize = 0;
    assert(item_views(lines@) =~= Seq::empty());
    while i < routes.len()
        invariant
            i <= routes.len(),
            all == item_views(routes@),
            item_views(lines@) == lines_of(known_views(known@), all, most as int, i as int),
        decreases routes.len() - i,
    {
        let ghost before = lines@;
        assert(item_views(before).len() == before.len());
        if let Some(line) = session_line(known, &routes[i]) {
            if lines.len() < most {
                lines.push(line);
                assert(item_views(lines@) =~= item_views(before).push(line@));
            }
        }
        i += 1;
    }
    let mut entries: Vec<(String, Json)> = Vec::new();
    put(&mut entries, "sessions", Json::array(lines));
    put(&mut entries, "semantics", Json::of_text("last_routed"));
    put(
        &mut entries,
        "note",
        Json::of_text(
            "Raw session IDs are matched locally; the daemon stores and receives only SHA-256 hashes. A sticky route is not proof that the session process is currently connected.",
        ),
    );
    assert(entry_views(entries@) =~= list_json(
        known_views(known@),
        limit as int,
        answer@,
    )->Object_0);
    Json::object(entries)
}

/// Whether a request is the command for the tree of a session.
pub open spec fn commands_tree(
    c: CatalogView,
    id: u128,
    action: Seq<char>,
    target: Option<Seq<char>>,
    dry_run: bool,
    request: RequestView,
    tree: SessionTree,
    ids: Seq<u128>,
) -> bool {
    &&& tree_of(c, id, tree)
    &&& key_order(tree, ids)
    &&& keys_of(ids, ids.len() as int).len() <= 500
    &&& request == with_body(
        Method::Post,
        "/admin/session-routes/actions"@,
        action_json(
            key_hash("session_id"@, text_of_uuid(tree.root_id)),
            keys_of(ids, ids.len() as int),
            action,
            target,
            dry_run,
        ),
    )
}

/// The command for a session and its tree: to release its routes, or to route it to the target. It
/// is made for all of the tree or not at all.
pub fn session_action(
    catalog: &SessionCatalog,
    session_id: u128,
    action: &str,
    target: Option<&str>,
    dry_run: bool,
) -> (r: Result<ApiRequest, SessionError>)
    requires
        catalog.wf(),
    ensures
        match r {
            Ok(request) => consistent(catalog@, session_id) && exists|
                tree: SessionTree,
                ids: Seq<u128>,
            | #[trigger]
                commands_tree(
                    catalog@,
                    session_id,
                    action@,
                    opt_text(target),
                    dry_run,
                    request@,
                    tree,
                    ids,
                ),
            Err(e) => if consistent(catalog@, session_id) {
                e@ == SessionErrorView::TooManyKeys && exists|tree: SessionTree, ids: Seq<u128>|
                    #[trigger] tree_is_large(catalog@, session_id, tree, ids)
            } else {
                tree_fault(catalog@, session_id, e@)
            },
        },
{
    let tree = match catalog.mutation_tree_for(session_id) {
        Ok(tree) => tree,
        Err(e) => return Err(e),
    };
    match session_action_payload(&tree, action, target, dry_run) {
        Ok(payload) => {
            let request = tell(
                Method::Post,
                "/admin/session-routes/actions".to_owned(),
                payload,
            );
            proof {
                let ids = choose|ids: Seq<u128>| #[trigger]
                    key_order(tree, ids) && keys_of(ids, ids.len() as int).len() <= 500 && payload@
                        == action_json(
                        key_hash("session_id"@, text_of_uuid(tree.root_id)),
                        keys_of(ids, ids.len() as int),
                        action@,
                        opt_text(target),
                        dry_run,
                    );
                assert(commands_tree(
                    catalog@,
                    session_id,
                    action@,
                    opt_text(target),
                    dry_run,
                    request@,
                    tree,
                    ids,
                ));
            }
            Ok(request)
        },
        Err(e) => {
            proof {
                let ids = choose|ids: Seq<u128>| #[trigger]
                    key_order(tree, ids) && keys_of(ids, ids.len() as int).len() > 500;
                assert(tree_is_large(catalog@, session_id, tree, ids));
            }
            Err(e)
        },
    }
}

/// What a sessions command does once the rollouts are read.
#[derive(Debug)]
pub enum CatalogStep {
    /// Send the request and print the answer.
    Send(ApiRequest),
    /// Send the request and report the session.
    Show(SessionLookup),
    /// Send the request and list the sessions.
    List { known: Vec<KnownSession>, limit: usize, request: ApiRequest },
}

/// Whether a step commands the tree of a session.
pub open spec fn step_commands(
    c: CatalogView,
    id: u128,
    action: Seq<char>,
    target: Option<Seq<char>>,
    dry_run: bool,
    r: Result<CatalogStep, SessionError>,
) -> bool {
    match r {
        Ok(CatalogStep::Send(request)) => consistent(c, id) && exists|
            tree: SessionTree,
            ids: Seq<u128>,
        | #[trigger]
            commands_tree(c, id, action, target, dry_run, request@, tree, ids),
        Ok(_) => false,
        Err(e) => if consistent(c, id) {
            e@ == SessionErrorView::TooManyKeys && exists|tree: SessionTree, ids: Seq<u128>|
                #[trigger] tree_is_large(c, id, tree, ids)
        } else {
            tree_fault(c, id, e@)
        },
    }
}

/// The step of a sessions command once the rollouts are read.
pub fn run_with_catalog(command: &SessionsCommand, catalog: &SessionCatalog) -> (r: Result<
    CatalogStep,
    SessionError,
>)
    requires
        catalog.wf(),
    ensures
        match *command {
            SessionsCommand::Show { session_id } => match r {
                Ok(CatalogStep::Show(lookup)) => exists|tree: SessionTree, ids: Seq<u128>|
                    #[trigger] asks_for_tree(catalog@, session_id, lookup, tree, ids),
                Ok(_) => false,
                Err(e) => canonical(catalog@, session_id) == Err::<u128, SessionErrorView>(e@) || (
                e@ == SessionErrorView::TooManyKeys && exists|tree: SessionTree, ids: Seq<u128>|
                    #[trigger] tree_is_large(catalog@, session_id, tree, ids)),
            },
            SessionsCommand::List { limit } => r matches Ok(
                CatalogStep::List { known, limit: most, request },
            ) && most == limit && (exists|trees: Seq<SessionTree>| #[trigger]
                knows_latest(catalog@, known@, trees)) && request@ == resolve_of(
                known_hashes(known_views(known@)),
            ),
            SessionsCommand::Rebalance { session_id, dry_run } => step_commands(
                catalog@,
                session_id,
                "rebalance"@,
                None,
                dry_run,
                r,
            ),
            SessionsCommand::Reroute { session_id, to, dry_run } => step_commands(
                catalog@,
                session_id,
                "reroute"@,
                Some(trimmed(to@)),
                dry_run,
                r,
            ),
            SessionsCommand::Routes { limit } => r matches Ok(CatalogStep::Send(request))
                && request@ == bare(
                Method::Get,
                "/admin/session-routes?limit="@ + decimal(clamped(limit as int, 1, 500)),
            ),
        },
{
    match command {
        SessionsCommand::Show { session_id } => match show_session(catalog, *session_id) {
            Ok(lookup) => Ok(CatalogStep::Show(lookup)),
            Err(e) => Err(e),
        },
        SessionsCommand::List { limit } => {
            let (known, request) = list_sessions(catalog);
            Ok(CatalogStep::List { known, limit: *limit, request })
        },
        SessionsCommand::Rebalance { session_id, dry_run } => match session_action(
            catalog,
            *session_id,
            "rebalance",
            None,
            *dry_run,
        ) {
            Ok(request) => Ok(CatalogStep::Send(request)),
            Err(e) => Err(e),
        },
        SessionsCommand::Reroute { session_id, to, dry_run } => {
            let target = trim(to);
            match session_action(catalog, *session_id, "reroute", Some(target.as_str()), *dry_run) {
                Ok(request) => Ok(CatalogStep::Send(request)),
                Err(e) => Err(e),
            }
        },
        SessionsCommand::Routes { limit } => Ok(CatalogStep::Send(routes_request(*limit))),
    }
}

/// What each command on an account asks of the daemon, by method, path and body.
pub proof fn account_commands_ask(id: u128, step: AccountsStep)
    ensures
        steps(AccountsCommand::List, step) ==> (step matches AccountsStep::Send(q)
            && q@.method is Get && q@.path == "/admin/accounts"@ && q@.body is None),
        steps(AccountsCommand::Pause { id }, step) ==> (step matches AccountsStep::Send(q)
            && q@.method is Patch && q@.path == "/admin/accounts/"@ + text_of_uuid(id) && (
        q@.body matches Some(b) && b.get("status"@) == Some(JsonView::Str("paused"@)))),
        steps(AccountsCommand::Reactivate { id }, step) ==> (step matches AccountsStep::Send(q)
            && q@.method is Patch && q@.path == "/admin/accounts/"@ + text_of_uuid(id) && (
        q@.body matches Some(b) && b.get("status"@) == Some(JsonView::Str("active"@)))),
        steps(AccountsCommand::Remove { id }, step) ==> (step matches AccountsStep::SendThenSay(
            q,
            line,
        ) && q@.method is Delete && q@.path == "/admin/accounts/"@ + text_of_uuid(id)
            && q@.body is None && line@ == "deleted "@ + text_of_uuid(id)),
        steps(AccountsCommand::RefreshToken { id }, step) ==> (step matches AccountsStep::Send(q)
            && q@.method is Post && q@.path == "/admin/accounts/"@ + text_of_uuid(id)
            + "/refresh-token"@ && q@.body is None),
        steps(AccountsCommand::RefreshUsage { id }, step) ==> (step matches AccountsStep::Send(q)
            && q@.method is Post && q@.path == "/admin/accounts/"@ + text_of_uuid(id)
            + "/refresh-usage"@ && q@.body is None),
{
    reveal_strlit("");
    assert("/admin/accounts/"@ + text_of_uuid(id) + ""@ =~= "/admin/accounts/"@ + text_of_uuid(id));
    members_are_first_entries(status_json("paused"@), "status"@);
    members_are_first_entries(status_json("active"@), "status"@);
    assert(status_json("paused"@)->Object_0[0].0 == "status"@);
    assert(status_json("active"@)->Object_0[0].0 == "status"@);
}

/// An import carries the credentials and the label under their own names.
pub proof fn imports_carry_credentials(auth: JsonView, label: Seq<char>)
    ensures
        import_of(auth, Some(label)).body matches Some(b) && b.get("auth"@) == Some(auth) && b.get(
            "label"@,
        ) == Some(JsonView::Str(label)),
        import_of(auth, None).body matches Some(b) && b.get("auth"@) == Some(auth) && b.get(
            "label"@,
        ) == Some(JsonView::Null),
        import_of(auth, None).method is Post,
        import_of(auth, None).path == "/admin/accounts"@,
{
    reveal_strlit("auth");
    reveal_strlit("label");
    assert("auth"@.len() == 4 && "label"@.len() == 5);
    let a = import_of(auth, Some(label)).body->0;
    let b = import_of(auth, None).body->0;
    assert(a->Object_0[0].0 == "auth"@ && a->Object_0[1].0 == "label"@);
    assert(b->Object_0[0].0 == "auth"@ && b->Object_0[1].0 == "label"@);
    members_are_first_entries(a, "auth"@);
    members_are_first_entries(a, "label"@);
    members_are_first_entries(b, "auth"@);
    members_are_first_entries(b, "label"@);
}

/// What is imported from another file is the slot of its provider: its access token, which stands for
/// the identity token too, its refresh token and its account, each under its own name.
pub proof fn slots_give_their_tokens(root: JsonView, provider: Seq<char>, slot: JsonView, auth: JsonView)
    requires
        root.get(provider) == Some(slot),
        opencode_auth(root, provider) == Ok::<JsonView, Seq<char>>(auth),
    ensures
        auth.get("tokens"@) matches Some(t) && t is Object && t.get("accessToken"@) == slot.get(
            "access"@,
        ) && t.get("idToken"@) == slot.get("access"@) && t.get("refreshToken"@) == slot.get(
            "refresh"@,
        ) && t.get("accountId"@) == slot.get("accountId"@) && slot.get("access"@) is Some
            && slot.get("refresh"@) is Some && slot.get("accountId"@) is Some,
{
    reveal_strlit("idToken");
    reveal_strlit("accessToken");
    reveal_strlit("refreshToken");
    reveal_strlit("accountId");
    assert("idToken"@.len() == 7 && "accessToken"@.len() == 11 && "refreshToken"@.len() == 12
        && "accountId"@.len() == 9);
    members_are_first_entries(auth, "tokens"@);
    assert(auth->Object_0[0].0 == "tokens"@);
    let t = auth->Object_0[0].1;
    let e = t->Object_0;
    assert(e[0].0 == "idToken"@ && e[1].0 == "accessToken"@ && e[2].0 == "refreshToken"@ && e[3].0
        == "accountId"@);
    members_are_first_entries(t, "idToken"@);
    members_are_first_entries(t, "accessToken"@);
    members_are_first_entries(t, "refreshToken"@);
    members_are_first_entries(t, "accountId"@);
}

/// A slot that is not there, or lacks a token or its account, is refused.
pub proof fn incomplete_slots_are_refused(root: JsonView, provider: Seq<char>, slot: JsonView)
    ensures
        root.get(provider) is None ==> opencode_auth(root, provider) is Err,
        root.get(provider) == Some(slot) && (slot.get("access"@) is None || slot.get(
            "refresh"@,
        ) is None || slot.get("accountId"@) is None) ==> opencode_auth(root, provider) is Err,
{
}

/// The report on the configuration tells the address, the upstream, and which secrets are set.
pub proof fn reports_tell_what_is_set(c: Config)
    ensures
        config_json(c).get("listen"@) == Some(
            JsonView::Str(c.host@ + ":"@ + decimal(c.port as int)),
        ),
        config_json(c).get("upstreamBaseUrl"@) == Some(JsonView::Str(c.upstream_base_url@)),
        config_json(c).get("adminTokenConfigured"@) == Some(JsonView::Bool(c.admin_token is Some)),
        config_json(c).get("proxyTokenConfigured"@) == Some(
            JsonView::Bool(c.proxy_api_token is Some),
        ),
        config_json(c).get("databaseUrlConfigured"@) == Some(
            JsonView::Bool(c.database_url@.len() > 0),
        ),
{
    let v = config_json(c);
    reveal_strlit("databaseUrlConfigured");
    reveal_strlit("listen");
    reveal_strlit("upstreamBaseUrl");
    reveal_strlit("adminTokenConfigured");
    reveal_strlit("proxyTokenConfigured");
    assert("databaseUrlConfigured"@.len() == 21 && "listen"@.len() == 6 && "upstreamBaseUrl"@.len()
        == 15);
    assert("adminTokenConfigured"@.len() == 20 && "adminTokenConfigured"@[0] == 'a');
    assert("proxyTokenConfigured"@.len() == 20 && "proxyTokenConfigured"@[0] == 'p');
    let e = v->Object_0;
    assert(e[0].0 == "databaseUrlConfigured"@ && e[1].0 == "listen"@ && e[2].0 == "upstreamBaseUrl"@
        && e[3].0 == "adminTokenConfigured"@ && e[4].0 == "proxyTokenConfigured"@);
    members_are_first_entries(v, "databaseUrlConfigured"@);
    members_are_first_entries(v, "listen"@);
    members_are_first_entries(v, "upstreamBaseUrl"@);
    members_are_first_entries(v, "adminTokenConfigured"@);
    members_are_first_entries(v, "proxyTokenConfigured"@);
}

/// The other requests of the command line, by method and path.
pub proof fn other_commands_ask(id: u128, limit: i64, offset: i64)
    ensures
        usage_asked(UsageCommand::Summary) == (RequestView {
            method: Method::Get,
            path: "/admin/usage/summary"@,
            body: None,
        }),
        usage_asked(UsageCommand::Refresh) == (RequestView {
            method: Method::Post,
            path: "/admin/usage/refresh"@,
            body: None,
        }),
        usage_asked(UsageCommand::Account { id }) == (RequestView {
            method: Method::Get,
            path: "/admin/usage/accounts/"@ + text_of_uuid(id),
            body: None,
        }),
        settings_asked(SettingsCommand::Get) == (RequestView {
            method: Method::Get,
            path: "/admin/settings"@,
            body: None,
        }),
        logs_path(limit, offset) == "/admin/request-logs?limit="@ + decimal(limit as int)
            + "&offset="@ + decimal(offset as int),
        status_path(true) == "/api/v1/status/waybar"@,
        status_path(false) == "/api/v1/status"@,
{
}

/// A setting is put under its own name, as the value that it is written as, and as a text where it is
/// written as none.
pub proof fn settings_are_put_by_name(key: String, value: String, v: JsonView)
    ensures
        settings_asked(SettingsCommand::Put { key, value }).method is Put,
        settings_asked(SettingsCommand::Put { key, value }).path == "/admin/settings"@,
        settings_asked(SettingsCommand::Put { key, value }).body matches Some(b) && b.get(key@)
            == Some(given(value@)),
        json_of_text(value@) == Some(v) ==> given(value@) == v,
        json_of_text(value@) is None ==> given(value@) == JsonView::Str(value@),
{
    let b = settings_asked(SettingsCommand::Put { key, value }).body->0;
    assert(b->Object_0[0].0 == key@);
    members_are_first_entries(b, key@);
}

/// An answer is read where its status is one of success; any other is told with what it said.
pub proof fn answers_are_read_on_success(status: u16, status_text: Seq<char>, text: Seq<char>)
    ensures
        answer_of(status, status_text, text) is Ok <==> 200 <= status <= 299,
        200 <= status <= 299 && status != 204 ==> answer_of(status, status_text, text) == Ok::<
            JsonView,
            Seq<char>,
        >(given(text)),
        status < 200 || status > 299 ==> answer_of(status, status_text, text) == Err::<
            JsonView,
            Seq<char>,
        >("admin API returned "@ + status_text + ": "@ + written(given(text))),
{
}

/// Arguments come before the configuration, each for its own part of the address.
pub proof fn arguments_come_first(r: Config, config: Config, args: ServeArgs)
    requires
        serves_at(r, config, args),
    ensures
        args.host matches Some(host) ==> r.host@ == host@,
        args.host is None ==> r.host@ == config.host@,
        args.port matches Some(port) ==> r.port == port,
        args.port is None ==> r.port == config.port,
        r.database_url == config.database_url,
        r.admin_token == config.admin_token,
        r.upstream_base_url == config.upstream_base_url,
{
}

/// A session is found by its hash: the first of the known ones that has it.
pub proof fn sessions_are_found_by_hash(known: Seq<(Seq<char>, u128)>, hash: Seq<char>, i: int)
    requires
        0 <= i < known.len(),
        known[i].0 == hash,
        forall|j: int| 0 <= j < i ==> (#[trigger] known[j]).0 != hash,
    ensures
        session_of(known, hash) == Some(known[i].1),
        known_place(known, hash) == i,
    decreases i,
{
    if i > 0 {
        assert(known[0].0 != hash);
        let rest = known.drop_first();
        assert forall|j: int| 0 <= j < i - 1 implies (#[trigger] rest[j]).0 != hash by {
            assert(rest[j] == known[j + 1]);
        }
        sessions_are_found_by_hash(rest, hash, i - 1);
    }
}

/// A line of the list names the session of its route, the account, and when it was used last and first,
/// each from its own member; a route of an unknown session has no line.
pub proof fn lines_name_their_session(
    known: Seq<(Seq<char>, u128)>,
    route: JsonView,
    hash: Seq<char>,
    id: u128,
)
    requires
        route.get("keyHash"@) == Some(JsonView::Str(hash)),
    ensures
        session_of(known, hash) == Some(id) ==> (line_of(known, route) matches Some(line)
            && line.get("sessionId"@) == Some(JsonView::Str(text_of_uuid(id))) && line.get(
            "account"@,
        ) == Some(or_null(route.get("accountLabel"@))) && line.get("lastRoutedAt"@) == Some(
            or_null(route.get("lastUsedAt"@)),
        ) && line.get("firstRoutedAt"@) == Some(or_null(route.get("createdAt"@)))),
        session_of(known, hash) is None ==> line_of(known, route) is None,
{
    reveal_strlit("sessionId");
    reveal_strlit("fingerprint");
    reveal_strlit("account");
    reveal_strlit("lastRoutedAt");
    reveal_strlit("firstRoutedAt");
    assert("sessionId"@.len() == 9 && "fingerprint"@.len() == 11 && "account"@.len() == 7
        && "lastRoutedAt"@.len() == 12 && "firstRoutedAt"@.len() == 13);
    if session_of(known, hash) is Some {
        let line = line_of(known, route)->0;
        let e = line->Object_0;
        assert(e[0].0 == "sessionId"@ && e[1].0 == "fingerprint"@ && e[2].0 == "account"@ && e[3].0
            == "lastRoutedAt"@ && e[4].0 == "firstRoutedAt"@);
        members_are_first_entries(line, "sessionId"@);
        members_are_first_entries(line, "account"@);
        members_are_first_entries(line, "lastRoutedAt"@);
        members_are_first_entries(line, "firstRoutedAt"@);
    }
}

/// A report on a session names it, its root and its routes.
pub proof fn reports_name_their_session(session_id: u128, root_id: u128, answer: JsonView)
    ensures
        ({
            let v = show_json(session_id, root_id, answer);
            &&& v.get("sessionId"@) == Some(JsonView::Str(text_of_uuid(session_id)))
            &&& v.get("rootSessionId"@) == Some(JsonView::Str(text_of_uuid(root_id)))
            &&& v.get("routes"@) == Some(JsonView::Array(routes_in(answer)))
            &&& route_with(routes_in(answer), key_hash("session_id"@, text_of_uuid(root_id)))
                matches Some(route) ==> v.get("route"@) == Some(route)
        }),
{
    let v = show_json(session_id, root_id, answer);
    reveal_strlit("sessionId");
    reveal_strlit("rootSessionId");
    reveal_strlit("fingerprint");
    reveal_strlit("route");
    reveal_strlit("routes");
    reveal_strlit("semantics");
    reveal_strlit("note");
    assert("sessionId"@.len() == 9 && "sessionId"@[1] == 'e' && "rootSessionId"@.len() == 13);
    assert("fingerprint"@.len() == 11 && "route"@.len() == 5 && "routes"@.len() == 6);
    assert("semantics"@.len() == 9 && "semantics"@[2] == 'm' && "sessionId"@[2] == 's');
    assert("note"@.len() == 4);
    let e = v->Object_0;
    assert(e[0].0 == "sessionId"@ && e[1].0 == "rootSessionId"@ && e[2].0 == "fingerprint"@ && e[3].0
        == "route"@ && e[4].0 == "routes"@ && e[5].0 == "semantics"@ && e[6].0 == "note"@);
    members_are_first_entries(v, "sessionId"@);
    members_are_first_entries(v, "rootSessionId"@);
    members_are_first_entries(v, "routes"@);
    members_are_first_entries(v, "route"@);
}

/// Login directories are below the data directory that is set, else below the home directory.
pub proof fn logins_are_below_the_data_directory(dir: Seq<char>, label: Seq<char>)
    requires
        dir.len() > 0,
    ensures
        home_for(Some(dir), None, label) == Some(
            joined(joined(joined(dir, "codex-lb-rs"@), "login-homes"@), label),
        ),
        home_for(None, Some(dir), label) == Some(
            joined(
                joined(joined(joined(dir, ".local/share"@), "codex-lb-rs"@), "login-homes"@),
                label,
            ),
        ),
        home_for(None, None, label) is None,
{
}

} // verus!
