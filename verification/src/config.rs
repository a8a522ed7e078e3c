//! How the daemon is set up.
use vstd::prelude::*;
use crate::text::{
    chars_of, concat, contains, decimal_value, ends_with, occurs, parse_i64, parse_unsigned,
    slice_of, starts_with, strip_prefix, strip_suffix, trim, trimmed,
};

verus! {

#[derive(Debug)]
pub struct Config {
    pub database_url: String,
    pub host: String,
    pub port: u16,
    pub upstream_base_url: String,
    pub auth_base_url: String,
    pub oauth_client_id: String,
    pub oauth_scope: String,
    pub encryption_key_file: String,
    pub admin_token: Option<String>,
    pub proxy_api_token: Option<String>,
    pub request_timeout_seconds: u64,
    pub token_refresh_interval_days: i64,
    pub usage_refresh_interval_seconds: u64,
}

/// The environment that the configuration is read from: each variable as it is set.
#[derive(Debug, Default)]
pub struct ConfigVars {
    pub codex_lb_database_url: Option<String>,
    pub host: Option<String>,
    pub port: Option<String>,
    pub codex_lb_port: Option<String>,
    pub codex_lb_upstream_base_url: Option<String>,
    pub codex_lb_auth_base_url: Option<String>,
    pub codex_lb_oauth_client_id: Option<String>,
    pub codex_lb_oauth_scope: Option<String>,
    pub codex_lb_encryption_key_file: Option<String>,
    pub codex_lb_admin_token: Option<String>,
    pub codex_lb_proxy_api_token: Option<String>,
    pub codex_lb_proxy_request_budget_seconds: Option<String>,
    pub codex_lb_token_refresh_interval_days: Option<String>,
    pub codex_lb_usage_refresh_interval_seconds: Option<String>,
    pub xdg_data_home: Option<String>,
    pub home: Option<String>,
}

/// Which variable cannot be used.
#[derive(Debug, Clone, Copy, PartialEq, Eq, Structural)]
pub enum ConfigError {
    Port,
    RequestBudget,
    TokenRefreshDays,
    UsageRefreshSeconds,
    UpstreamScheme,
}

impl ConfigError {
    pub open spec fn text(self) -> Seq<char> {
        match self {
            ConfigError::Port => "PORT/CODEX_LB_PORT must be a valid TCP port"@,
            ConfigError::RequestBudget =>
                "CODEX_LB_PROXY_REQUEST_BUDGET_SECONDS must be an integer"@,
            ConfigError::TokenRefreshDays =>
                "CODEX_LB_TOKEN_REFRESH_INTERVAL_DAYS must be an integer"@,
            ConfigError::UsageRefreshSeconds =>
                "CODEX_LB_USAGE_REFRESH_INTERVAL_SECONDS must be an integer"@,
            ConfigError::UpstreamScheme =>
                "CODEX_LB_UPSTREAM_BASE_URL must use http(s) or ws(s)"@,
        }
    }

    pub fn message(self) -> (r: &'static str)
        ensures
            r@ == self.text(),
    {
        match self {
            ConfigError::Port => "PORT/CODEX_LB_PORT must be a valid TCP port",
            ConfigError::RequestBudget =>
                "CODEX_LB_PROXY_REQUEST_BUDGET_SECONDS must be an integer",
            ConfigError::TokenRefreshDays =>
                "CODEX_LB_TOKEN_REFRESH_INTERVAL_DAYS must be an integer",
            ConfigError::UsageRefreshSeconds =>
                "CODEX_LB_USAGE_REFRESH_INTERVAL_SECONDS must be an integer",
            ConfigError::UpstreamScheme => "CODEX_LB_UPSTREAM_BASE_URL must use http(s) or ws(s)",
        }
    }
}

/// A variable that is set to more than white space, trimmed.
pub open spec fn value_of(raw: Option<Seq<char>>) -> Option<Seq<char>> {
    match raw {
        Some(text) => if trimmed(text).len() > 0 {
            Some(trimmed(text))
        } else {
            None
        },
        None => None,
    }
}

pub fn env_value(raw: &Option<String>) -> (r: Option<String>)
    ensures
        r.deep_view() == value_of(raw.deep_view()),
{
    match raw {
        Some(text) => {
            let value = trim(text);
            if value.as_str().is_empty() {
                None
            } else {
                Some(value)
            }
        },
        None => None,
    }
}

pub open spec fn value_or(raw: Option<Seq<char>>, default: Seq<char>) -> Seq<char> {
    match value_of(raw) {
        Some(text) => text,
        None => default,
    }
}

fn env_or(raw: &Option<String>, default: &str) -> (r: String)
    ensures
        r@ == value_or(raw.deep_view(), default@),
{
    match env_value(raw) {
        Some(value) => value,
        None => default.to_owned(),
    }
}

/// A path below another: joined by one slash, unless the first is empty or ends in one. A path that
/// starts at the root stands for itself.
pub open spec fn joined(base: Seq<char>, rest: Seq<char>) -> Seq<char> {
    if rest.len() > 0 && rest[0] == '/' {
        rest
    } else if base.len() == 0 || base.last() == '/' {
        base + rest
    } else {
        base.push('/') + rest
    }
}

pub fn join_path(base: &str, rest: &str) -> (r: String)
    ensures
        r@ == joined(base@, rest@),
{
    let chars = chars_of(base);
    let start = chars_of(rest);
    if start.len() > 0 && start[0] == '/' {
        rest.to_owned()
    } else if chars.len() == 0 || chars[chars.len() - 1] == '/' {
        concat(base, rest)
    } else {
        let mut start = base.to_owned();
        start.push('/');
        concat(&start, rest)
    }
}

/// A variable that is set to something: an empty one counts as not set.
pub open spec fn set_value(raw: Option<Seq<char>>) -> Option<Seq<char>> {
    match raw {
        Some(text) => if text.len() > 0 {
            Some(text)
        } else {
            None
        },
        None => None,
    }
}

pub(crate) fn set_text(raw: &Option<String>) -> (r: Option<String>)
    ensures
        r.deep_view() == set_value(raw.deep_view()),
{
    match raw {
        Some(text) => if text.as_str().is_empty() {
            None
        } else {
            Some(text.clone())
        },
        None => None,
    }
}

/// Where data is kept: below `XDG_DATA_HOME` where that is not empty, else below the home directory,
/// else here.
pub open spec fn data_dir(xdg: Option<Seq<char>>, home: Option<Seq<char>>) -> Seq<char> {
    let base = match set_value(xdg) {
        Some(dir) => dir,
        None => match home {
            Some(dir) => joined(joined(dir, ".local"@), "share"@),
            None => "."@,
        },
    };
    joined(base, "codex-lb-rs"@)
}

pub fn default_data_dir(xdg: &Option<String>, home: &Option<String>) -> (r: String)
    ensures
        r@ == data_dir(xdg.deep_view(), home.deep_view()),
{
    let base = match set_text(xdg) {
        Some(dir) => dir,
        None => match home {
            Some(dir) => join_path(&join_path(dir, ".local"), "share"),
            None => ".".to_owned(),
        },
    };
    join_path(&base, "codex-lb-rs")
}

pub fn default_encryption_key_file(xdg: &Option<String>, home: &Option<String>) -> (r: String)
    ensures
        r@ == joined(data_dir(xdg.deep_view(), home.deep_view()), "encryption.key"@),
{
    join_path(&default_data_dir(xdg, home), "encryption.key")
}

pub fn default_database_url(xdg: &Option<String>, home: &Option<String>) -> (r: String)
    ensures
        r@ == "sqlite://"@ + joined(data_dir(xdg.deep_view(), home.deep_view()), "codex-lb.sqlite"@),
{
    concat("sqlite://", &join_path(&default_data_dir(xdg, home), "codex-lb.sqlite"))
}

/// The number of a text that is an unsigned decimal up to `max`.
pub open spec fn unsigned_of(text: Seq<char>, max: int) -> Option<int> {
    match decimal_value(text) {
        Some(n) => if text[0] != '-' && n <= max {
            Some(n)
        } else {
            None
        },
        None => None,
    }
}

pub open spec fn port_text(vars: ConfigVars) -> Seq<char> {
    match value_of(vars.port.deep_view()) {
        Some(text) => text,
        None => value_or(vars.codex_lb_port.deep_view(), "2455"@),
    }
}

pub open spec fn budget_text(vars: ConfigVars) -> Seq<char> {
    value_or(vars.codex_lb_proxy_request_budget_seconds.deep_view(), "600"@)
}

pub open spec fn days_text(vars: ConfigVars) -> Seq<char> {
    value_or(vars.codex_lb_token_refresh_interval_days.deep_view(), "8"@)
}

pub open spec fn interval_text(vars: ConfigVars) -> Seq<char> {
    value_or(vars.codex_lb_usage_refresh_interval_seconds.deep_view(), "120"@)
}

pub open spec fn signed_of(text: Seq<char>) -> Option<int> {
    match decimal_value(text) {
        Some(n) => if i64::MIN <= n <= i64::MAX {
            Some(n)
        } else {
            None
        },
        None => None,
    }
}

/// The first variable that cannot be used.
pub open spec fn config_error(vars: ConfigVars) -> Option<ConfigError> {
    if unsigned_of(port_text(vars), u16::MAX as int) is None {
        Some(ConfigError::Port)
    } else if unsigned_of(budget_text(vars), u64::MAX as int) is None {
        Some(ConfigError::RequestBudget)
    } else if signed_of(days_text(vars)) is None {
        Some(ConfigError::TokenRefreshDays)
    } else if unsigned_of(interval_text(vars), u64::MAX as int) is None {
        Some(ConfigError::UsageRefreshSeconds)
    } else {
        None
    }
}

/// `s` without the slashes at its end.
pub open spec fn no_slashes(s: Seq<char>) -> Seq<char>
    decreases s.len(),
{
    if s.len() > 0 && s.last() == '/' {
        no_slashes(s.drop_last())
    } else {
        s
    }
}

pub fn trim_slashes(s: &str) -> (r: String)
    ensures
        r@ == no_slashes(s@),
{
    let chars = chars_of(s);
    let mut to: usize = chars.len();
    assert(s@.take(s@.len() as int) =~= s@);
    while to > 0 && chars[to - 1] == '/'
        invariant
            to <= chars.len(),
            chars@ == s@,
            no_slashes(s@) == no_slashes(s@.take(to as int)),
        decreases to,
    {
        assert(s@.take(to as int).drop_last() =~= s@.take(to as int - 1));
        to -= 1;
    }
    assert(chars@.subrange(0, to as int) =~= s@.take(to as int));
    slice_of(&chars, 0, to)
}

/// The WebSocket form of a URL; `None` where its scheme has none.
pub open spec fn websocket_url(url: Seq<char>) -> Option<Seq<char>> {
    if starts_with(url, "https://"@) {
        Some("wss://"@ + url.skip("https://"@.len() as int))
    } else if starts_with(url, "http://"@) {
        Some("ws://"@ + url.skip("http://"@.len() as int))
    } else if starts_with(url, "ws://"@) || starts_with(url, "wss://"@) {
        Some(url)
    } else {
        None
    }
}

/// The URL that usage is asked from.
pub open spec fn usage_url(base: Seq<char>) -> Seq<char> {
    if ends_with(base, "/backend-api"@) || occurs(base, "/backend-api/"@) {
        base + "/wham/usage"@
    } else {
        base + "/backend-api/wham/usage"@
    }
}

/// Whether a configuration is the one that an environment gives.
pub open spec fn is_config_of(c: Config, vars: ConfigVars) -> bool {
    let data = data_dir(vars.xdg_data_home.deep_view(), vars.home.deep_view());
    &&& config_error(vars) is None
    &&& c.database_url@ == value_or(
        vars.codex_lb_database_url.deep_view(),
        "sqlite://"@ + joined(data, "codex-lb.sqlite"@),
    )
    &&& c.host@ == value_or(vars.host.deep_view(), "127.0.0.1"@)
    &&& Some(c.port as int) == unsigned_of(port_text(vars), u16::MAX as int)
    &&& c.upstream_base_url@ == value_or(
        vars.codex_lb_upstream_base_url.deep_view(),
        "https://chatgpt.com/backend-api"@,
    )
    &&& c.auth_base_url@ == value_or(
        vars.codex_lb_auth_base_url.deep_view(),
        "https://auth.openai.com"@,
    )
    &&& c.oauth_client_id@ == value_or(
        vars.codex_lb_oauth_client_id.deep_view(),
        "app_EMoamEEZ73f0CkXaXp7hrann"@,
    )
    &&& c.oauth_scope@ == value_or(
        vars.codex_lb_oauth_scope.deep_view(),
        "openid profile email"@,
    )
    &&& c.encryption_key_file@ == value_or(
        vars.codex_lb_encryption_key_file.deep_view(),
        joined(data, "encryption.key"@),
    )
    &&& c.admin_token.deep_view() == value_of(vars.codex_lb_admin_token.deep_view())
    &&& c.proxy_api_token.deep_view() == value_of(
        vars.codex_lb_proxy_api_token.deep_view(),
    )
    &&& Some(c.request_timeout_seconds as int) == unsigned_of(
        budget_text(vars),
        u64::MAX as int,
    )
    &&& Some(c.token_refresh_interval_days as int) == signed_of(days_text(vars))
    &&& c.usage_refresh_interval_seconds == if unsigned_of(
        interval_text(vars),
        u64::MAX as int,
    )->0 < 30 {
        30
    } else {
        unsigned_of(interval_text(vars), u64::MAX as int)->0
    }
}

impl Config {
    /// The configuration that an environment gives, or the first variable that cannot be used.
    pub fn from_vars(vars: &ConfigVars) -> (r: Result<Config, ConfigError>)
        ensures
            match r {
                Err(e) => config_error(*vars) == Some(e),
                Ok(c) => is_config_of(c, *vars) && {
                    let data = data_dir(vars.xdg_data_home.deep_view(), vars.home.deep_view());
                    &&& config_error(*vars) is None
                    &&& c.database_url@ == value_or(
                        vars.codex_lb_database_url.deep_view(),
                        "sqlite://"@ + joined(data, "codex-lb.sqlite"@),
                    )
                    &&& c.host@ == value_or(vars.host.deep_view(), "127.0.0.1"@)
                    &&& Some(c.port as int) == unsigned_of(port_text(*vars), u16::MAX as int)
                    &&& c.upstream_base_url@ == value_or(
                        vars.codex_lb_upstream_base_url.deep_view(),
                        "https://chatgpt.com/backend-api"@,
                    )
                    &&& c.auth_base_url@ == value_or(
                        vars.codex_lb_auth_base_url.deep_view(),
                        "https://auth.openai.com"@,
                    )
                    &&& c.oauth_client_id@ == value_or(
                        vars.codex_lb_oauth_client_id.deep_view(),
                        "app_EMoamEEZ73f0CkXaXp7hrann"@,
                    )
                    &&& c.oauth_scope@ == value_or(
                        vars.codex_lb_oauth_scope.deep_view(),
                        "openid profile email"@,
                    )
                    &&& c.encryption_key_file@ == value_or(
                        vars.codex_lb_encryption_key_file.deep_view(),
                        joined(data, "encryption.key"@),
                    )
                    &&& c.admin_token.deep_view() == value_of(vars.codex_lb_admin_token.deep_view())
                    &&& c.proxy_api_token.deep_view() == value_of(
                        vars.codex_lb_proxy_api_token.deep_view(),
                    )
                    &&& Some(c.request_timeout_seconds as int) == unsigned_of(
                        budget_text(*vars),
                        u64::MAX as int,
                    )
                    &&& Some(c.token_refresh_interval_days as int) == signed_of(days_text(*vars))
                    &&& c.usage_refresh_interval_seconds == if unsigned_of(
                        interval_text(*vars),
                        u64::MAX as int,
                    )->0 < 30 {
                        30
                    } else {
                        unsigned_of(interval_text(*vars), u64::MAX as int)->0
                    }
                },
            },
    {
        let port_value = match env_value(&vars.port) {
            Some(text) => text,
            None => env_or(&vars.codex_lb_port, "2455"),
        };
        let port: u16 = match parse_unsigned(&port_value, 65535) {
            Some(n) => n as u16,
            None => return Err(ConfigError::Port),
        };
        let budget = env_or(&vars.codex_lb_proxy_request_budget_seconds, "600");
        let request_timeout_seconds: u64 = match parse_unsigned(&budget, u64::MAX) {
            Some(n) => n,
            None => return Err(ConfigError::RequestBudget),
        };
        let days = env_or(&vars.codex_lb_token_refresh_interval_days, "8");
        let token_refresh_interval_days: i64 = match parse_i64(&days) {
            Some(n) => n,
            None => return Err(ConfigError::TokenRefreshDays),
        };
        let interval = env_or(&vars.codex_lb_usage_refresh_interval_seconds, "120");
        let seconds: u64 = match parse_unsigned(&interval, u64::MAX) {
            Some(n) => n,
            None => return Err(ConfigError::UsageRefreshSeconds),
        };
        let database = default_database_url(&vars.xdg_data_home, &vars.home);
        let key_file = default_encryption_key_file(&vars.xdg_data_home, &vars.home);
        Ok(
            Config {
                database_url: env_or(&vars.codex_lb_database_url, &database),
                host: env_or(&vars.host, "127.0.0.1"),
                port,
                upstream_base_url: env_or(
                    &vars.codex_lb_upstream_base_url,
                    "https://chatgpt.com/backend-api",
                ),
                auth_base_url: env_or(&vars.codex_lb_auth_base_url, "https://auth.openai.com"),
                oauth_client_id: env_or(
                    &vars.codex_lb_oauth_client_id,
                    "app_EMoamEEZ73f0CkXaXp7hrann",
                ),
                oauth_scope: env_or(&vars.codex_lb_oauth_scope, "openid profile email"),
                encryption_key_file: env_or(&vars.codex_lb_encryption_key_file, &key_file),
                admin_token: env_value(&vars.codex_lb_admin_token),
                proxy_api_token: env_value(&vars.codex_lb_proxy_api_token),
                request_timeout_seconds,
                token_refresh_interval_days,
                usage_refresh_interval_seconds: if seconds < 30 {
                    30
                } else {
                    seconds
                },
            },
        )
    }

    pub fn upstream_codex_responses_url(&self) -> (r: String)
        ensures
            r@ == no_slashes(self.upstream_base_url@) + "/codex/responses"@,
    {
        concat(&trim_slashes(&self.upstream_base_url), "/codex/responses")
    }

    pub fn upstream_codex_responses_websocket_url(&self) -> (r: Result<String, ConfigError>)
        ensures
            ({
                let url = no_slashes(self.upstream_base_url@) + "/codex/responses"@;
                match r {
                    Ok(text) => websocket_url(url) == Some(text@),
                    Err(e) => websocket_url(url) is None && e == ConfigError::UpstreamScheme,
                }
            }),
    {
        let url = self.upstream_codex_responses_url();
        if let Some(rest) = strip_prefix(&url, "https://") {
            Ok(concat("wss://", &rest))
        } else if let Some(rest) = strip_prefix(&url, "http://") {
            Ok(concat("ws://", &rest))
        } else if strip_prefix(&url, "ws://").is_some() || strip_prefix(&url, "wss://").is_some() {
            Ok(url)
        } else {
            Err(ConfigError::UpstreamScheme)
        }
    }

    pub fn upstream_codex_compact_url(&self) -> (r: String)
        ensures
            r@ == no_slashes(self.upstream_base_url@) + "/codex/responses/compact"@,
    {
        concat(&trim_slashes(&self.upstream_base_url), "/codex/responses/compact")
    }

    pub fn upstream_codex_models_url(&self) -> (r: String)
        ensures
            r@ == no_slashes(self.upstream_base_url@) + "/codex/models"@,
    {
        concat(&trim_slashes(&self.upstream_base_url), "/codex/models")
    }

    pub fn upstream_usage_url(&self) -> (r: String)
        ensures
            r@ == usage_url(no_slashes(self.upstream_base_url@)),
    {
        let base = trim_slashes(&self.upstream_base_url);
        if strip_suffix(&base, "/backend-api").is_some() || contains(&base, "/backend-api/") {
            concat(&base, "/wham/usage")
        } else {
            concat(&base, "/backend-api/wham/usage")
        }
    }

    pub fn token_refresh_url(&self) -> (r: String)
        ensures
            r@ == no_slashes(self.auth_base_url@) + "/oauth/token"@,
    {
        concat(&trim_slashes(&self.auth_base_url), "/oauth/token")
    }
}

/// Slashes at the end of a base URL make no difference.
pub proof fn trailing_slashes_do_not_matter(base: Seq<char>)
    ensures
        no_slashes(base.push('/')) == no_slashes(base),
        no_slashes(no_slashes(base)) == no_slashes(base),
    decreases base.len(),
{
    assert(base.push('/').drop_last() =~= base);
    if base.len() > 0 && base.last() == '/' {
        trailing_slashes_do_not_matter(base.drop_last());
        assert(base.drop_last().push('/') =~= base);
    }
}

/// A database URL below the home directory, with the directory put in its place.
pub open spec fn expanded_url(url: Seq<char>, home: Seq<char>) -> Seq<char> {
    if starts_with(url, "sqlite://~/"@) {
        "sqlite://"@ + joined(home, url.skip("sqlite://~/"@.len() as int))
    } else if starts_with(url, "sqlite:~/"@) {
        "sqlite://"@ + joined(home, url.skip("sqlite:~/"@.len() as int))
    } else {
        url
    }
}

pub open spec fn names_home(url: Seq<char>) -> bool {
    starts_with(url, "sqlite://~/"@) || starts_with(url, "sqlite:~/"@)
}

/// The database URL with `~` replaced; `None` where that needs a home directory and there is none.
pub fn expand_home_in_sqlite_url(url: &str, home: &Option<String>) -> (r: Option<String>)
    ensures
        match r {
            Some(text) => if names_home(url@) {
                home is Some && text@ == expanded_url(url@, home->0@)
            } else {
                text@ == url@
            },
            None => names_home(url@) && home is None,
        },
{
    let rest = match strip_prefix(url, "sqlite://~/") {
        Some(rest) => rest,
        None => match strip_prefix(url, "sqlite:~/") {
            Some(rest) => rest,
            None => return Some(url.to_owned()),
        },
    };
    match home {
        Some(dir) => Some(concat("sqlite://", &join_path(dir, &rest))),
        None => None,
    }
}

/// Each setting of the daemon is read from its own variable, trimmed, and has its own default where the
/// variable is not set or blank.
pub proof fn variables_set_their_own_value(c: Config, vars: ConfigVars)
    requires
        is_config_of(c, vars),
    ensures
        vars.codex_lb_database_url matches Some(t) ==> (trimmed(t@).len() > 0 ==> c.database_url@
            == trimmed(t@)),
        vars.host matches Some(t) ==> (trimmed(t@).len() > 0 ==> c.host@ == trimmed(t@)),
        vars.host is None ==> c.host@ == "127.0.0.1"@,
        vars.codex_lb_upstream_base_url matches Some(t) ==> (trimmed(t@).len() > 0
            ==> c.upstream_base_url@ == trimmed(t@)),
        vars.codex_lb_upstream_base_url is None ==> c.upstream_base_url@
            == "https://chatgpt.com/backend-api"@,
        vars.codex_lb_auth_base_url matches Some(t) ==> (trimmed(t@).len() > 0 ==> c.auth_base_url@
            == trimmed(t@)),
        vars.codex_lb_auth_base_url is None ==> c.auth_base_url@ == "https://auth.openai.com"@,
        vars.codex_lb_oauth_client_id matches Some(t) ==> (trimmed(t@).len() > 0
            ==> c.oauth_client_id@ == trimmed(t@)),
        vars.codex_lb_oauth_scope matches Some(t) ==> (trimmed(t@).len() > 0 ==> c.oauth_scope@
            == trimmed(t@)),
        vars.codex_lb_oauth_scope is None ==> c.oauth_scope@ == "openid profile email"@,
        vars.codex_lb_encryption_key_file matches Some(t) ==> (trimmed(t@).len() > 0
            ==> c.encryption_key_file@ == trimmed(t@)),
        vars.codex_lb_admin_token matches Some(t) ==> (trimmed(t@).len() > 0
            ==> (c.admin_token matches Some(x) && x@ == trimmed(t@))),
        vars.codex_lb_admin_token is None ==> c.admin_token is None,
        vars.codex_lb_proxy_api_token matches Some(t) ==> (trimmed(t@).len() > 0
            ==> (c.proxy_api_token matches Some(x) && x@ == trimmed(t@))),
        vars.codex_lb_proxy_api_token is None ==> c.proxy_api_token is None,
{
}

/// The numbers of the configuration are those of their variables: the port under either of its names,
/// the budget of a request, the days between refreshes of tokens and the seconds between those of
/// usage, of which there are thirty at least.
pub proof fn numbers_are_read_from_their_variables(c: Config, vars: ConfigVars, n: int)
    requires
        is_config_of(c, vars),
    ensures
        vars.port matches Some(t) ==> (trimmed(t@).len() > 0 ==> decimal_value(trimmed(t@)) == Some(
            c.port as int,
        )),
        vars.port is None ==> (vars.codex_lb_port matches Some(t) ==> (trimmed(t@).len() > 0
            ==> decimal_value(trimmed(t@)) == Some(c.port as int))),
        vars.codex_lb_proxy_request_budget_seconds matches Some(t) ==> (trimmed(t@).len() > 0
            ==> decimal_value(trimmed(t@)) == Some(c.request_timeout_seconds as int)),
        vars.codex_lb_token_refresh_interval_days matches Some(t) ==> (trimmed(t@).len() > 0
            ==> decimal_value(trimmed(t@)) == Some(c.token_refresh_interval_days as int)),
        vars.codex_lb_usage_refresh_interval_seconds matches Some(t) ==> (trimmed(t@).len() > 0
            && decimal_value(trimmed(t@)) == Some(n) && n >= 30
            ==> c.usage_refresh_interval_seconds == n),
        c.usage_refresh_interval_seconds >= 30,
{
}

/// Without variables the daemon listens on port 2455, gives a request ten minutes, and refreshes tokens
/// after eight days and usage every two minutes.
pub proof fn numbers_have_defaults(c: Config, vars: ConfigVars)
    requires
        is_config_of(c, vars),
    ensures
        vars.port is None && vars.codex_lb_port is None ==> decimal_value("2455"@) == Some(
            c.port as int,
        ),
        vars.codex_lb_proxy_request_budget_seconds is None ==> decimal_value("600"@) == Some(
            c.request_timeout_seconds as int,
        ),
        vars.codex_lb_token_refresh_interval_days is None ==> decimal_value("8"@) == Some(
            c.token_refresh_interval_days as int,
        ),
        vars.codex_lb_usage_refresh_interval_seconds is None ==> (decimal_value("120"@) == Some(
            120int,
        ) ==> c.usage_refresh_interval_seconds == 120),
{
}

/// A variable that holds no number where one is needed is what is wrong: the first of them is named.
pub proof fn variables_without_numbers_are_refused(vars: ConfigVars)
    ensures
        vars.port matches Some(t) ==> (trimmed(t@).len() > 0 && decimal_value(trimmed(t@)) is None
            ==> config_error(vars) == Some(ConfigError::Port)),
        vars.codex_lb_proxy_request_budget_seconds matches Some(t) ==> (trimmed(t@).len() > 0
            && decimal_value(trimmed(t@)) is None ==> config_error(vars) == Some(ConfigError::Port)
            || config_error(vars) == Some(ConfigError::RequestBudget)),
        vars.codex_lb_token_refresh_interval_days matches Some(t) ==> (trimmed(t@).len() > 0
            && decimal_value(trimmed(t@)) is None ==> config_error(vars) is Some),
        vars.codex_lb_usage_refresh_interval_seconds matches Some(t) ==> (trimmed(t@).len() > 0
            && decimal_value(trimmed(t@)) is None ==> config_error(vars) is Some),
{
}

/// A path is put below a directory with one slash between them; an absolute path stays as it is.
pub proof fn paths_are_joined_by_one_slash(base: Seq<char>, rest: Seq<char>)
    ensures
        rest.len() > 0 && rest[0] == '/' ==> joined(base, rest) == rest,
        rest.len() > 0 && rest[0] != '/' && base.len() > 0 && base.last() != '/' ==> joined(
            base,
            rest,
        ) == base + seq!['/'] + rest,
        rest.len() > 0 && rest[0] != '/' && base.len() > 0 && base.last() == '/' ==> joined(
            base,
            rest,
        ) == base + rest,
{
    assert(base.push('/') =~= base + seq!['/']);
}

/// The data of the daemon are below the directory that is set for data, else below the home directory.
pub proof fn data_are_below_the_data_directory(dir: Seq<char>, home: Seq<char>)
    requires
        dir.len() > 0,
    ensures
        data_dir(Some(dir), None) == joined(dir, "codex-lb-rs"@),
        data_dir(Some(dir), Some(home)) == joined(dir, "codex-lb-rs"@),
        data_dir(None, Some(home)) == joined(joined(joined(home, ".local"@), "share"@), "codex-lb-rs"@),
        data_dir(None, None) == joined("."@, "codex-lb-rs"@),
{
}

/// The address for a connection is that for requests, with the scheme of the same safety in its place.
pub proof fn connections_keep_their_safety(rest: Seq<char>)
    ensures
        websocket_url("https://"@ + rest) == Some("wss://"@ + rest),
        websocket_url("http://"@ + rest) == Some("ws://"@ + rest),
        websocket_url("wss://"@ + rest) == Some("wss://"@ + rest),
        websocket_url("ws://"@ + rest) == Some("ws://"@ + rest),
{
    reveal_strlit("https://");
    reveal_strlit("http://");
    reveal_strlit("wss://");
    reveal_strlit("ws://");
    assert("https://"@.len() == 8 && "http://"@.len() == 7 && "wss://"@.len() == 6 && "ws://"@.len()
        == 5);
    let a = "https://"@ + rest;
    assert(a.take(8) =~= "https://"@ && a.skip(8) =~= rest);
    let b = "http://"@ + rest;
    assert(b.take(7) =~= "http://"@ && b.skip(7) =~= rest);
    assert(b[4] == ':' && "https://"@[4] == 's');
    if b.len() >= 8 {
        assert(b.take(8)[4] == ':');
    }
    let c = "wss://"@ + rest;
    assert(c.take(6) =~= "wss://"@);
    assert(c[0] == 'w' && "https://"@[0] == 'h' && "http://"@[0] == 'h');
    if c.len() >= 8 {
        assert(c.take(8)[0] == 'w');
    }
    if c.len() >= 7 {
        assert(c.take(7)[0] == 'w');
    }
    let d = "ws://"@ + rest;
    assert(d.take(5) =~= "ws://"@);
    assert(d[0] == 'w');
    if d.len() >= 8 {
        assert(d.take(8)[0] == 'w');
    }
    if d.len() >= 7 {
        assert(d.take(7)[0] == 'w');
    }
}

/// Usage is asked for below the API of the upstream, which is named once in the address.
pub proof fn usage_is_below_the_api(base: Seq<char>)
    ensures
        ends_with(base, "/backend-api"@) ==> usage_url(base) == base + "/wham/usage"@,
        occurs(base, "/backend-api/"@) ==> usage_url(base) == base + "/wham/usage"@,
        !ends_with(base, "/backend-api"@) && !occurs(base, "/backend-api/"@) ==> usage_url(base)
            == base + "/backend-api/wham/usage"@,
{
}

/// The home directory takes its place in the address of a database; any other address stays.
pub proof fn home_takes_its_place(rest: Seq<char>, url: Seq<char>, home: Seq<char>)
    ensures
        names_home("sqlite://~/"@ + rest),
        expanded_url("sqlite://~/"@ + rest, home) == "sqlite://"@ + joined(home, rest),
        names_home("sqlite:~/"@ + rest),
        expanded_url("sqlite:~/"@ + rest, home) == "sqlite://"@ + joined(home, rest),
        !names_home(url) ==> expanded_url(url, home) == url,
{
    reveal_strlit("sqlite://~/");
    reveal_strlit("sqlite:~/");
    assert("sqlite://~/"@.len() == 11 && "sqlite:~/"@.len() == 9);
    let a = "sqlite://~/"@ + rest;
    assert(a.take(11) =~= "sqlite://~/"@ && a.skip(11) =~= rest);
    let b = "sqlite:~/"@ + rest;
    assert(b.take(9) =~= "sqlite:~/"@ && b.skip(9) =~= rest);
    assert(b[7] == '~' && "sqlite://~/"@[7] == '/');
    if b.len() >= 11 {
        assert(b.take(11)[7] == '~');
    }
}

} // verus!
