//! The status of the pool as a status bar shows it.
use vstd::prelude::*;
use vstd::string::StringExecFns;
use crate::double::{
    above, at_least, bits_of_limits, is_nan, near, negative, order, order_goes_by_bits,
    round_percent, total, totally_precedes, whole, whole_is_number, whole_percent,
};
use crate::figures::{
    bar, cells, compact, compact_count, duration_text, human_duration, initial, one_line,
    short_label, single_line, usage_bar,
};
use crate::status::{full, is_full, is_pending, pending, AccountStatus, PoolStatus, WindowStatus};
use crate::text::{
    char_count, decimal, decimal_text, replace_char, same, to_upper, upper, views, with_char,
};
use crate::time::{is_time, seconds_of, span, whole_seconds};

verus! {

#[derive(Debug)]
pub struct WaybarStatus {
    pub text: String,
    pub tooltip: String,
    pub class: Vec<String>,
    pub percentage: i32,
    pub alt: String,
}

/// Whether a window counts the use of Codex itself.
pub open spec fn is_core(w: WindowStatus) -> bool {
    w.quota_key@ == "codex"@
}

/// The use of a window and its pace, for comparing windows.
pub open spec fn weight(w: WindowStatus) -> (int, int) {
    (
        total(w.used_percent),
        match w.pace.pace_ratio {
            Some(ratio) => total(ratio),
            None => 0,
        },
    )
}

pub open spec fn heavier(a: WindowStatus, b: WindowStatus) -> bool {
    let (x, y) = (weight(a), weight(b));
    x.0 > y.0 || (x.0 == y.0 && x.1 > y.1)
}

/// The place of the heaviest core window among the first `n`, the last of those that are alike.
pub open spec fn heaviest(quotas: Seq<WindowStatus>, n: int) -> Option<int>
    decreases n,
{
    if n <= 0 {
        None
    } else {
        match heaviest(quotas, n - 1) {
            Some(best) => if is_core(quotas[n - 1]) && !heavier(quotas[best], quotas[n - 1]) {
                Some(n - 1)
            } else {
                Some(best)
            },
            None => if is_core(quotas[n - 1]) {
                Some(n - 1)
            } else {
                None
            },
        }
    }
}

fn is_heavier(a: &WindowStatus, b: &WindowStatus) -> (r: bool)
    ensures
        r == heavier(*a, *b),
{
    if a.used_percent != b.used_percent && totally_precedes(b.used_percent, a.used_percent) {
        return true;
    }
    if totally_precedes(a.used_percent, b.used_percent) || totally_precedes(
        b.used_percent,
        a.used_percent,
    ) {
        return false;
    }
    let x: u64 = match a.pace.pace_ratio {
        Some(ratio) => ratio,
        None => 0,
    };
    let y: u64 = match b.pace.pace_ratio {
        Some(ratio) => ratio,
        None => 0,
    };
    totally_precedes(y, x)
}

/// The window that stands for an account.
pub fn display_window(account: &AccountStatus) -> (r: Option<usize>)
    ensures
        match r {
            Some(i) => heaviest(account.quotas@, account.quotas@.len() as int) == Some(i as int) && i
                < account.quotas@.len(),
            None => heaviest(account.quotas@, account.quotas@.len() as int) is None,
        },
{
    let mut best: Option<usize> = None;
    let mut i: usize = 0;
    while i < account.quotas.len()
        invariant
            i <= account.quotas.len(),
            match best {
                Some(b) => heaviest(account.quotas@, i as int) == Some(b as int) && b < i,
                None => heaviest(account.quotas@, i as int) is None,
            },
        decreases account.quotas.len() - i,
    {
        if same(&account.quotas[i].quota_key, "codex") {
            match best {
                Some(b) => {
                    if !is_heavier(&account.quotas[b], &account.quotas[i]) {
                        best = Some(i);
                    }
                },
                None => {
                    best = Some(i);
                },
            }
        }
        i += 1;
    }
    best
}

pub open spec fn arrow(risk: Seq<char>) -> Seq<char> {
    if risk == "critical"@ || risk == "danger"@ {
        "↑"@
    } else if risk == "warning"@ {
        "↗"@
    } else if risk == "safe"@ {
        "→"@
    } else {
        "?"@
    }
}

pub fn pace_arrow(window: &WindowStatus) -> (r: &'static str)
    ensures
        r@ == arrow(window.pace.risk@),
{
    if same(window.pace.risk, "critical") || same(window.pace.risk, "danger") {
        "↑"
    } else if same(window.pace.risk, "warning") {
        "↗"
    } else if same(window.pace.risk, "safe") {
        "→"
    } else {
        "?"
    }
}

/// The state of an account in the text of the bar.
pub open spec fn short_state(a: AccountStatus, now: i128) -> Seq<char> {
    if a.status@ == "auth_failed"@ {
        "login"@
    } else if a.status@ == "paused"@ {
        "pause"@
    } else if pending(a.cooldown_until, now) {
        "wait"@
    } else {
        match heaviest(a.quotas@, a.quotas@.len() as int) {
            Some(i) => if full(a.quotas@[i].used_percent) {
                "100%"@
            } else if a.available {
                a.quotas@[i].used_text@ + "%"@ + arrow(a.quotas@[i].pace.risk@)
            } else {
                "!"@
            },
            None => if a.available {
                "—"@
            } else {
                "!"@
            },
        }
    }
}

pub fn compact_account_state(account: &AccountStatus, now: i128) -> (r: String)
    ensures
        r@ == short_state(*account, now),
{
    if same(&account.status, "auth_failed") {
        return "login".to_owned();
    }
    if same(&account.status, "paused") {
        return "pause".to_owned();
    }
    if is_pending(account.cooldown_until, now) {
        return "wait".to_owned();
    }
    match display_window(account) {
        Some(i) => {
            let window = &account.quotas[i];
            if is_full(window.used_percent) {
                "100%".to_owned()
            } else if account.available {
                let mut r = window.used_text.clone();
                r.append("%");
                r.append(pace_arrow(window));
                r
            } else {
                "!".to_owned()
            }
        },
        None => {
            if account.available {
                "—".to_owned()
            } else {
                "!".to_owned()
            }
        },
    }
}

/// The state of an account in the tooltip.
pub open spec fn long_state(a: AccountStatus, now: i128) -> Seq<char> {
    if a.status@ == "auth_failed"@ {
        "SIGN IN"@
    } else if a.status@ == "paused"@ {
        "PAUSED"@
    } else if pending(a.cooldown_until, now) {
        "COOLDOWN"@
    } else if !a.available {
        "UNAVAILABLE"@
    } else if a.quotas@.len() == 0 {
        "NO DATA"@
    } else if a.last_usage_error is Some {
        "STALE"@
    } else {
        "READY"@
    }
}

pub fn account_display_state(account: &AccountStatus, now: i128) -> (r: &'static str)
    ensures
        r@ == long_state(*account, now),
{
    if same(&account.status, "auth_failed") {
        "SIGN IN"
    } else if same(&account.status, "paused") {
        "PAUSED"
    } else if is_pending(account.cooldown_until, now) {
        "COOLDOWN"
    } else if !account.available {
        "UNAVAILABLE"
    } else if account.quotas.len() == 0 {
        "NO DATA"
    } else if account.last_usage_error.is_some() {
        "STALE"
    } else {
        "READY"
    }
}

/// When a window will be empty at its pace.
pub open spec fn forecast(w: WindowStatus, now: i128) -> Seq<char> {
    if w.reset_at matches Some(at) && at <= now {
        "ETA stale"@
    } else if full(w.used_percent) {
        "empty now"@
    } else {
        match w.pace.projected_exhaustion_at {
            None => "empty ETA —"@,
            Some(projected) => if w.reset_at matches Some(at) && projected >= at {
                "survives to reset"@
            } else if whole_seconds(projected - now) <= 0 {
                "empty ETA due"@
            } else {
                "empty in ~"@ + duration_text(whole_seconds(projected - now))
            },
        }
    }
}

/// When a window starts again.
pub open spec fn eta(reset_at: Option<i128>, now: i128) -> Seq<char> {
    match reset_at {
        None => "unknown"@,
        Some(at) => if whole_seconds(at - now) <= 0 {
            "due; refresh pending"@
        } else {
            "in "@ + duration_text(whole_seconds(at - now))
        },
    }
}

/// Whether a time that may be missing is one that a date can have.
pub open spec fn maybe_time(t: Option<i128>) -> bool {
    t matches Some(at) ==> is_time(at as int)
}

/// Whether all times of a window are those of dates.
pub open spec fn timed(w: WindowStatus) -> bool {
    maybe_time(w.reset_at) && maybe_time(w.pace.projected_exhaustion_at)
}

/// The whole seconds from one time to another.
fn seconds_between(from: i128, to: i128) -> (r: i64)
    requires
        is_time(from as int),
        is_time(to as int),
    ensures
        r == whole_seconds(to - from),
{
    let seconds = seconds_of(span(from, to));
    assert(-20000000000000 <= seconds <= 20000000000000);
    seconds as i64
}

pub fn exhaustion_forecast(window: &WindowStatus, now: i128) -> (r: String)
    requires
        is_time(now as int),
        timed(*window),
    ensures
        r@ == forecast(*window, now),
{
    if let Some(at) = window.reset_at {
        if at <= now {
            return "ETA stale".to_owned();
        }
    }
    if is_full(window.used_percent) {
        return "empty now".to_owned();
    }
    let projected: i128 = match window.pace.projected_exhaustion_at {
        Some(projected) => projected,
        None => return "empty ETA —".to_owned(),
    };
    if let Some(at) = window.reset_at {
        if projected >= at {
            return "survives to reset".to_owned();
        }
    }
    let seconds = seconds_between(now, projected);
    if seconds <= 0 {
        return "empty ETA due".to_owned();
    }
    let mut r = "empty in ~".to_owned();
    r.append(&human_duration(seconds));
    r
}

pub fn reset_eta(reset_at: Option<i128>, now: i128) -> (r: String)
    requires
        is_time(now as int),
        maybe_time(reset_at),
    ensures
        r@ == eta(reset_at, now),
{
    let seconds: i64 = match reset_at {
        Some(at) => seconds_between(now, at),
        None => return "unknown".to_owned(),
    };
    if seconds <= 0 {
        return "due; refresh pending".to_owned();
    }
    let mut r = "in ".to_owned();
    r.append(&human_duration(seconds));
    r
}

/// A number at the right of at least three columns.
pub open spec fn three_columns(text: Seq<char>) -> Seq<char> {
    if text.len() == 0 {
        "   "@
    } else if text.len() == 1 {
        "  "@ + text
    } else if text.len() == 2 {
        " "@ + text
    } else {
        text
    }
}

fn pad(text: &str) -> (r: String)
    ensures
        r@ == three_columns(text@),
{
    let width = char_count(text);
    if width == 0 {
        "   ".to_owned()
    } else if width == 1 {
        let mut r = "  ".to_owned();
        r.append(text);
        r
    } else if width == 2 {
        let mut r = " ".to_owned();
        r.append(text);
        r
    } else {
        text.to_owned()
    }
}

/// The text of the bar for the first `n` accounts.
pub open spec fn accounts_text(accounts: Seq<AccountStatus>, now: i128, n: int) -> Seq<char>
    decreases n,
{
    if n <= 0 {
        Seq::empty()
    } else {
        let a = accounts[n - 1];
        accounts_text(accounts, now, n - 1) + (if n > 1 {
            " · "@
        } else {
            ""@
        }) + (if a.selected {
            "●"@
        } else {
            ""@
        }) + initial(a.label@) + ":"@ + short_state(a, now)
    }
}

/// The tooltip with one more window.
pub open spec fn with_window(out: Seq<char>, w: WindowStatus, now: i128) -> Seq<char> {
    out + "\n├ "@ + w.quota_name@ + "  •  "@ + w.window@ + "\n│ "@ + bar(
        cells(w.used_percent, 10),
        10,
    ) + "  "@ + three_columns(w.used_text@) + "% used  •  "@ + three_columns(w.remaining_text@)
        + "% free\n│ at pace  "@ + forecast(w, now) + "  •  "@ + upper(w.pace.risk@)
        + "\n│ reset "@ + eta(w.reset_at, now)
}

/// The tooltip with the core windows among the first `n` of an account.
pub open spec fn with_windows(
    out: Seq<char>,
    quotas: Seq<WindowStatus>,
    now: i128,
    n: int,
) -> Seq<char>
    decreases n,
{
    if n <= 0 {
        out
    } else if is_core(quotas[n - 1]) {
        with_window(with_windows(out, quotas, now, n - 1), quotas[n - 1], now)
    } else {
        with_windows(out, quotas, now, n - 1)
    }
}

/// The tooltip with the head of an account: its label, its plan, its state and why it is not used.
pub open spec fn with_head(out: Seq<char>, a: AccountStatus, now: i128) -> Seq<char> {
    let head = out + "\n\n┌ "@ + (if a.selected {
        "●"@
    } else {
        "○"@
    }) + " "@ + upper(a.label@) + "  •  "@ + upper(a.plan@) + "  •  "@ + long_state(a, now);
    let reason = if a.status@ == "auth_failed"@ {
        head + "\n│ Device login required"@
    } else {
        match a.status_reason {
            Some(text) => head + "\n│ "@ + single_line(text@, 88),
            None => head,
        }
    };
    if a.quotas@.len() == 0 {
        reason + "\n│ No fresh quota data"@
    } else {
        reason
    }
}

/// The tooltip with the end of an account: why its usage is not known, and what it has done.
pub open spec fn with_activity(out: Seq<char>, a: AccountStatus) -> Seq<char> {
    let error = if a.status@ == "auth_failed"@ {
        out
    } else {
        match a.last_usage_error {
            Some(text) => out + "\n│ Usage: "@ + single_line(text@, 88),
            None => out,
        }
    };
    error + "\n└ Activity  "@ + compact(a.request_count as int) + " requests  •  "@ + compact(
        a.input_tokens as int,
    ) + " input / "@ + compact(a.output_tokens as int) + " output tokens"@
}

/// The tooltip with one more account.
pub open spec fn with_account(out: Seq<char>, a: AccountStatus, now: i128) -> Seq<char> {
    with_activity(
        with_windows(with_head(out, a, now), a.quotas@, now, a.quotas@.len() as int),
        a,
    )
}

/// The tooltip for the first `n` accounts.
pub open spec fn tooltip_of(s: PoolStatus, n: int) -> Seq<char>
    decreases n,
{
    if n <= 0 {
        "CODEX POOL  •  "@ + decimal(s.available_account_count as int) + "/"@ + decimal(
            s.account_count as int,
        ) + " READY\n"@ + with_char(s.routing_strategy@, '_', ' ') + "  •  cached locally"@
    } else {
        with_account(tooltip_of(s, n - 1), s.accounts@[n - 1], s.generated_at)
    }
}

/// The greater of two percentages; one that is no number does not count.
pub open spec fn hotter(heat: u64, used: u64) -> u64 {
    if !is_nan(used) && order(used) > order(heat) {
        used
    } else {
        heat
    }
}

/// The highest use of a core window among the first `n` of an account.
pub open spec fn window_heat(heat: u64, quotas: Seq<WindowStatus>, n: int) -> u64
    decreases n,
{
    if n <= 0 {
        heat
    } else if is_core(quotas[n - 1]) {
        hotter(window_heat(heat, quotas, n - 1), quotas[n - 1].used_percent)
    } else {
        window_heat(heat, quotas, n - 1)
    }
}

/// The highest use of a core window among the first `n` accounts.
pub open spec fn pool_heat(accounts: Seq<AccountStatus>, n: int) -> u64
    decreases n,
{
    if n <= 0 {
        0
    } else {
        window_heat(
            pool_heat(accounts, n - 1),
            accounts[n - 1].quotas@,
            accounts[n - 1].quotas@.len() as int,
        )
    }
}

pub open spec fn hot_pace(w: WindowStatus) -> bool {
    is_core(w) && (w.pace.risk@ == "critical"@ || w.pace.risk@ == "danger"@)
}

/// Whether a core window among the first `n` of an account is used too fast.
pub open spec fn account_hot(quotas: Seq<WindowStatus>, n: int) -> bool {
    exists|i: int| 0 <= i < n && hot_pace(#[trigger] quotas[i])
}

/// Whether a core window of the first `n` accounts is used too fast.
pub open spec fn pool_hot(accounts: Seq<AccountStatus>, n: int) -> bool {
    exists|i: int|
        0 <= i < n && account_hot(
            (#[trigger] accounts[i]).quotas@,
            accounts[i].quotas@.len() as int,
        )
}

pub open spec fn classes_of(s: PoolStatus) -> Seq<Seq<char>> {
    let n = s.accounts@.len() as int;
    let heat = pool_heat(s.accounts@, n);
    let base = seq![
        "codex-pool"@,
        if !s.healthy || s.degraded {
            "degraded"@
        } else {
            "healthy"@
        },
    ];
    let paced = if pool_hot(s.accounts@, n) {
        base.push("pace-hot"@)
    } else {
        base
    };
    if !is_nan(heat) && order(heat) >= order(whole(90)) {
        paced.push("pool-low"@)
    } else {
        paced
    }
}

pub open spec fn alt_of(s: PoolStatus) -> Seq<char> {
    if !s.healthy {
        "unavailable"@
    } else if s.degraded {
        "degraded"@
    } else {
        "healthy"@
    }
}

/// Whether all times that a status shows are those of dates.
pub open spec fn timely(s: PoolStatus) -> bool {
    &&& is_time(s.generated_at as int)
    &&& forall|i: int, j: int|
        0 <= i < s.accounts@.len() && 0 <= j < s.accounts@[i].quotas@.len() ==> timed(
            #[trigger] s.accounts@[i].quotas@[j],
        )
}

fn add_windows(out: &mut String, account: &AccountStatus, now: i128)
    requires
        is_time(now as int),
        forall|j: int| 0 <= j < account.quotas@.len() ==> timed(#[trigger] account.quotas@[j]),
    ensures
        final(out)@ == with_windows(
            old(out)@,
            account.quotas@,
            now,
            account.quotas@.len() as int,
        ),
{
    let ghost start = out@;
    let mut i: usize = 0;
    while i < account.quotas.len()
        invariant
            i <= account.quotas.len(),
            is_time(now as int),
            forall|j: int| 0 <= j < account.quotas@.len() ==> timed(#[trigger] account.quotas@[j]),
            out@ == with_windows(start, account.quotas@, now, i as int),
        decreases account.quotas.len() - i,
    {
        let window = &account.quotas[i];
        if same(&window.quota_key, "codex") {
            out.append("\n├ ");
            out.append(&window.quota_name);
            out.append("  •  ");
            out.append(&window.window);
            out.append("\n│ ");
            out.append(&usage_bar(window.used_percent));
            out.append("  ");
            out.append(&pad(&window.used_text));
            out.append("% used  •  ");
            out.append(&pad(&window.remaining_text));
            out.append("% free\n│ at pace  ");
            out.append(&exhaustion_forecast(window, now));
            out.append("  •  ");
            out.append(&to_upper(window.pace.risk));
            out.append("\n│ reset ");
            out.append(&reset_eta(window.reset_at, now));
        }
        i += 1;
    }
}

fn add_head(out: &mut String, account: &AccountStatus, now: i128)
    ensures
        final(out)@ == with_head(old(out)@, *account, now),
{
    out.append("\n\n┌ ");
    if account.selected {
        out.append("●");
    } else {
        out.append("○");
    }
    out.append(" ");
    out.append(&to_upper(&account.label));
    out.append("  •  ");
    out.append(&to_upper(&account.plan));
    out.append("  •  ");
    out.append(account_display_state(account, now));
    if same(&account.status, "auth_failed") {
        out.append("\n│ Device login required");
    } else if let Some(reason) = &account.status_reason {
        out.append("\n│ ");
        out.append(&one_line(reason, 88));
    }
    if account.quotas.len() == 0 {
        out.append("\n│ No fresh quota data");
    }
}

fn add_activity(out: &mut String, account: &AccountStatus)
    ensures
        final(out)@ == with_activity(old(out)@, *account),
{
    if !same(&account.status, "auth_failed") {
        if let Some(error) = &account.last_usage_error {
            out.append("\n│ Usage: ");
            out.append(&one_line(error, 88));
        }
    }
    out.append("\n└ Activity  ");
    out.append(&compact_count(account.request_count));
    out.append(" requests  •  ");
    out.append(&compact_count(account.input_tokens));
    out.append(" input / ");
    out.append(&compact_count(account.output_tokens));
    out.append(" output tokens");
}

fn build_tooltip(status: &PoolStatus) -> (r: String)
    requires
        timely(*status),
    ensures
        r@ == tooltip_of(*status, status.accounts@.len() as int),
{
    let mut out = "CODEX POOL  •  ".to_owned();
    out.append(&decimal_text(status.available_account_count as i128));
    out.append("/");
    out.append(&decimal_text(status.account_count as i128));
    out.append(" READY\n");
    out.append(&replace_char(&status.routing_strategy, '_', ' '));
    out.append("  •  cached locally");
    let mut i: usize = 0;
    while i < status.accounts.len()
        invariant
            i <= status.accounts.len(),
            timely(*status),
            out@ == tooltip_of(*status, i as int),
        decreases status.accounts.len() - i,
    {
        let account = &status.accounts[i];
        assert forall|j: int| 0 <= j < account.quotas@.len() implies timed(
            #[trigger] account.quotas@[j],
        ) by {
            assert(timed(status.accounts@[i as int].quotas@[j]));
        }
        add_head(&mut out, account, status.generated_at);
        add_windows(&mut out, account, status.generated_at);
        add_activity(&mut out, account);
        i += 1;
    }
    out
}

fn build_text(status: &PoolStatus) -> (r: String)
    ensures
        r@ == "󰬫 "@ + accounts_text(
            status.accounts@,
            status.generated_at,
            status.accounts@.len() as int,
        ),
{
    let mut out = String::new();
    let mut i: usize = 0;
    assert(out@ =~= Seq::empty());
    while i < status.accounts.len()
        invariant
            i <= status.accounts.len(),
            out@ == accounts_text(status.accounts@, status.generated_at, i as int),
        decreases status.accounts.len() - i,
    {
        let account = &status.accounts[i];
        out.append(
            if i > 0 {
                " · "
            } else {
                ""
            },
        );
        out.append(
            if account.selected {
                "●"
            } else {
                ""
            },
        );
        out.append(&short_label(&account.label));
        out.append(":");
        out.append(&compact_account_state(account, status.generated_at));
        i += 1;
    }
    let mut r = "󰬫 ".to_owned();
    r.append(&out);
    r
}

/// The highest use and whether it is too fast, over the core windows of an account.
fn measure(account: &AccountStatus, heat: u64) -> (r: (u64, bool))
    requires
        !negative(heat),
        !is_nan(heat),
    ensures
        r.0 == window_heat(heat, account.quotas@, account.quotas@.len() as int),
        !negative(r.0) && !is_nan(r.0),
        r.1 == account_hot(account.quotas@, account.quotas@.len() as int),
{
    let mut hottest: u64 = heat;
    let mut hot = false;
    let mut i: usize = 0;
    while i < account.quotas.len()
        invariant
            i <= account.quotas.len(),
            hottest == window_heat(heat, account.quotas@, i as int),
            !negative(hottest) && !is_nan(hottest),
            hot == account_hot(account.quotas@, i as int),
        decreases account.quotas.len() - i,
    {
        let window = &account.quotas[i];
        let ghost known = hot;
        if same(&window.quota_key, "codex") {
            if above(window.used_percent, hottest) {
                hottest = window.used_percent;
            }
            if same(window.pace.risk, "critical") || same(window.pace.risk, "danger") {
                hot = true;
            }
        }
        proof {
            if known {
                let k = choose|k: int| 0 <= k < i && hot_pace(#[trigger] account.quotas@[k]);
                assert(hot_pace(account.quotas@[k]));
            }
            if hot_pace(account.quotas@[i as int]) {
                assert(account_hot(account.quotas@, i + 1));
            }
        }
        i += 1;
    }
    (hottest, hot)
}

fn measure_all(status: &PoolStatus) -> (r: (u64, bool))
    ensures
        r.0 == pool_heat(status.accounts@, status.accounts@.len() as int),
        !negative(r.0) && !is_nan(r.0),
        r.1 == pool_hot(status.accounts@, status.accounts@.len() as int),
{
    let mut hottest: u64 = 0;
    let mut hot = false;
    let mut i: usize = 0;
    while i < status.accounts.len()
        invariant
            i <= status.accounts.len(),
            hottest == pool_heat(status.accounts@, i as int),
            !negative(hottest) && !is_nan(hottest),
            hot == pool_hot(status.accounts@, i as int),
        decreases status.accounts.len() - i,
    {
        let (heat, too_fast) = measure(&status.accounts[i], hottest);
        proof {
            let all = status.accounts@;
            if hot {
                let k = choose|k: int|
                    0 <= k < i && account_hot(
                        (#[trigger] all[k]).quotas@,
                        all[k].quotas@.len() as int,
                    );
                assert(account_hot(all[k].quotas@, all[k].quotas@.len() as int));
            }
            if too_fast {
                assert(account_hot(all[i as int].quotas@, all[i as int].quotas@.len() as int));
                assert(pool_hot(all, i + 1));
            }
        }
        hottest = heat;
        hot = hot || too_fast;
        i += 1;
    }
    (hottest, hot)
}

/// The status as a status bar takes it. Only core windows are shown and counted.
pub fn format_waybar(status: &PoolStatus) -> (r: WaybarStatus)
    requires
        timely(*status),
    ensures
        status.accounts@.len() == 0 ==> {
            &&& r.text@ == "󰬫 no accounts"@
            &&& r.tooltip@ == "Codex pool is running, but no accounts are configured."@
            &&& views(r.class@) == seq!["codex-pool"@, "degraded"@]
            &&& r.percentage == 0
            &&& r.alt@ == "empty"@
        },
        status.accounts@.len() > 0 ==> {
            let n = status.accounts@.len() as int;
            let heat = near(pool_heat(status.accounts@, n));
            &&& r.text@ == "󰬫 "@ + accounts_text(status.accounts@, status.generated_at, n)
            &&& r.tooltip@ == tooltip_of(*status, n)
            &&& views(r.class@) == classes_of(*status)
            &&& r.percentage == if heat > i32::MAX {
                i32::MAX as int
            } else {
                heat as int
            }
            &&& r.alt@ == alt_of(*status)
        },
{
    if status.accounts.len() == 0 {
        let mut class: Vec<String> = Vec::new();
        class.push("codex-pool".to_owned());
        class.push("degraded".to_owned());
        assert(views(class@) =~= seq!["codex-pool"@, "degraded"@]);
        return WaybarStatus {
            text: "󰬫 no accounts".to_owned(),
            tooltip: "Codex pool is running, but no accounts are configured.".to_owned(),
            class,
            percentage: 0,
            alt: "empty".to_owned(),
        };
    }
    let (hottest, pace_hot) = measure_all(status);
    let mut class: Vec<String> = Vec::new();
    class.push("codex-pool".to_owned());
    class.push(
        if !status.healthy || status.degraded {
            "degraded".to_owned()
        } else {
            "healthy".to_owned()
        },
    );
    if pace_hot {
        class.push("pace-hot".to_owned());
    }
    proof {
        whole_is_number(90);
    }
    if at_least(hottest, whole_percent(90)) {
        class.push("pool-low".to_owned());
    }
    assert(views(class@) =~= classes_of(*status));
    WaybarStatus {
        text: build_text(status),
        tooltip: build_tooltip(status),
        class,
        percentage: round_percent(hottest),
        alt: if !status.healthy {
            "unavailable".to_owned()
        } else if status.degraded {
            "degraded".to_owned()
        } else {
            "healthy".to_owned()
        },
    }
}

/// The core windows of an account.
pub open spec fn core_windows(quotas: Seq<WindowStatus>) -> Seq<WindowStatus> {
    quotas.filter(|w: WindowStatus| is_core(w))
}

/// Windows that do not count the use of Codex itself are neither shown nor counted.
pub proof fn other_windows_do_not_show(
    out: Seq<char>,
    quotas: Seq<WindowStatus>,
    now: i128,
    heat: u64,
)
    ensures
        with_windows(out, quotas, now, quotas.len() as int) == with_windows(
            out,
            core_windows(quotas),
            now,
            core_windows(quotas).len() as int,
        ),
        window_heat(heat, quotas, quotas.len() as int) == window_heat(
            heat,
            core_windows(quotas),
            core_windows(quotas).len() as int,
        ),
        account_hot(quotas, quotas.len() as int) == account_hot(
            core_windows(quotas),
            core_windows(quotas).len() as int,
        ),
    decreases quotas.len(),
{
    reveal(Seq::filter);
    if quotas.len() > 0 {
        let start = quotas.drop_last();
        let n = start.len() as int;
        other_windows_do_not_show(out, start, now, heat);
        windows_before_count(out, start, quotas, now, heat, n);
        hot_before_counts(start, quotas);
        if is_core(quotas.last()) {
            assert(core_windows(quotas) == core_windows(start).push(quotas.last()));
            let m = core_windows(start).len() as int;
            windows_before_count(out, core_windows(start), core_windows(quotas), now, heat, m);
            hot_before_counts(core_windows(start), core_windows(quotas));
        }
    }
}

proof fn windows_before_count(
    out: Seq<char>,
    a: Seq<WindowStatus>,
    b: Seq<WindowStatus>,
    now: i128,
    heat: u64,
    n: int,
)
    requires
        0 <= n <= a.len() <= b.len(),
        forall|k: int| 0 <= k < a.len() ==> #[trigger] a[k] == b[k],
    ensures
        with_windows(out, a, now, n) == with_windows(out, b, now, n),
        window_heat(heat, a, n) == window_heat(heat, b, n),
    decreases n,
{
    if n > 0 {
        windows_before_count(out, a, b, now, heat, n - 1);
    }
}

proof fn hot_before_counts(a: Seq<WindowStatus>, b: Seq<WindowStatus>)
    requires
        b.len() == a.len() + 1,
        forall|k: int| 0 <= k < a.len() ==> #[trigger] a[k] == b[k],
    ensures
        account_hot(b, b.len() as int) == (account_hot(a, a.len() as int) || hot_pace(b.last())),
{
    if account_hot(a, a.len() as int) {
        let k = choose|k: int| 0 <= k < a.len() && hot_pace(#[trigger] a[k]);
        assert(hot_pace(b[k]));
    }
    if hot_pace(b.last()) {
        assert(hot_pace(b[b.len() - 1]));
    }
    if account_hot(b, b.len() as int) {
        let k = choose|k: int| 0 <= k < b.len() && hot_pace(#[trigger] b[k]);
        if k < a.len() {
            assert(hot_pace(a[k]));
        }
    }
}

/// The window that stands for an account with these windows.
pub open spec fn standing(quotas: Seq<WindowStatus>) -> Option<WindowStatus> {
    match heaviest(quotas, quotas.len() as int) {
        Some(i) => Some(quotas[i]),
        None => None,
    }
}

proof fn heaviest_before(a: Seq<WindowStatus>, b: Seq<WindowStatus>, n: int)
    requires
        0 <= n <= a.len() <= b.len(),
        forall|k: int| 0 <= k < a.len() ==> #[trigger] a[k] == b[k],
    ensures
        heaviest(a, n) == heaviest(b, n),
        heaviest(a, n) matches Some(i) ==> 0 <= i < n,
    decreases n,
{
    if n > 0 {
        heaviest_before(a, b, n - 1);
        if let Some(i) = heaviest(a, n - 1) {
            assert(a[i] == b[i]);
        }
        assert(a[n - 1] == b[n - 1]);
    }
}

proof fn standing_is_core(quotas: Seq<WindowStatus>)
    ensures
        standing(quotas) == standing(core_windows(quotas)),
    decreases quotas.len(),
{
    reveal(Seq::filter);
    if quotas.len() > 0 {
        let start = quotas.drop_last();
        let n = start.len() as int;
        standing_is_core(start);
        heaviest_before(start, quotas, n);
        if is_core(quotas.last()) {
            assert(core_windows(quotas) == core_windows(start).push(quotas.last()));
            let m = core_windows(start).len() as int;
            heaviest_before(core_windows(start), core_windows(quotas), m);
        }
    }
}

/// Whether two accounts differ, in what a status bar reads, only in windows that do not count the use
/// of Codex itself. That there is a window at all is shown too, so both have one or neither does.
pub open spec fn alike(a: AccountStatus, b: AccountStatus) -> bool {
    &&& a.label@ == b.label@
    &&& a.plan@ == b.plan@
    &&& a.status@ == b.status@
    &&& a.available == b.available
    &&& a.selected == b.selected
    &&& a.status_reason.deep_view() == b.status_reason.deep_view()
    &&& a.last_usage_error.deep_view() == b.last_usage_error.deep_view()
    &&& a.cooldown_until == b.cooldown_until
    &&& a.request_count == b.request_count
    &&& a.input_tokens == b.input_tokens
    &&& a.output_tokens == b.output_tokens
    &&& core_windows(a.quotas@) == core_windows(b.quotas@)
    &&& a.quotas@.len() == 0 <==> b.quotas@.len() == 0
}

/// Whether two statuses differ only in windows that do not count the use of Codex itself.
pub open spec fn alike_pools(a: PoolStatus, b: PoolStatus) -> bool {
    &&& a.healthy == b.healthy
    &&& a.degraded == b.degraded
    &&& a.routing_strategy@ == b.routing_strategy@
    &&& a.account_count == b.account_count
    &&& a.available_account_count == b.available_account_count
    &&& a.generated_at == b.generated_at
    &&& a.accounts@.len() == b.accounts@.len()
    &&& forall|i: int|
        0 <= i < a.accounts@.len() ==> alike(#[trigger] a.accounts@[i], b.accounts@[i])
}

proof fn alike_accounts_show_alike(
    a: AccountStatus,
    b: AccountStatus,
    out: Seq<char>,
    now: i128,
    heat: u64,
)
    requires
        alike(a, b),
    ensures
        short_state(a, now) == short_state(b, now),
        with_account(out, a, now) == with_account(out, b, now),
        window_heat(heat, a.quotas@, a.quotas@.len() as int) == window_heat(
            heat,
            b.quotas@,
            b.quotas@.len() as int,
        ),
        account_hot(a.quotas@, a.quotas@.len() as int) == account_hot(
            b.quotas@,
            b.quotas@.len() as int,
        ),
{
    standing_is_core(a.quotas@);
    standing_is_core(b.quotas@);
    assert(standing(a.quotas@) == standing(b.quotas@));
    assert(a.status_reason.deep_view() == b.status_reason.deep_view());
    assert(with_head(out, a, now) == with_head(out, b, now));
    let head = with_head(out, a, now);
    other_windows_do_not_show(head, a.quotas@, now, heat);
    other_windows_do_not_show(head, b.quotas@, now, heat);
}

proof fn alike_parts_show_alike(a: PoolStatus, b: PoolStatus, n: int)
    requires
        alike_pools(a, b),
        0 <= n <= a.accounts@.len(),
    ensures
        accounts_text(a.accounts@, a.generated_at, n) == accounts_text(
            b.accounts@,
            b.generated_at,
            n,
        ),
        tooltip_of(a, n) == tooltip_of(b, n),
        pool_heat(a.accounts@, n) == pool_heat(b.accounts@, n),
        pool_hot(a.accounts@, n) == pool_hot(b.accounts@, n),
    decreases n,
{
    if n > 0 {
        alike_parts_show_alike(a, b, n - 1);
        alike_accounts_show_alike(
            a.accounts@[n - 1],
            b.accounts@[n - 1],
            tooltip_of(a, n - 1),
            a.generated_at,
            pool_heat(a.accounts@, n - 1),
        );
        hot_with_last(a.accounts@, n);
        hot_with_last(b.accounts@, n);
    }
}

proof fn hot_with_last(accounts: Seq<AccountStatus>, n: int)
    requires
        0 < n <= accounts.len(),
    ensures
        pool_hot(accounts, n) == (pool_hot(accounts, n - 1) || account_hot(
            accounts[n - 1].quotas@,
            accounts[n - 1].quotas@.len() as int,
        )),
{
    if pool_hot(accounts, n - 1) {
        let k = choose|k: int|
            0 <= k < n - 1 && account_hot(
                (#[trigger] accounts[k]).quotas@,
                accounts[k].quotas@.len() as int,
            );
        assert(account_hot(accounts[k].quotas@, accounts[k].quotas@.len() as int));
    }
    if account_hot(accounts[n - 1].quotas@, accounts[n - 1].quotas@.len() as int) {
        assert(pool_hot(accounts, n));
    }
    if pool_hot(accounts, n) {
        let k = choose|k: int|
            0 <= k < n && account_hot(
                (#[trigger] accounts[k]).quotas@,
                accounts[k].quotas@.len() as int,
            );
        if k < n - 1 {
            assert(account_hot(accounts[k].quotas@, accounts[k].quotas@.len() as int));
        }
    }
}

/// Windows that do not count the use of Codex itself change nothing that a status bar takes: not the
/// text, the tooltip, the classes, the percentage or the name of the state.
pub proof fn other_windows_change_nothing(a: PoolStatus, b: PoolStatus)
    requires
        alike_pools(a, b),
    ensures
        ({
            let n = a.accounts@.len() as int;
            &&& accounts_text(a.accounts@, a.generated_at, n) == accounts_text(
                b.accounts@,
                b.generated_at,
                n,
            )
            &&& tooltip_of(a, n) == tooltip_of(b, n)
            &&& classes_of(a) == classes_of(b)
            &&& near(pool_heat(a.accounts@, n)) == near(pool_heat(b.accounts@, n))
            &&& alt_of(a) == alt_of(b)
        }),
{
    alike_parts_show_alike(a, b, a.accounts@.len() as int);
}

/// The window that stands for an account is one of Codex, and none of Codex is used more; without one of
/// Codex there is none.
pub proof fn the_fullest_window_stands_for_the_account(quotas: Seq<WindowStatus>, n: int, j: int)
    requires
        0 <= n <= quotas.len(),
        0 <= j < n,
        quotas[j].quota_key@ == "codex"@,
    ensures
        heaviest(quotas, n) matches Some(i) && 0 <= i < n && quotas[i].quota_key@ == "codex"@
            && !heavier(quotas[j], quotas[i]) && total(quotas[j].used_percent) <= total(
            quotas[i].used_percent,
        ),
    decreases n,
{
    heaviest_is_core(quotas, n - 1);
    if j < n - 1 {
        the_fullest_window_stands_for_the_account(quotas, n - 1, j);
    }
}

proof fn heaviest_is_core(quotas: Seq<WindowStatus>, n: int)
    requires
        n <= quotas.len(),
    ensures
        heaviest(quotas, n) matches Some(i) ==> 0 <= i < n && is_core(quotas[i]),
        heaviest(quotas, n) is None ==> forall|k: int|
            0 <= k < n ==> !is_core(#[trigger] quotas[k]),
    decreases n,
{
    if n > 0 {
        heaviest_is_core(quotas, n - 1);
    }
}

/// A risk is shown by its arrow.
pub proof fn risks_have_arrows()
    ensures
        arrow("critical"@) == "↑"@,
        arrow("danger"@) == "↑"@,
        arrow("warning"@) == "↗"@,
        arrow("safe"@) == "→"@,
        arrow("unknown"@) == "?"@,
{
    reveal_strlit("critical");
    reveal_strlit("danger");
    reveal_strlit("warning");
    reveal_strlit("safe");
    reveal_strlit("unknown");
    assert("critical"@.len() == 8 && "danger"@.len() == 6 && "warning"@.len() == 7 && "safe"@.len()
        == 4 && "unknown"@.len() == 7);
    assert("warning"@[0] == 'w' && "unknown"@[0] == 'u');
}

/// The short state of an account, by what it is: its login has failed, it is paused, it has to wait, it
/// is used up, or how much of it is used and at what pace.
pub proof fn short_states_by_account(a: AccountStatus, now: i128, i: int)
    ensures
        ({
            let waits = a.cooldown_until is Some && a.cooldown_until->0 > now;
            let quiet = a.status@ != "auth_failed"@ && a.status@ != "paused"@ && !waits;
            let best = heaviest(a.quotas@, a.quotas@.len() as int);
            &&& a.status@ == "auth_failed"@ ==> short_state(a, now) == "login"@
            &&& a.status@ == "paused"@ ==> short_state(a, now) == "pause"@
            &&& a.status@ == "active"@ && waits ==> short_state(a, now) == "wait"@
            &&& quiet && best == Some(i) && 0x4059_0000_0000_0000 <= a.quotas@[i].used_percent
                <= 0x7ff0_0000_0000_0000 ==> short_state(a, now) == "100%"@
            &&& quiet && best == Some(i) && a.quotas@[i].used_percent < 0x4059_0000_0000_0000
                && a.available ==> short_state(a, now) == a.quotas@[i].used_text@ + "%"@ + arrow(
                a.quotas@[i].pace.risk@,
            )
            &&& quiet && best == Some(i) && a.quotas@[i].used_percent < 0x4059_0000_0000_0000
                && !a.available ==> short_state(a, now) == "!"@
            &&& quiet && best is None && a.available ==> short_state(a, now) == "—"@
            &&& quiet && best is None && !a.available ==> short_state(a, now) == "!"@
        }),
{
    reveal_strlit("auth_failed");
    reveal_strlit("paused");
    reveal_strlit("active");
    assert("auth_failed"@.len() == 11 && "paused"@.len() == 6 && "active"@.len() == 6);
    assert("paused"@[0] == 'p' && "active"@[0] == 'a');
}

/// The long state of an account, by what it is.
pub proof fn long_states_by_account(a: AccountStatus, now: i128)
    ensures
        ({
            let waits = a.cooldown_until is Some && a.cooldown_until->0 > now;
            let quiet = a.status@ != "auth_failed"@ && a.status@ != "paused"@ && !waits;
            &&& a.status@ == "auth_failed"@ ==> long_state(a, now) == "SIGN IN"@
            &&& a.status@ == "paused"@ ==> long_state(a, now) == "PAUSED"@
            &&& a.status@ == "active"@ && waits ==> long_state(a, now) == "COOLDOWN"@
            &&& quiet && !a.available ==> long_state(a, now) == "UNAVAILABLE"@
            &&& quiet && a.available && a.quotas@.len() == 0 ==> long_state(a, now) == "NO DATA"@
            &&& quiet && a.available && a.quotas@.len() > 0 && a.last_usage_error is Some
                ==> long_state(a, now) == "STALE"@
            &&& quiet && a.available && a.quotas@.len() > 0 && a.last_usage_error is None
                ==> long_state(a, now) == "READY"@
        }),
{
    reveal_strlit("auth_failed");
    reveal_strlit("paused");
    reveal_strlit("active");
    assert("auth_failed"@.len() == 11 && "paused"@.len() == 6 && "active"@.len() == 6);
    assert("paused"@[0] == 'p' && "active"@[0] == 'a');
}

/// When a window is used up at its pace, by its fields: it survives where its reset comes first.
pub proof fn forecasts_by_window(w: WindowStatus, now: i128)
    ensures
        w.reset_at is Some && w.reset_at->0 <= now ==> forecast(w, now) == "ETA stale"@,
        (w.reset_at is None || w.reset_at->0 > now) && 0x4059_0000_0000_0000 <= w.used_percent
            <= 0x7ff0_0000_0000_0000 ==> forecast(w, now) == "empty now"@,
        (w.reset_at is None || w.reset_at->0 > now) && w.used_percent < 0x4059_0000_0000_0000
            && w.pace.projected_exhaustion_at is None ==> forecast(w, now) == "empty ETA —"@,
        w.reset_at is Some && w.reset_at->0 > now && w.used_percent < 0x4059_0000_0000_0000
            && w.pace.projected_exhaustion_at is Some && w.pace.projected_exhaustion_at->0
            >= w.reset_at->0 ==> forecast(w, now) == "survives to reset"@,
        (w.reset_at is None || w.reset_at->0 > now) && w.used_percent < 0x4059_0000_0000_0000
            && w.pace.projected_exhaustion_at is Some && (w.reset_at is Some
            ==> w.pace.projected_exhaustion_at->0 < w.reset_at->0)
            && w.pace.projected_exhaustion_at->0 - now >= 1_000_000_000 ==> forecast(w, now)
            == "empty in ~"@ + duration_text(
            (w.pace.projected_exhaustion_at->0 - now) / 1_000_000_000,
        ),
{
}

/// When a window starts again: in as long as is left, or now where that is less than a second.
pub proof fn resets_by_time(at: i128, now: i128)
    ensures
        eta(None, now) == "unknown"@,
        at - now < 1_000_000_000 ==> eta(Some(at), now) == "due; refresh pending"@,
        at - now >= 1_000_000_000 ==> eta(Some(at), now) == "in "@ + duration_text(
            (at - now) / 1_000_000_000,
        ),
{
}

proof fn windows_heat(heat: u64, quotas: Seq<WindowStatus>, n: int, j: int)
    requires
        heat <= 0x7ff0_0000_0000_0000,
        n <= quotas.len(),
    ensures
        window_heat(heat, quotas, n) <= 0x7ff0_0000_0000_0000,
        window_heat(heat, quotas, n) >= heat,
        0 <= j < n && is_core(quotas[j]) && quotas[j].used_percent <= 0x7ff0_0000_0000_0000
            ==> window_heat(heat, quotas, n) >= quotas[j].used_percent,
    decreases n,
{
    if n > 0 {
        windows_heat(heat, quotas, n - 1, j);
        let before = window_heat(heat, quotas, n - 1);
        let used = quotas[n - 1].used_percent;
        order_goes_by_bits(before, used);
        order_goes_by_bits(used, before);
    }
}

/// The pool is as hot as the fullest window of Codex of any of its accounts.
pub proof fn pools_are_as_hot_as_their_fullest(
    accounts: Seq<AccountStatus>,
    n: int,
    i: int,
    j: int,
)
    requires
        0 <= i < n <= accounts.len(),
        0 <= j < accounts[i].quotas@.len(),
        accounts[i].quotas@[j].quota_key@ == "codex"@,
        accounts[i].quotas@[j].used_percent <= 0x7ff0_0000_0000_0000,
    ensures
        pool_heat(accounts, n) >= accounts[i].quotas@[j].used_percent,
    decreases n,
{
    heat_is_a_number(accounts, n - 1);
    let last = accounts[n - 1].quotas@;
    if i < n - 1 {
        pools_are_as_hot_as_their_fullest(accounts, n - 1, i, j);
    }
    windows_heat(pool_heat(accounts, n - 1), last, last.len() as int, j);
}

proof fn heat_is_a_number(accounts: Seq<AccountStatus>, n: int)
    requires
        n <= accounts.len(),
    ensures
        pool_heat(accounts, n) <= 0x7ff0_0000_0000_0000,
    decreases n,
{
    if n > 0 {
        heat_is_a_number(accounts, n - 1);
        let last = accounts[n - 1].quotas@;
        windows_heat(pool_heat(accounts, n - 1), last, last.len() as int, 0);
    }
}

/// The classes of the pool: it is degraded where it is not healthy or says so, its pace is hot where that
/// of one window of Codex is, and it is low where its fullest window is at ninety percent or above.
pub proof fn classes_by_pool(s: PoolStatus)
    ensures
        classes_of(s)[0] == "codex-pool"@,
        !s.healthy || s.degraded ==> classes_of(s)[1] == "degraded"@,
        s.healthy && !s.degraded ==> classes_of(s)[1] == "healthy"@,
        pool_hot(s.accounts@, s.accounts@.len() as int) ==> classes_of(s).contains("pace-hot"@),
        pool_heat(s.accounts@, s.accounts@.len() as int) >= 0x4056_8000_0000_0000
            ==> classes_of(s).contains("pool-low"@),
        !pool_hot(s.accounts@, s.accounts@.len() as int) && pool_heat(
            s.accounts@,
            s.accounts@.len() as int,
        ) < 0x4056_8000_0000_0000 ==> classes_of(s).len() == 2,
{
    let n = s.accounts@.len() as int;
    heat_is_a_number(s.accounts@, n);
    bits_of_limits();
    let c = classes_of(s);
    if pool_hot(s.accounts@, n) {
        assert(c[2] == "pace-hot"@);
    }
    if pool_heat(s.accounts@, n) >= 0x4056_8000_0000_0000 {
        assert(c[c.len() - 1] == "pool-low"@);
    }
}

/// The pace of the pool is hot exactly where a window of Codex of one account is in danger or critical.
pub proof fn hot_paces_are_dangerous(accounts: Seq<AccountStatus>, n: int, i: int, j: int)
    requires
        0 <= i < n <= accounts.len(),
        0 <= j < accounts[i].quotas@.len(),
        accounts[i].quotas@[j].quota_key@ == "codex"@,
        accounts[i].quotas@[j].pace.risk@ == "danger"@ || accounts[i].quotas@[j].pace.risk@
            == "critical"@,
    ensures
        pool_hot(accounts, n),
{
    assert(hot_pace(accounts[i].quotas@[j]));
    assert(account_hot(accounts[i].quotas@, accounts[i].quotas@.len() as int));
}

/// The pool in one word.
pub proof fn pools_in_one_word(s: PoolStatus)
    ensures
        !s.healthy ==> alt_of(s) == "unavailable"@,
        s.healthy && s.degraded ==> alt_of(s) == "degraded"@,
        s.healthy && !s.degraded ==> alt_of(s) == "healthy"@,
{
}

/// The activity of an account names its requests, its input and its output, in this order.
pub proof fn activity_in_order(out: Seq<char>, a: AccountStatus)
    ensures
        a.last_usage_error is None ==> with_activity(out, a) == out + "\n└ Activity  "@ + compact(
            a.request_count as int,
        ) + " requests  •  "@ + compact(a.input_tokens as int) + " input / "@ + compact(
            a.output_tokens as int,
        ) + " output tokens"@,
{
}

/// A window names what is used and what is free, each in its own place.
pub proof fn windows_name_use_and_rest(out: Seq<char>, w: WindowStatus, now: i128)
    ensures
        with_window(out, w, now) == out + "\n├ "@ + w.quota_name@ + "  •  "@ + w.window@ + "\n│ "@
            + bar(cells(w.used_percent, 10), 10) + "  "@ + three_columns(w.used_text@)
            + "% used  •  "@ + three_columns(w.remaining_text@) + "% free\n│ at pace  "@ + forecast(
            w,
            now,
        ) + "  •  "@ + upper(w.pace.risk@) + "\n│ reset "@ + eta(w.reset_at, now),
        w.used_text@.len() <= 3 ==> three_columns(w.used_text@).len() == 3,
{
    reveal_strlit("   ");
    reveal_strlit("  ");
    reveal_strlit(" ");
    assert("   "@.len() == 3 && "  "@.len() == 2 && " "@.len() == 1);
}

} // verus!
