//! Which account serves a request: the one that the session is bound to while it can be used, else
//! the one that is furthest below the pace at which its quota lasts.
use vstd::prelude::*;
use crate::days::{
    day, day_of, days_in, days_tell_how_far_ahead, days_tell_how_far_ahead_of_both,
    days_tell_how_long_ago, is_after, is_after_both, is_not_before, later_day, not_before,
};
use crate::double::{HUNDRED, is_nan, limit_percent, at_least, order, percent, precedes};
use crate::error::{AppError, AppErrorKind};
use crate::text::{before, before_is_strict, before_is_transitive, comes_before, same};
use crate::time::{is_since, millis_before};

verus! {

/// Telemetry older than this is not trusted, whatever the refresh interval.
pub const MIN_ROUTING_USAGE_FRESHNESS_SECONDS: u64 = 300;

/// Telemetry is trusted for this many refresh intervals.
pub const ROUTING_USAGE_FRESHNESS_INTERVALS: u64 = 3;

/// How far clocks may disagree.
pub const ROUTING_CLOCK_SKEW_SECONDS: i64 = 300;

/// A stored point in time, in milliseconds since 1970.
#[derive(Debug, Clone, Copy, PartialEq, Eq, Structural)]
pub enum Moment {
    Missing,
    Unreadable,
    At(i64),
}

/// A quota window that limits routing.
#[derive(Debug, Clone, Copy)]
pub struct CodexWindow {
    /// How much is used: a percentage, by the bits of its double.
    pub used_percent: Option<u64>,
    pub window_seconds: Option<i64>,
    pub reset_at: Moment,
    pub fetched_at: Option<i64>,
    /// By how much use is ahead of the elapsed share of the window: the bits of a double.
    pub ahead_of_pace: u64,
}

/// An account as routing sees it.
#[derive(Debug)]
pub struct RoutingAccount {
    pub id: u128,
    pub row: i64,
    pub active: bool,
    pub cooldown_until: Moment,
    pub inflight: i64,
    pub last_selected_at: Option<String>,
    pub created_at: String,
    pub windows: Vec<CodexWindow>,
}

/// A window that is used up and has not started anew, as far as is known.
pub open spec fn exhausted(w: CodexWindow, now: i64) -> bool {
    &&& w.used_percent matches Some(used) && !is_nan(used) && order(used) >= order(HUNDRED)
    &&& match w.reset_at {
        Moment::At(t) => t > now,
        _ => true,
    }
}

pub open spec fn cooled_down(until: Moment, now: i64) -> bool {
    match until {
        Moment::Missing => true,
        Moment::Unreadable => false,
        Moment::At(t) => t <= now,
    }
}

/// An account that can be used now: active, not cooling down, and with no exhausted window.
pub open spec fn eligible(a: RoutingAccount, now: i64) -> bool {
    &&& a.active
    &&& cooled_down(a.cooldown_until, now)
    &&& forall|i: int| 0 <= i < a.windows@.len() ==> !exhausted(#[trigger] a.windows@[i], now)
}

pub fn is_exhausted(w: &CodexWindow, now: i64) -> (r: bool)
    ensures
        r == exhausted(*w, now),
{
    let used_up = match w.used_percent {
        Some(used) => at_least(used, HUNDRED),
        None => false,
    };
    let pending = match w.reset_at {
        Moment::At(t) => t > now,
        _ => true,
    };
    used_up && pending
}

pub fn account_is_eligible(a: &RoutingAccount, now: i64) -> (r: bool)
    ensures
        r == eligible(*a, now),
{
    let cooled = match a.cooldown_until {
        Moment::Missing => true,
        Moment::Unreadable => false,
        Moment::At(t) => t <= now,
    };
    if !a.active || !cooled {
        return false;
    }
    let mut i: usize = 0;
    while i < a.windows.len()
        invariant
            i <= a.windows.len(),
            forall|j: int| 0 <= j < i ==> !exhausted(#[trigger] a.windows@[j], now),
        decreases a.windows.len() - i,
    {
        if is_exhausted(&a.windows[i], now) {
            return false;
        }
        i += 1;
    }
    true
}

/// For how many seconds use is trusted: three times as long as the daemon waits between refreshes, and
/// five minutes at least.
pub open spec fn trusted_for(interval: int) -> int {
    if interval * 3 < 300 {
        300
    } else if interval * 3 > i64::MAX {
        i64::MAX as int
    } else {
        interval * 3
    }
}

/// For how many seconds telemetry is trusted.
pub fn freshness_seconds(refresh_interval_seconds: u64) -> (r: i64)
    ensures
        r == trusted_for(refresh_interval_seconds as int),
        ({
            let three = refresh_interval_seconds * 3;
            r == if three < 300 {
                300
            } else if three > i64::MAX {
                i64::MAX as int
            } else {
                three
            }
        }),
{
    if refresh_interval_seconds < 100 {
        300
    } else if refresh_interval_seconds > 3074457345618258602 {
        i64::MAX
    } else {
        (refresh_interval_seconds * ROUTING_USAGE_FRESHNESS_INTERVALS) as i64
    }
}

/// What a window tells of the pace of an account.
#[derive(Debug, Clone, Copy, PartialEq, Eq, Structural)]
pub enum ScoreKind {
    /// Its use can be held against the time that has passed.
    Timed,
    /// Only its use is known.
    Raw,
    /// It has just started anew.
    Reset,
    /// Nothing that can be trusted.
    Unknown,
}

/// What a window tells, by times that are compared in days: its reset has to be near enough, and it has
/// to have been read within the seconds for which telemetry is trusted.
pub open spec fn kind_of_window(w: CodexWindow, now: i64, fresh: i64) -> ScoreKind {
    let today = day_of(now as int);
    let trusted = days_in(fresh as nat);
    let skew = days_in(ROUTING_CLOCK_SKEW_SECONDS as nat);
    if w.used_percent is None || w.reset_at == Moment::Unreadable || (w.window_seconds is Some
        && w.window_seconds->0 <= 0) {
        ScoreKind::Unknown
    } else if w.reset_at is At && w.window_seconds is Some && day_of(w.reset_at->At_0 as int)
        > later_day(later_day(today, days_in(w.window_seconds->0 as nat)), skew) {
        ScoreKind::Unknown
    } else if w.reset_at is At && w.reset_at->At_0 <= now {
        if not_before(day_of(w.reset_at->At_0 as int), today, trusted) {
            ScoreKind::Reset
        } else {
            ScoreKind::Unknown
        }
    } else if w.fetched_at is None || !not_before(day_of(w.fetched_at->0 as int), today, trusted)
        || day_of(w.fetched_at->0 as int) > later_day(today, skew) {
        ScoreKind::Unknown
    } else if w.reset_at is Missing || w.window_seconds is None {
        ScoreKind::Raw
    } else {
        ScoreKind::Timed
    }
}

pub fn classify_window(w: &CodexWindow, now: i64, fresh: i64) -> (r: ScoreKind)
    requires
        fresh >= 0,
    ensures
        r == kind_of_window(*w, now, fresh),
{
    let today = day(now);
    if w.used_percent.is_none() {
        return ScoreKind::Unknown;
    }
    if let Some(seconds) = w.window_seconds {
        if seconds <= 0 {
            return ScoreKind::Unknown;
        }
    }
    match w.reset_at {
        Moment::Unreadable => {
            return ScoreKind::Unknown;
        },
        Moment::At(t) => {
            if let Some(seconds) = w.window_seconds {
                if is_after_both(day(t), today, seconds, ROUTING_CLOCK_SKEW_SECONDS) {
                    return ScoreKind::Unknown;
                }
            }
            if t <= now {
                return if is_not_before(day(t), today, fresh) {
                    ScoreKind::Reset
                } else {
                    ScoreKind::Unknown
                };
            }
        },
        Moment::Missing => {},
    }
    match w.fetched_at {
        None => ScoreKind::Unknown,
        Some(t) => if !is_not_before(day(t), today, fresh) || is_after(
            day(t),
            today,
            ROUTING_CLOCK_SKEW_SECONDS,
        ) {
            ScoreKind::Unknown
        } else if matches!(w.reset_at, Moment::Missing) || w.window_seconds.is_none() {
            ScoreKind::Raw
        } else {
            ScoreKind::Timed
        },
    }
}

/// How hard a window presses an account: the bits of a double.
pub open spec fn window_pressure(w: CodexWindow, now: i64, fresh: i64) -> u64 {
    match kind_of_window(w, now, fresh) {
        ScoreKind::Timed => w.ahead_of_pace,
        ScoreKind::Raw => percent(w.used_percent->0),
        ScoreKind::Reset => 0,
        ScoreKind::Unknown => HUNDRED,
    }
}

/// How little is known of a window: nothing (2), only that it has started anew (1), or its use (0).
pub open spec fn window_doubt(w: CodexWindow, now: i64, fresh: i64) -> u8 {
    match kind_of_window(w, now, fresh) {
        ScoreKind::Unknown => 2,
        ScoreKind::Reset => 1,
        _ => 0,
    }
}

/// How much of a window counts as used: the bits of a double.
pub open spec fn window_used(w: CodexWindow, now: i64, fresh: i64) -> u64 {
    match kind_of_window(w, now, fresh) {
        ScoreKind::Unknown => HUNDRED,
        ScoreKind::Reset => 0,
        _ => percent(w.used_percent->0),
    }
}

/// What the windows of an account tell of it: the worst of each.
#[derive(Debug, Clone, Copy, PartialEq, Eq, Structural)]
pub struct Telemetry {
    pub pressure: u64,
    pub doubt: u8,
    pub used: u64,
}

pub open spec fn worse(a: u64, b: u64) -> u64 {
    if order(b) > order(a) {
        b
    } else {
        a
    }
}

pub open spec fn telemetry_of(windows: Seq<CodexWindow>, now: i64, fresh: i64) -> Telemetry
    decreases windows.len(),
{
    if windows.len() == 0 {
        Telemetry { pressure: HUNDRED, doubt: 2, used: HUNDRED }
    } else {
        let w = windows.last();
        let one = Telemetry {
            pressure: window_pressure(w, now, fresh),
            doubt: window_doubt(w, now, fresh),
            used: window_used(w, now, fresh),
        };
        if windows.len() == 1 {
            one
        } else {
            let rest = telemetry_of(windows.drop_last(), now, fresh);
            Telemetry {
                pressure: worse(rest.pressure, one.pressure),
                doubt: if one.doubt > rest.doubt {
                    one.doubt
                } else {
                    rest.doubt
                },
                used: worse(rest.used, one.used),
            }
        }
    }
}

fn window_telemetry(w: &CodexWindow, now: i64, fresh: i64) -> (r: Telemetry)
    requires
        fresh >= 0,
    ensures
        r == (Telemetry {
            pressure: window_pressure(*w, now, fresh),
            doubt: window_doubt(*w, now, fresh),
            used: window_used(*w, now, fresh),
        }),
{
    let used = match w.used_percent {
        Some(bits) => limit_percent(bits),
        None => HUNDRED,
    };
    match classify_window(w, now, fresh) {
        ScoreKind::Timed => Telemetry { pressure: w.ahead_of_pace, doubt: 0, used },
        ScoreKind::Raw => Telemetry { pressure: used, doubt: 0, used },
        ScoreKind::Reset => Telemetry { pressure: 0, doubt: 1, used: 0 },
        ScoreKind::Unknown => Telemetry { pressure: HUNDRED, doubt: 2, used: HUNDRED },
    }
}

/// What the windows of an account tell of it.
pub fn account_telemetry(windows: &Vec<CodexWindow>, now: i64, fresh: i64) -> (r: Telemetry)
    requires
        fresh >= 0,
    ensures
        r == telemetry_of(windows@, now, fresh),
{
    let mut r = Telemetry { pressure: HUNDRED, doubt: 2, used: HUNDRED };
    let mut i: usize = 0;
    assert(windows@.take(0) =~= Seq::empty());
    while i < windows.len()
        invariant
            i <= windows.len(),
            fresh >= 0,
            r == telemetry_of(windows@.take(i as int), now, fresh),
        decreases windows.len() - i,
    {
        let one = window_telemetry(&windows[i], now, fresh);
        assert(windows@.take(i as int + 1).drop_last() =~= windows@.take(i as int));
        if i == 0 {
            r = one;
        } else {
            if precedes(r.pressure, one.pressure) {
                r.pressure = one.pressure;
            }
            if one.doubt > r.doubt {
                r.doubt = one.doubt;
            }
            if precedes(r.used, one.used) {
                r.used = one.used;
            }
        }
        i += 1;
    }
    assert(windows@.take(windows@.len() as int) =~= windows@);
    r
}

/// An account with its score: pressure plus a penalty for requests in flight, rounded to six
/// decimals, by the bits of its double.
#[derive(Debug)]
pub struct Candidate {
    pub account: RoutingAccount,
    pub score: u64,
    pub doubt: u8,
    pub used: u64,
}

/// The place of a candidate in the order of preference.
pub struct Rank {
    pub score: int,
    pub doubt: int,
    pub used: int,
    pub inflight: int,
    pub selected: Seq<char>,
    pub created: Seq<char>,
    pub tie: int,
}

pub open spec fn last_selected(a: RoutingAccount) -> Seq<char> {
    match a.last_selected_at {
        Some(text) => text@,
        None => "1970-01-01T00:00:00.000Z"@,
    }
}

/// The rank of a candidate: by score, doubt, use and load, then the one selected longest ago, then
/// the oldest. A plain rotation looks at the last two only.
pub open spec fn rank(c: Candidate, weighted: bool) -> Rank {
    if weighted {
        Rank {
            score: order(c.score),
            doubt: c.doubt as int,
            used: order(c.used),
            inflight: if c.account.inflight < 0 {
                0
            } else {
                c.account.inflight as int
            },
            selected: last_selected(c.account),
            created: c.account.created_at@,
            tie: c.account.id as int,
        }
    } else {
        Rank {
            score: 0,
            doubt: 0,
            used: 0,
            inflight: 0,
            selected: last_selected(c.account),
            created: c.account.created_at@,
            tie: c.account.row as int,
        }
    }
}

/// Whether one rank is preferred to another.
pub open spec fn preferred(a: Rank, b: Rank) -> bool {
    if a.score != b.score {
        a.score < b.score
    } else if a.doubt != b.doubt {
        a.doubt < b.doubt
    } else if a.used != b.used {
        a.used < b.used
    } else if a.inflight != b.inflight {
        a.inflight < b.inflight
    } else if a.selected != b.selected {
        before(a.selected, b.selected)
    } else if a.created != b.created {
        before(a.created, b.created)
    } else {
        a.tie < b.tie
    }
}

proof fn preferred_is_order(a: Rank, b: Rank, c: Rank)
    ensures
        !(preferred(a, b) && preferred(b, a)),
        preferred(a, b) && preferred(b, c) ==> preferred(a, c),
        preferred(a, b) && !preferred(c, b) ==> preferred(a, c),
        !preferred(b, a) && preferred(b, c) ==> preferred(a, c),
{
    before_is_strict(a.selected, b.selected);
    before_is_strict(b.selected, c.selected);
    before_is_strict(a.selected, c.selected);
    before_is_strict(a.created, b.created);
    before_is_strict(b.created, c.created);
    before_is_strict(a.created, c.created);
    if before(a.selected, b.selected) && before(b.selected, c.selected) {
        before_is_transitive(a.selected, b.selected, c.selected);
    }
    if before(a.created, b.created) && before(b.created, c.created) {
        before_is_transitive(a.created, b.created, c.created);
    }
    if before(c.selected, a.selected) && before(a.selected, b.selected) {
        before_is_transitive(c.selected, a.selected, b.selected);
    }
    if before(b.selected, c.selected) && before(c.selected, a.selected) {
        before_is_transitive(b.selected, c.selected, a.selected);
    }
    if before(c.created, a.created) && before(a.created, b.created) {
        before_is_transitive(c.created, a.created, b.created);
    }
    if before(b.created, c.created) && before(c.created, a.created) {
        before_is_transitive(b.created, c.created, a.created);
    }
}

fn is_preferred(a: &Candidate, b: &Candidate, weighted: bool) -> (r: bool)
    ensures
        r == preferred(rank(*a, weighted), rank(*b, weighted)),
{
    let first_a = selected_text(&a.account);
    let first_b = selected_text(&b.account);
    if weighted {
        if precedes(a.score, b.score) {
            return true;
        }
        if precedes(b.score, a.score) {
            return false;
        }
        if a.doubt != b.doubt {
            return a.doubt < b.doubt;
        }
        if precedes(a.used, b.used) {
            return true;
        }
        if precedes(b.used, a.used) {
            return false;
        }
        let load_a: i64 = if a.account.inflight < 0 { 0 } else { a.account.inflight };
        let load_b: i64 = if b.account.inflight < 0 { 0 } else { b.account.inflight };
        if load_a != load_b {
            return load_a < load_b;
        }
    }
    if !same(&first_a, &first_b) {
        return comes_before(&first_a, &first_b);
    }
    if !same(&a.account.created_at, &b.account.created_at) {
        return comes_before(&a.account.created_at, &b.account.created_at);
    }
    if weighted {
        a.account.id < b.account.id
    } else {
        a.account.row < b.account.row
    }
}

fn selected_text(a: &RoutingAccount) -> (r: String)
    ensures
        r@ == last_selected(*a),
{
    match &a.last_selected_at {
        Some(text) => text.clone(),
        None => "1970-01-01T00:00:00.000Z".to_owned(),
    }
}

/// Whether a candidate may be chosen: it can be used now and is not among those tried before.
pub open spec fn open_to(c: Candidate, excluded: Seq<u128>, now: i64) -> bool {
    eligible(c.account, now) && !excluded.contains(c.account.id)
}

/// Whether `i` is the choice: no candidate is preferred to it, and none before it is its equal.
pub open spec fn chosen(
    candidates: Seq<Candidate>,
    excluded: Seq<u128>,
    weighted: bool,
    now: i64,
    i: int,
) -> bool {
    &&& 0 <= i < candidates.len()
    &&& open_to(candidates[i], excluded, now)
    &&& forall|j: int|
        0 <= j < candidates.len() && open_to(#[trigger] candidates[j], excluded, now)
            ==> !preferred(rank(candidates[j], weighted), rank(candidates[i], weighted))
    &&& forall|j: int|
        0 <= j < i && open_to(#[trigger] candidates[j], excluded, now) ==> preferred(
            rank(candidates[i], weighted),
            rank(candidates[j], weighted),
        )
}

fn holds_id(list: &Vec<u128>, id: u128) -> (r: bool)
    ensures
        r == list@.contains(id),
{
    let mut i: usize = 0;
    while i < list.len()
        invariant
            i <= list.len(),
            forall|j: int| 0 <= j < i ==> list@[j] != id,
        decreases list.len() - i,
    {
        if list[i] == id {
            assert(list@[i as int] == id);
            return true;
        }
        i += 1;
    }
    false
}

/// The most preferred account that can be used now and was not tried before.
pub fn preview_smart_account(
    candidates: &Vec<Candidate>,
    excluded: &Vec<u128>,
    weighted: bool,
    now: i64,
) -> (r: Option<usize>)
    ensures
        match r {
            Some(i) => chosen(candidates@, excluded@, weighted, now, i as int),
            None => forall|j: int|
                0 <= j < candidates.len() ==> !open_to(#[trigger] candidates@[j], excluded@, now),
        },
{
    let mut best: Option<usize> = None;
    let mut i: usize = 0;
    while i < candidates.len()
        invariant
            i <= candidates.len(),
            best is None ==> forall|j: int|
                0 <= j < i ==> !open_to(#[trigger] candidates@[j], excluded@, now),
            best matches Some(b) ==> {
                &&& b < i
                &&& open_to(candidates@[b as int], excluded@, now)
                &&& forall|j: int|
                    0 <= j < i && open_to(#[trigger] candidates@[j], excluded@, now)
                        ==> !preferred(
                        rank(candidates@[j], weighted),
                        rank(candidates@[b as int], weighted),
                    )
                &&& forall|j: int|
                    0 <= j < b && open_to(#[trigger] candidates@[j], excluded@, now) ==> preferred(
                        rank(candidates@[b as int], weighted),
                        rank(candidates@[j], weighted),
                    )
            },
        decreases candidates.len() - i,
    {
        let c = &candidates[i];
        if account_is_eligible(&c.account, now) && !holds_id(excluded, c.account.id) {
            assert(open_to(candidates@[i as int], excluded@, now));
            match best {
                None => {
                    proof {
                        preferred_is_order(
                            rank(*c, weighted),
                            rank(*c, weighted),
                            rank(*c, weighted),
                        );
                    }
                    best = Some(i);
                },
                Some(b) => {
                    if is_preferred(c, &candidates[b], weighted) {
                        proof {
                            let rc = rank(*c, weighted);
                            let rb = rank(candidates@[b as int], weighted);
                            assert forall|j: int|
                                0 <= j < i && open_to(
                                    #[trigger] candidates@[j],
                                    excluded@,
                                    now,
                                ) implies preferred(rc, rank(candidates@[j], weighted)) by {
                                preferred_is_order(rc, rb, rank(candidates@[j], weighted));
                            }
                            assert forall|j: int|
                                0 <= j <= i && open_to(
                                    #[trigger] candidates@[j],
                                    excluded@,
                                    now,
                                ) implies !preferred(rank(candidates@[j], weighted), rc) by {
                                preferred_is_order(rc, rank(candidates@[j], weighted), rc);
                            }
                        }
                        best = Some(i);
                    }
                },
            }
        } else {
            assert(!open_to(candidates@[i as int], excluded@, now));
        }
        i += 1;
    }
    best
}

/// Why an account was selected.
#[derive(Debug, Clone, Copy, PartialEq, Eq, Structural)]
pub enum SelectionReason {
    Sticky,
    Failover,
    UsageWeighted,
    RoundRobin,
}

impl SelectionReason {
    pub open spec fn text(self) -> Seq<char> {
        match self {
            SelectionReason::Sticky => "sticky"@,
            SelectionReason::Failover => "failover"@,
            SelectionReason::UsageWeighted => "usage_weighted"@,
            SelectionReason::RoundRobin => "round_robin"@,
        }
    }

    pub fn as_str(self) -> (r: &'static str)
        ensures
            r@ == self.text(),
    {
        match self {
            SelectionReason::Sticky => "sticky",
            SelectionReason::Failover => "failover",
            SelectionReason::UsageWeighted => "usage_weighted",
            SelectionReason::RoundRobin => "round_robin",
        }
    }
}

/// The account that a session is bound to, and when the binding was last used.
#[derive(Debug, Clone, Copy)]
pub struct Pin {
    pub account_id: u128,
    pub last_used_at: Moment,
}

/// Whether a binding still holds.
pub open spec fn recent(pin: Pin, ttl_seconds: i64, now: i64) -> bool {
    &&& pin.last_used_at is At
    &&& millis_before(now as int, ttl_seconds as int) matches Some(start)
        && pin.last_used_at->At_0 >= start
}

/// Whether the candidate at `i` is the bound account, and can be used.
pub open spec fn pinned_at(
    candidates: Seq<Candidate>,
    pin: Option<Pin>,
    excluded: Seq<u128>,
    ttl_seconds: i64,
    now: i64,
    i: int,
) -> bool {
    &&& pin is Some
    &&& recent(pin->0, ttl_seconds, now)
    &&& 0 <= i < candidates.len()
    &&& candidates[i].account.id == pin->0.account_id
    &&& open_to(candidates[i], excluded, now)
}

/// Why the choice that is not a session's own account was made.
pub open spec fn choice_reason(excluded: Seq<u128>, weighted: bool) -> SelectionReason {
    if excluded.len() > 0 {
        SelectionReason::Failover
    } else if weighted {
        SelectionReason::UsageWeighted
    } else {
        SelectionReason::RoundRobin
    }
}

/// Whether a strategy weighs use: every one does that is not the rotation.
pub open spec fn is_weighted(strategy: Seq<char>) -> bool {
    strategy != "round_robin"@
}

/// Whether a routing strategy weighs usage: all but plain rotation do.
pub fn weighs_usage(strategy: &str) -> (r: bool)
    ensures
        r == is_weighted(strategy@),
        r == (strategy@ != "round_robin"@),
{
    !same(strategy, "round_robin")
}

/// Whether an account is the one that a request goes to, for the given reason.
pub open spec fn is_selected(
    candidates: Seq<Candidate>,
    pin: Option<Pin>,
    excluded: Seq<u128>,
    weighted: bool,
    ttl_seconds: i64,
    now: i64,
    i: int,
    reason: SelectionReason,
) -> bool {
    if exists|k: int| pinned_at(candidates, pin, excluded, ttl_seconds, now, k) {
        &&& pinned_at(candidates, pin, excluded, ttl_seconds, now, i)
        &&& reason == if excluded.len() > 0 {
            SelectionReason::Failover
        } else {
            SelectionReason::Sticky
        }
    } else {
        &&& chosen(candidates, excluded, weighted, now, i)
        &&& reason == choice_reason(excluded, weighted)
    }
}

/// Selects the account for a request: the one that its session is bound to while the binding is
/// recent and the account can be used, else the most preferred one. Accounts that were tried before
/// are left out.
pub fn select_account_for_request(
    candidates: &Vec<Candidate>,
    pin: Option<Pin>,
    excluded: &Vec<u128>,
    weighted: bool,
    sticky_ttl_seconds: i64,
    now: i64,
) -> (r: Result<(usize, SelectionReason), AppError>)
    ensures
        r matches Ok((i, reason)) ==> is_selected(
            candidates@,
            pin,
            excluded@,
            weighted,
            sticky_ttl_seconds,
            now,
            i as int,
            reason,
        ),
        r is Err ==> forall|j: int|
            0 <= j < candidates.len() ==> !eligible((#[trigger] candidates@[j]).account, now)
                || excluded@.contains(candidates@[j].account.id),
        match r {
            Ok((i, reason)) => {
                &&& i < candidates.len()
                &&& open_to(candidates@[i as int], excluded@, now)
                &&& if exists|k: int|
                    pinned_at(candidates@, pin, excluded@, sticky_ttl_seconds, now, k) {
                    &&& pinned_at(candidates@, pin, excluded@, sticky_ttl_seconds, now, i as int)
                    &&& reason == if excluded@.len() > 0 {
                        SelectionReason::Failover
                    } else {
                        SelectionReason::Sticky
                    }
                } else {
                    &&& chosen(candidates@, excluded@, weighted, now, i as int)
                    &&& reason == choice_reason(excluded@, weighted)
                }
            },
            Err(e) => {
                &&& e@ == (
                    AppErrorKind::Unavailable,
                    "no eligible accounts are available; retry after the current cooldown"@,
                )
                &&& forall|j: int|
                    0 <= j < candidates.len() ==> !open_to(
                        #[trigger] candidates@[j],
                        excluded@,
                        now,
                    )
            },
        },
{
    if let Some(p) = pin {
        let fresh = match p.last_used_at {
            Moment::At(t) => is_since(t, now, sticky_ttl_seconds),
            _ => false,
        };
        assert(fresh == recent(p, sticky_ttl_seconds, now));
        if fresh && !holds_id(excluded, p.account_id) {
            let mut i: usize = 0;
            while i < candidates.len()
                invariant
                    i <= candidates.len(),
                    pin == Some(p),
                    recent(p, sticky_ttl_seconds, now),
                    !excluded@.contains(p.account_id),
                    forall|k: int|
                        0 <= k < i ==> !#[trigger] pinned_at(
                            candidates@,
                            pin,
                            excluded@,
                            sticky_ttl_seconds,
                            now,
                            k,
                        ),
                decreases candidates.len() - i,
            {
                if candidates[i].account.id == p.account_id && account_is_eligible(
                    &candidates[i].account,
                    now,
                ) {
                    let reason = if excluded.len() > 0 {
                        SelectionReason::Failover
                    } else {
                        SelectionReason::Sticky
                    };
                    assert(pinned_at(
                        candidates@,
                        pin,
                        excluded@,
                        sticky_ttl_seconds,
                        now,
                        i as int,
                    ));
                    return Ok((i, reason));
                }
                assert(!pinned_at(
                    candidates@,
                    pin,
                    excluded@,
                    sticky_ttl_seconds,
                    now,
                    i as int,
                ));
                i += 1;
            }
        }
    }
    match preview_smart_account(candidates, excluded, weighted, now) {
        Some(i) => {
            let reason = if excluded.len() > 0 {
                SelectionReason::Failover
            } else if weighted {
                SelectionReason::UsageWeighted
            } else {
                SelectionReason::RoundRobin
            };
            Ok((i, reason))
        },
        None => Err(
            AppError::Unavailable(
                "no eligible accounts are available; retry after the current cooldown".to_owned(),
            ),
        ),
    }
}

/// An account that is not active, cools down, or has used up a window is never chosen, nor is one
/// that was tried before.
pub proof fn unusable_accounts_are_never_chosen(
    candidates: Seq<Candidate>,
    excluded: Seq<u128>,
    weighted: bool,
    now: i64,
    i: int,
)
    requires
        chosen(candidates, excluded, weighted, now, i),
    ensures
        candidates[i].account.active,
        cooled_down(candidates[i].account.cooldown_until, now),
        forall|k: int|
            0 <= k < candidates[i].account.windows@.len() ==> !exhausted(
                #[trigger] candidates[i].account.windows@[k],
                now,
            ),
        !excluded.contains(candidates[i].account.id),
{
}

/// There is at most one choice.
pub proof fn choice_is_unique(
    candidates: Seq<Candidate>,
    excluded: Seq<u128>,
    weighted: bool,
    now: i64,
    i: int,
    k: int,
)
    requires
        chosen(candidates, excluded, weighted, now, i),
        chosen(candidates, excluded, weighted, now, k),
    ensures
        i == k,
{
    if i < k {
        assert(preferred(rank(candidates[k], weighted), rank(candidates[i], weighted)));
    } else if k < i {
        assert(preferred(rank(candidates[i], weighted), rank(candidates[k], weighted)));
    }
}

/// Of two usable accounts, under weighting, the one with the lower score is preferred, whatever
/// else is known of them.
pub proof fn lower_score_wins(a: Candidate, b: Candidate)
    requires
        order(a.score) < order(b.score),
    ensures
        preferred(rank(a, true), rank(b, true)),
        !preferred(rank(b, true), rank(a, true)),
{
}

/// An account with a window that is used up, whatever the length of the window, is not eligible until
/// the time at which the window starts anew; where that time is not known, it is not eligible at all.
pub proof fn used_up_windows_keep_accounts_out(a: RoutingAccount, now: i64, i: int, used: u64)
    requires
        0 <= i < a.windows@.len(),
        a.windows@[i].used_percent == Some(used),
        0x4059_0000_0000_0000 <= used <= 0x7ff0_0000_0000_0000,
        !(a.windows@[i].reset_at is At) || a.windows@[i].reset_at->At_0 > now,
    ensures
        !eligible(a, now),
{
    assert(exhausted(a.windows@[i], now));
}

/// An account is eligible exactly where it is active, its cooldown is over or it has none, and each of
/// its windows is below a hundred percent, of unknown use, or due to have started anew.
pub proof fn eligible_accounts_can_serve(a: RoutingAccount, now: i64)
    ensures
        eligible(a, now) <==> {
            &&& a.active
            &&& a.cooldown_until is Missing || (a.cooldown_until is At && a.cooldown_until->At_0
                <= now)
            &&& forall|i: int|
                #![trigger a.windows@[i]]
                0 <= i < a.windows@.len() ==> {
                    ||| a.windows@[i].used_percent is None
                    ||| a.windows@[i].used_percent->0 < 0x4059_0000_0000_0000
                    ||| a.windows@[i].used_percent->0 > 0x7ff0_0000_0000_0000
                    ||| a.windows@[i].reset_at is At && a.windows@[i].reset_at->At_0 <= now
                }
        },
{
    if eligible(a, now) {
        assert forall|i: int|
            #![trigger a.windows@[i]]
            0 <= i < a.windows@.len() implies {
            ||| a.windows@[i].used_percent is None
            ||| a.windows@[i].used_percent->0 < 0x4059_0000_0000_0000
            ||| a.windows@[i].used_percent->0 > 0x7ff0_0000_0000_0000
            ||| a.windows@[i].reset_at is At && a.windows@[i].reset_at->At_0 <= now
        } by {
            assert(!exhausted(a.windows@[i], now));
        }
    }
}

/// Whether a window is used up depends on its use and its reset alone.
pub proof fn exhaustion_is_by_use_and_reset(a: CodexWindow, b: CodexWindow, now: i64)
    requires
        a.used_percent == b.used_percent,
        a.reset_at == b.reset_at,
    ensures
        exhausted(a, now) == exhausted(b, now),
{
}

/// A binding holds for the seconds that sessions stick, counted from its last use, and for no longer.
pub proof fn bindings_hold_for_their_time(pin: Pin, ttl_seconds: i64, now: i64)
    requires
        0 <= now <= 253402300799999,
        ttl_seconds * 1000 <= now + 210866760000000,
    ensures
        recent(pin, ttl_seconds, now) <==> pin.last_used_at is At && ttl_seconds >= 0
            && pin.last_used_at->At_0 + ttl_seconds * 1000 >= now,
{
}

/// A request goes to the account that its session is bound to exactly where the binding holds, the
/// account can be used and was not tried before.
pub proof fn sessions_stay_with_their_account(
    candidates: Seq<Candidate>,
    pin: Option<Pin>,
    excluded: Seq<u128>,
    ttl_seconds: i64,
    now: i64,
    i: int,
)
    requires
        0 <= i < candidates.len(),
    ensures
        pinned_at(candidates, pin, excluded, ttl_seconds, now, i) <==> {
            &&& pin is Some
            &&& pin->0.account_id == candidates[i].account.id
            &&& recent(pin->0, ttl_seconds, now)
            &&& eligible(candidates[i].account, now)
            &&& forall|k: int| 0 <= k < excluded.len() ==> excluded[k] != candidates[i].account.id
        },
{
    let id = candidates[i].account.id;
    if forall|k: int| 0 <= k < excluded.len() ==> excluded[k] != id {
        assert(!excluded.contains(id));
    }
}

/// The chosen account can be used, was not tried before, and none that could have been chosen in its
/// place presses less: by score, then by what is known, then by use, then by requests in flight, then
/// by the time since it was selected, then by age.
pub proof fn weighted_choice_presses_least(
    candidates: Seq<Candidate>,
    excluded: Seq<u128>,
    now: i64,
    i: int,
    j: int,
)
    requires
        chosen(candidates, excluded, true, now, i),
        0 <= j < candidates.len(),
        eligible(candidates[j].account, now),
        !excluded.contains(candidates[j].account.id),
    ensures
        eligible(candidates[i].account, now),
        !excluded.contains(candidates[i].account.id),
        ({
            let (a, b) = (candidates[i], candidates[j]);
            let load_a = if a.account.inflight < 0 {
                0
            } else {
                a.account.inflight as int
            };
            let load_b = if b.account.inflight < 0 {
                0
            } else {
                b.account.inflight as int
            };
            &&& order(a.score) <= order(b.score)
            &&& order(a.score) == order(b.score) ==> {
                &&& a.doubt <= b.doubt
                &&& a.doubt == b.doubt ==> {
                    &&& order(a.used) <= order(b.used)
                    &&& order(a.used) == order(b.used) ==> {
                        &&& load_a <= load_b
                        &&& load_a == load_b ==> {
                            &&& !before(last_selected(b.account), last_selected(a.account))
                            &&& last_selected(a.account) == last_selected(b.account) ==> !before(
                                b.account.created_at@,
                                a.account.created_at@,
                            )
                        }
                    }
                }
            }
        }),
{
    assert(open_to(candidates[j], excluded, now));
    before_is_strict(last_selected(candidates[j].account), last_selected(candidates[i].account));
    before_is_strict(candidates[j].account.created_at@, candidates[i].account.created_at@);
}

/// A plain rotation chooses, of the accounts that can be used, the one that was selected longest ago,
/// then the oldest, whatever their use.
pub proof fn rotation_goes_by_last_selection(
    candidates: Seq<Candidate>,
    excluded: Seq<u128>,
    now: i64,
    i: int,
    j: int,
)
    requires
        chosen(candidates, excluded, false, now, i),
        0 <= j < candidates.len(),
        eligible(candidates[j].account, now),
        !excluded.contains(candidates[j].account.id),
    ensures
        eligible(candidates[i].account, now),
        !excluded.contains(candidates[i].account.id),
        !before(last_selected(candidates[j].account), last_selected(candidates[i].account)),
        last_selected(candidates[j].account) == last_selected(candidates[i].account) ==> !before(
            candidates[j].account.created_at@,
            candidates[i].account.created_at@,
        ),
{
    assert(open_to(candidates[j], excluded, now));
    before_is_strict(last_selected(candidates[j].account), last_selected(candidates[i].account));
    before_is_strict(candidates[j].account.created_at@, candidates[i].account.created_at@);
}

/// An account that was never selected counts as selected at the start of 1970, any other as selected
/// when it was last.
pub proof fn unselected_accounts_come_first(a: RoutingAccount)
    ensures
        a.last_selected_at matches Some(text) ==> last_selected(a) == text@,
        a.last_selected_at is None ==> last_selected(a) == "1970-01-01T00:00:00.000Z"@,
{
}

/// A choice after a failure is a failover; one without is named after the strategy.
pub proof fn reasons_tell_why(excluded: Seq<u128>, weighted: bool)
    ensures
        excluded.len() > 0 ==> choice_reason(excluded, weighted) == SelectionReason::Failover,
        excluded.len() == 0 && weighted ==> choice_reason(excluded, weighted)
            == SelectionReason::UsageWeighted,
        excluded.len() == 0 && !weighted ==> choice_reason(excluded, weighted)
            == SelectionReason::RoundRobin,
        SelectionReason::Sticky.text() == "sticky"@,
        SelectionReason::Failover.text() == "failover"@,
        SelectionReason::UsageWeighted.text() == "usage_weighted"@,
        SelectionReason::RoundRobin.text() == "round_robin"@,
{
}

/// A window whose use or reset cannot be read, or that has no length, tells nothing; one that was never
/// read tells nothing unless it has started anew; one without a reset or a length tells its use only.
pub proof fn windows_tell_what_is_known(w: CodexWindow, now: i64, fresh: i64)
    requires
        fresh >= 0,
    ensures
        w.used_percent is None ==> kind_of_window(w, now, fresh) == ScoreKind::Unknown,
        w.reset_at is Unreadable ==> kind_of_window(w, now, fresh) == ScoreKind::Unknown,
        w.window_seconds matches Some(n) && n <= 0 ==> kind_of_window(w, now, fresh)
            == ScoreKind::Unknown,
        w.fetched_at is None && !(w.reset_at is At && w.reset_at->At_0 <= now) ==> kind_of_window(
            w,
            now,
            fresh,
        ) == ScoreKind::Unknown,
        kind_of_window(w, now, fresh) == ScoreKind::Reset ==> w.reset_at is At
            && w.reset_at->At_0 <= now,
        kind_of_window(w, now, fresh) == ScoreKind::Timed ==> w.reset_at is At && w.reset_at->At_0
            > now && w.window_seconds is Some,
        kind_of_window(w, now, fresh) == ScoreKind::Raw ==> w.reset_at is Missing
            || w.window_seconds is None,
{
}

/// What is not known counts as used up, what has started anew as unused, and anything else as used as
/// far as it is; only a window whose time is known is held against its pace.
pub proof fn doubt_counts_as_use(w: CodexWindow, now: i64, fresh: i64)
    ensures
        match kind_of_window(w, now, fresh) {
            ScoreKind::Unknown => window_pressure(w, now, fresh) == 0x4059_0000_0000_0000
                && window_used(w, now, fresh) == 0x4059_0000_0000_0000 && window_doubt(
                w,
                now,
                fresh,
            ) == 2,
            ScoreKind::Reset => window_pressure(w, now, fresh) == 0 && window_used(w, now, fresh)
                == 0 && window_doubt(w, now, fresh) == 1,
            ScoreKind::Raw => window_pressure(w, now, fresh) == percent(w.used_percent->0)
                && window_used(w, now, fresh) == percent(w.used_percent->0) && window_doubt(
                w,
                now,
                fresh,
            ) == 0,
            ScoreKind::Timed => window_pressure(w, now, fresh) == w.ahead_of_pace && window_used(
                w,
                now,
                fresh,
            ) == percent(w.used_percent->0) && window_doubt(w, now, fresh) == 0,
        },
{
}

/// An account is as pressed, as doubtful and as used as the worst of its windows; without any it counts
/// as used up.
pub proof fn the_worst_window_counts(windows: Seq<CodexWindow>, now: i64, fresh: i64, i: int)
    requires
        0 <= i < windows.len(),
    ensures
        order(telemetry_of(windows, now, fresh).pressure) >= order(
            window_pressure(windows[i], now, fresh),
        ),
        telemetry_of(windows, now, fresh).doubt >= window_doubt(windows[i], now, fresh),
        order(telemetry_of(windows, now, fresh).used) >= order(window_used(windows[i], now, fresh)),
        exists|k: int|
            0 <= k < windows.len() && telemetry_of(windows, now, fresh).pressure == window_pressure(
                #[trigger] windows[k],
                now,
                fresh,
            ),
        exists|k: int|
            0 <= k < windows.len() && telemetry_of(windows, now, fresh).doubt == window_doubt(
                #[trigger] windows[k],
                now,
                fresh,
            ),
        exists|k: int|
            0 <= k < windows.len() && telemetry_of(windows, now, fresh).used == window_used(
                #[trigger] windows[k],
                now,
                fresh,
            ),
    decreases windows.len(),
{
    let rest = windows.drop_last();
    let last = windows.len() - 1;
    assert(windows[last] == windows.last());
    if windows.len() > 1 {
        the_worst_window_counts(rest, now, fresh, if i < last { i } else { 0 });
        let t = telemetry_of(rest, now, fresh);
        let p = choose|k: int|
            0 <= k < rest.len() && t.pressure == window_pressure(#[trigger] rest[k], now, fresh);
        let d = choose|k: int|
            0 <= k < rest.len() && t.doubt == window_doubt(#[trigger] rest[k], now, fresh);
        let u = choose|k: int|
            0 <= k < rest.len() && t.used == window_used(#[trigger] rest[k], now, fresh);
        assert(rest[p] == windows[p]);
        assert(rest[d] == windows[d]);
        assert(rest[u] == windows[u]);
        if i < last {
            assert(rest[i] == windows[i]);
        }
    }
}

/// An account of which no window is known counts as used up.
pub proof fn unknown_accounts_count_as_used_up(now: i64, fresh: i64)
    ensures
        telemetry_of(Seq::empty(), now, fresh) == (Telemetry {
            pressure: 0x4059_0000_0000_0000,
            doubt: 2,
            used: 0x4059_0000_0000_0000,
        }),
{
}

/// Use is trusted for three times the interval between refreshes, and for five minutes at least.
pub proof fn use_is_trusted_for_three_intervals(interval: int)
    ensures
        0 <= interval <= 100 ==> trusted_for(interval) == 300,
        100 <= interval <= 1_000_000_000 ==> trusted_for(interval) == 3 * interval,
        trusted_for(interval) >= 300,
{
}

/// Use is weighed unless the strategy is to go round.
pub proof fn strategies_weigh_use()
    ensures
        is_weighted("usage_weighted"@),
        !is_weighted("round_robin"@),
{
    reveal_strlit("usage_weighted");
    reveal_strlit("round_robin");
    assert("usage_weighted"@.len() == 14 && "round_robin"@.len() == 11);
}

/// A request goes to the account of its session where that can serve, and says that it stayed; without
/// such an account it goes to the one that is chosen. It never goes to an account that cannot serve or
/// was tried before.
pub proof fn requests_stay_or_are_routed(
    candidates: Seq<Candidate>,
    pin: Option<Pin>,
    excluded: Seq<u128>,
    weighted: bool,
    ttl_seconds: i64,
    now: i64,
    i: int,
    reason: SelectionReason,
    k: int,
)
    requires
        is_selected(candidates, pin, excluded, weighted, ttl_seconds, now, i, reason),
    ensures
        0 <= i < candidates.len(),
        eligible(candidates[i].account, now),
        !excluded.contains(candidates[i].account.id),
        0 <= k < candidates.len() && pin is Some && candidates[k].account.id == pin->0.account_id
            && recent(pin->0, ttl_seconds, now) && eligible(candidates[k].account, now)
            && !excluded.contains(candidates[k].account.id) ==> candidates[i].account.id
            == pin->0.account_id && (excluded.len() == 0 ==> reason is Sticky),
        excluded.len() > 0 ==> reason is Failover,
        pin is None && excluded.len() == 0 ==> reason == if weighted {
            SelectionReason::UsageWeighted
        } else {
            SelectionReason::RoundRobin
        },
        pin is None ==> chosen(candidates, excluded, weighted, now, i),
{
    if 0 <= k < candidates.len() && pin is Some && candidates[k].account.id == pin->0.account_id
        && recent(pin->0, ttl_seconds, now) && eligible(candidates[k].account, now)
        && !excluded.contains(candidates[k].account.id) {
        assert(pinned_at(candidates, pin, excluded, ttl_seconds, now, k));
    }
}

/// What a window tells, by its times: where its use was read within the time that it is trusted and its
/// reset is ahead, no further than the window is long, its use is held against the time that has passed;
/// where it was read before that, or its reset or its reading is too far ahead, it tells nothing; where
/// its reset was within the time of trust, it has started anew.
pub proof fn windows_tell_while_they_are_trusted(
    w: CodexWindow,
    now: i64,
    fresh: i64,
    used: u64,
    length: i64,
    reset: i64,
    read: i64,
)
    requires
        0 <= fresh <= 0x2000_0000,
        0 < length <= 0x2000_0000,
        0 <= now <= 200_000_000_000_000,
        0 <= reset <= 253402300799999,
        0 <= read <= 253402300799999,
        w.used_percent == Some(used),
        w.window_seconds == Some(length),
        w.reset_at == Moment::At(reset),
        w.fetched_at == Some(read),
    ensures
        now < reset < now + length * 1000 + 300_000 && now - fresh * 1000 < read < now + 300_000
            ==> kind_of_window(w, now, fresh) is Timed,
        now < reset && read < now - fresh * 1000 ==> kind_of_window(w, now, fresh) is Unknown,
        now < reset && read > now + 300_000 ==> kind_of_window(w, now, fresh) is Unknown,
        reset > now + length * 1000 + 300_000 ==> kind_of_window(w, now, fresh) is Unknown,
        reset <= now && reset > now - fresh * 1000 ==> kind_of_window(w, now, fresh) is Reset,
        reset < now - fresh * 1000 ==> kind_of_window(w, now, fresh) is Unknown,
{
    days_tell_how_long_ago(read as int, now as int, fresh as nat);
    days_tell_how_long_ago(reset as int, now as int, fresh as nat);
    days_tell_how_far_ahead(read as int, now as int, 300);
    days_tell_how_far_ahead_of_both(reset as int, now as int, length as nat, 300);
}

} // verus!
