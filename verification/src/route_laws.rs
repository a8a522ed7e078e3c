//! What holds between route commands and bindings.
use vstd::prelude::*;
use crate::keys::{
    RouteKeyView, SessionRouteActionKind, SessionRouteActionStatus, checked_keys, has_hash, hash_at,
    kind_of,
};
use crate::route_actions::{
    Action, SessionRouteActionRequest, SessionRouteActionResponse, action_failure, action_of,
    answers, prior_root, request_target,
};
use crate::route_binding::{
    EpochView, after_binding, bound_at_epoch, claimed, commanded, epoch_is_current, epoch_refuses,
    is_session_id, maps_elsewhere, maps_to, preferred_root, roots_with,
};
use crate::route_lookup::{candidate, earlier, epoch_at, foremost, in_turn, root_at, waits};
use crate::routes::{AccountLabelView, TablesView, label_of, resolved_target};

verus! {

proof fn largest_generation(a: Action, most: nat)
    requires
        forall|r: Seq<char>, x: int| #[trigger] a.root_has(r, x) ==> 0 <= x <= most,
        forall|h: Seq<char>, x: int| #[trigger] a.key_has(h, x) ==> 0 <= x <= most,
    ensures
        exists|g: int| a.is_current(g),
    decreases most,
{
    if most == 0 || (exists|r: Seq<char>| a.root_has(r, most as int)) || (exists|h: Seq<char>|
        a.key_has(h, most as int)) {
        assert(a.is_current(most as int));
    } else {
        largest_generation(a, (most - 1) as nat);
    }
}

/// A session always has a current generation.
pub proof fn current_generation_exists(a: Action)
    requires
        a.tables.sound(),
    ensures
        a.is_current(a.current()),
{
    assert forall|r: Seq<char>, x: int| #[trigger] a.root_has(r, x) implies 0 <= x
        <= i64::MAX as nat by {
        assert(a.tables.roots.contains_key(r));
    }
    assert forall|h: Seq<char>, x: int| #[trigger] a.key_has(h, x) implies 0 <= x
        <= i64::MAX as nat by {
        assert(a.tables.affinity.contains_key(h));
    }
    largest_generation(a, i64::MAX as nat);
    let g = choose|g: int| a.is_current(g);
    assert(a.is_current(g));
}

/// After a command, exactly the aliases that it covered are those of its session, with the kinds
/// that it gave them.
pub proof fn command_gathers_aliases(a: Action, action: SessionRouteActionKind, now: int, h: Seq<char>)
    ensures
        a.covers(h) <==> a.after(action, now).keys.contains_key(h) && a.after(
            action,
            now,
        ).keys[h].root == a.root,
        a.covers(h) ==> a.after(action, now).keys[h].kind == a.kind(h),
        !a.covers(h) && a.tables.keys.contains_key(h) ==> a.after(action, now).keys[h]
            == a.tables.keys[h],
{
    if !a.covers(h) && a.tables.keys.contains_key(h) {
        assert(!a.merges(a.tables.keys[h].root));
    }
}

/// Where a command moves a session, all its aliases move together: to the effective account, at one
/// generation, newer than all that was stored of them.
pub proof fn command_moves_all_aliases(
    a: Action,
    action: SessionRouteActionKind,
    now: int,
    h: Seq<char>,
)
    requires
        a.tables.sound(),
        a.moves(),
        a.covers(h),
    ensures
        ({
            let t = a.after(action, now);
            &&& t.affinity.contains_key(h)
            &&& Some(t.affinity[h].account) == a.effective()
            &&& t.affinity[h].kind == a.kind(h)
            &&& t.affinity[h].generation == a.generation()
            &&& t.roots[a.root].generation == a.generation()
            &&& a.routed(h) ==> a.tables.affinity[h].generation < a.generation()
        }),
{
    current_generation_exists(a);
    if a.routed(h) {
        assert(a.key_has(h, a.tables.affinity[h].generation));
    }
}

/// A command never takes a session back to an older generation, and makes it strictly newer where
/// it moves the session. Sessions merged into it are gone.
pub proof fn command_never_goes_back(
    a: Action,
    action: SessionRouteActionKind,
    now: int,
    r: Seq<char>,
)
    requires
        a.tables.sound(),
        a.merges(r),
        a.tables.roots.contains_key(r),
    ensures
        ({
            let t = a.after(action, now);
            &&& t.roots.contains_key(a.root)
            &&& t.roots[a.root].generation >= a.tables.roots[r].generation
            &&& a.moves() ==> t.roots[a.root].generation > a.tables.roots[r].generation
            &&& r != a.root ==> !t.roots.contains_key(r)
        }),
{
    current_generation_exists(a);
    assert(a.root_has(r, a.tables.roots[r].generation));
}

/// What a command is told again after it was carried out, with no live connection elsewhere.
pub open spec fn told_again(
    a: Action,
    action: SessionRouteActionKind,
    now: int,
    live: Seq<u128>,
) -> Action {
    Action { tables: a.after(action, now), live, ..a }
}

/// Repeating a command that found an account, once all live connections are on it, moves nothing:
/// the generation stays, and where there was no fallback the second answer is that nothing was done.
pub proof fn repeated_command_moves_nothing(
    a: Action,
    action: SessionRouteActionKind,
    now: int,
    live: Seq<u128>,
)
    requires
        a.tables.sound(),
        a.effective() is Some,
        label_of(a.accounts, a.effective()->0) is Some,
        forall|i: int| 0 <= i < live.len() ==> Some(#[trigger] live[i]) == a.effective(),
    ensures
        ({
            let b = told_again(a, action, now, live);
            &&& !b.moves()
            &&& b.generation() == a.generation()
            &&& b.status() == if a.falls_back() {
                SessionRouteActionStatus::Fallback
            } else {
                SessionRouteActionStatus::NoOp
            }
        }),
{
    let b = told_again(a, action, now, live);
    let t = a.after(action, now);
    current_generation_exists(a);
    assert forall|r: Seq<char>| b.merges(r) implies r == a.root by {
        if r != a.root {
            let i = choose|i: int| prior_root(b.tables, b.keys, r, i);
            assert(prior_root(b.tables, b.keys, r, i));
            let h = a.keys[i].hash;
            assert(hash_at(a.keys, h, i));
            assert(a.covers(h));
        }
    }
    assert forall|h: Seq<char>| b.covers(h) <==> a.covers(h) by {
        command_gathers_aliases(a, action, now, h);
        if b.covers(h) && !has_hash(b.keys, h) {
            assert(b.merges(b.tables.keys[h].root));
        }
    }
    assert forall|h: Seq<char>| a.covers(h) implies b.kind(h) == a.kind(h) by {}
    let g = a.generation();
    assert forall|r: Seq<char>, x: int| #[trigger] b.root_has(r, x) implies x == g by {}
    assert forall|h: Seq<char>, x: int| #[trigger] b.key_has(h, x) implies x == g by {
        assert(b.covers(h));
        assert(a.covers(h));
        if !a.moves() {
            assert(a.routed(h));
            assert(!a.outdated(h));
        }
    }
    assert(b.root_has(a.root, g)) by {
        assert(b.merges(a.root));
    }
    assert(g >= 0);
    assert(b.is_current(g));
    let c = b.current();
    assert(b.is_current(c));
    assert(c == g) by {
        if c != g {
            assert(b.root_has(a.root, g));
            assert(g <= c);
            if c != 0 {
                if exists|r: Seq<char>| b.root_has(r, c) {
                    let r = choose|r: Seq<char>| b.root_has(r, c);
                    assert(b.root_has(r, c));
                } else {
                    let h = choose|h: Seq<char>| b.key_has(h, c);
                    assert(b.key_has(h, c));
                }
            }
        }
    }
    assert forall|h: Seq<char>| !b.misplaced(h) by {
        if b.covers(h) {
            assert(a.covers(h));
            if !a.moves() {
                assert(!a.misplaced(h));
            }
        }
    }
    assert forall|h: Seq<char>| !b.outdated(h) by {
        if b.routed(h) {
            assert(b.key_has(h, b.tables.affinity[h].generation));
        }
    }
    assert forall|h: Seq<char>| !b.unmapped(h) by {}
    assert forall|i: int| !b.live_elsewhere(i) by {}
}

/// A dry run decides what the command itself would decide.
pub proof fn dry_run_decides_the_same(
    tables: TablesView,
    accounts: Seq<AccountLabelView>,
    eligible: Seq<u128>,
    smart: Option<u128>,
    live: Seq<u128>,
    trial: SessionRouteActionRequest,
    request: SessionRouteActionRequest,
)
    requires
        trial.root_key_hash@ == request.root_key_hash@,
        trial.keys == request.keys,
        trial.action == request.action,
        trial.target.deep_view() == request.target.deep_view(),
    ensures
        action_of(tables, accounts, eligible, smart, live, trial) == action_of(
            tables,
            accounts,
            eligible,
            smart,
            live,
            request,
        ),
        action_failure(
            action_of(tables, accounts, eligible, smart, live, trial),
            trial,
        ) == action_failure(
            action_of(tables, accounts, eligible, smart, live, request),
            request,
        ),
{
}

/// A request that started before a command moved its session cannot bind its keys any more.
pub proof fn moved_session_refuses_old_epochs(
    a: Action,
    action: SessionRouteActionKind,
    now: int,
    e: EpochView,
    keys: Seq<RouteKeyView>,
    account: u128,
    later: int,
)
    requires
        a.tables.sound(),
        a.moves(),
        a.merges(e.root),
        epoch_is_current(a.tables, e),
        keys.len() > 0,
    ensures
        after_binding(a.after(action, now), keys, account, Some(e), later) is None,
{
    command_never_goes_back(a, action, now, e.root);
}

/// After a command, the session's aliases can be bound only at its epoch.
pub proof fn commanded_session_needs_an_epoch(
    a: Action,
    action: SessionRouteActionKind,
    now: int,
    keys: Seq<RouteKeyView>,
    i: int,
    account: u128,
    later: int,
)
    requires
        0 <= i < keys.len(),
        a.covers(keys[i].hash),
    ensures
        after_binding(a.after(action, now), keys, account, None, later) is None,
{
    let t = a.after(action, now);
    let m = roots_with(t.roots, preferred_root(keys), later);
    assert(t.roots.contains_key(a.root));
    assert(t.keys.contains_key(keys[i].hash) && t.keys[keys[i].hash].root == a.root);
    assert(maps_to(t.keys, m, keys, i));
    assert(commanded(m[a.root]));
    assert(claimed(t.keys, m, keys));
}

/// After a command, each of the session's aliases leads to its root and its new generation.
pub proof fn commanded_session_is_found(
    a: Action,
    action: SessionRouteActionKind,
    now: int,
    keys: Seq<RouteKeyView>,
    i: int,
)
    requires
        foremost(a.after(action, now), keys, i),
        a.covers(keys[i].hash),
    ensures
        root_at(a.after(action, now), keys, i) == a.root,
        a.after(action, now).roots[a.root].generation == a.generation(),
{
}

/// Binding at an epoch keeps every session and its generation, puts the keys under the epoch's
/// session, and never replaces a newer binding by an older one.
pub proof fn binding_keeps_generations(
    t: TablesView,
    keys: Seq<RouteKeyView>,
    account: u128,
    e: EpochView,
    now: int,
    r: Seq<char>,
    h: Seq<char>,
)
    requires
        keys.len() > 0,
        !epoch_refuses(t, keys, e),
    ensures
        ({
            let after = bound_at_epoch(t, keys, account, e, now);
            &&& after_binding(t, keys, account, Some(e), now) == Some(after)
            &&& t.roots.contains_key(r) ==> after.roots.contains_key(r)
                && after.roots[r].generation == t.roots[r].generation
            &&& epoch_is_current(after, e)
            &&& has_hash(keys, h) ==> after.keys.contains_key(h) && after.keys[h].root == e.root
            &&& has_hash(keys, h) && !(t.affinity.contains_key(h) && t.affinity[h].generation
                > e.generation) ==> after.affinity.contains_key(h) && after.affinity[h].account
                == account && after.affinity[h].generation == e.generation
        }),
{
}

/// A binding that the epoch accepts is accepted again, and leaves the same account and generation.
pub proof fn binding_twice_is_binding_once(
    t: TablesView,
    keys: Seq<RouteKeyView>,
    account: u128,
    e: EpochView,
    now: int,
    later: int,
    h: Seq<char>,
)
    requires
        keys.len() > 0,
        !epoch_refuses(t, keys, e),
        has_hash(keys, h),
        !(t.affinity.contains_key(h) && t.affinity[h].generation > e.generation),
    ensures
        ({
            let once = bound_at_epoch(t, keys, account, e, now);
            let twice = bound_at_epoch(once, keys, account, e, later);
            &&& !epoch_refuses(once, keys, e)
            &&& twice.affinity[h].account == once.affinity[h].account
            &&& twice.affinity[h].generation == once.affinity[h].generation
            &&& twice.affinity[h].kind == once.affinity[h].kind
            &&& twice.keys[h].root == once.keys[h].root
        }),
{
    let once = bound_at_epoch(t, keys, account, e, now);
    binding_keeps_generations(t, keys, account, e, now, e.root, h);
    assert forall|i: int| !crate::route_binding::maps_elsewhere(once, keys, e.root, i) by {
        if 0 <= i < keys.len() {
            assert(hash_at(keys, keys[i].hash, i));
            assert(has_hash(keys, keys[i].hash));
        }
    }
    assert(!epoch_refuses(once, keys, e));
    binding_keeps_generations(once, keys, account, e, later, e.root, h);
}

/// The account of a command is its target where that can serve, and otherwise the one that is chosen;
/// then the command falls back.
pub proof fn commands_prefer_their_target(a: Action, id: u128)
    ensures
        a.target == Some(id) && a.eligible.contains(id) ==> a.effective() == Some(id)
            && !a.falls_back(),
        a.target == Some(id) && !a.eligible.contains(id) ==> a.effective() == a.smart
            && a.falls_back(),
        a.target is None ==> a.effective() == a.smart && !a.falls_back(),
{
}

/// What a command answers: it waits where there is no account, falls back where its target cannot
/// serve, and otherwise was applied or had nothing to do.
pub proof fn commands_answer_what_was_done(a: Action)
    ensures
        a.effective() is None ==> a.status() is Pending,
        a.effective() is Some && a.target is Some && !a.eligible.contains(a.target->0)
            ==> a.status() is Fallback,
        a.effective() is Some && (a.target is None || a.eligible.contains(a.target->0)) && a.moves()
            ==> a.status() is Applied,
        a.effective() is Some && (a.target is None || a.eligible.contains(a.target->0))
            && !a.moves() ==> a.status() is NoOp,
        a.effective() is None ==> !a.moves(),
{
}

/// A command moves its session where an alias of it is on another account, or a live connection is, or
/// the session is not yet stored.
pub proof fn commands_move_what_is_elsewhere(a: Action, h: Seq<char>, i: int)
    requires
        a.effective() is Some,
    ensures
        a.routed(h) && Some(a.tables.affinity[h].account) != a.effective() ==> a.moves(),
        0 <= i < a.live.len() && Some(a.live[i]) != a.effective() ==> a.moves(),
        !a.tables.roots.contains_key(a.root) ==> a.moves(),
        has_hash(a.keys, h) && !a.tables.affinity.contains_key(h) ==> a.moves(),
{
    if a.routed(h) && Some(a.tables.affinity[h].account) != a.effective() {
        assert(a.misplaced(h));
    }
    if 0 <= i < a.live.len() && Some(a.live[i]) != a.effective() {
        assert(a.live_elsewhere(i));
    }
    if has_hash(a.keys, h) && !a.tables.affinity.contains_key(h) {
        assert(a.misplaced(h));
    }
}

/// What is stored of a session after a command: the command, its target, its account and its outcome,
/// and when it was.
pub proof fn commands_are_stored(a: Action, action: SessionRouteActionKind, now: int)
    ensures
        ({
            let row = a.after(action, now).roots[a.root];
            &&& a.after(action, now).roots.contains_key(a.root)
            &&& row.last_action == Some(action.text())
            &&& row.requested == a.target
            &&& row.effective == a.effective()
            &&& row.status == Some(a.status().text())
            &&& row.updated_at == now
            &&& row.generation == a.generation()
        }),
        !a.moves() ==> a.after(action, now).affinity == a.tables.affinity,
{
}

/// Sessions and bindings that a command has nothing to do with stay as they are.
pub proof fn commands_leave_other_sessions(
    a: Action,
    action: SessionRouteActionKind,
    now: int,
    r: Seq<char>,
    h: Seq<char>,
)
    ensures
        a.tables.roots.contains_key(r) && !a.merges(r) ==> a.after(action, now).roots.contains_key(r)
            && a.after(action, now).roots[r] == a.tables.roots[r],
        a.tables.affinity.contains_key(h) && !a.covers(h) ==> a.after(
            action,
            now,
        ).affinity.contains_key(h) && a.after(action, now).affinity[h] == a.tables.affinity[h],
{
}

/// A command covers the aliases that it names, and all that are stored under its session or under one
/// that such an alias was stored under.
pub proof fn commands_cover_linked_aliases(a: Action, h: Seq<char>, i: int)
    ensures
        0 <= i < a.keys.len() ==> a.covers(a.keys[i].hash),
        a.tables.keys.contains_key(h) && a.tables.keys[h].root == a.root ==> a.covers(h),
        0 <= i < a.keys.len() && a.tables.keys.contains_key(a.keys[i].hash)
            && a.tables.keys.contains_key(h) && a.tables.keys[h].root
            == a.tables.keys[a.keys[i].hash].root ==> a.covers(h),
{
    if 0 <= i < a.keys.len() {
        assert(hash_at(a.keys, a.keys[i].hash, i));
        if a.tables.keys.contains_key(a.keys[i].hash) {
            assert(prior_root(a.tables, a.keys, a.tables.keys[a.keys[i].hash].root, i));
        }
    }
}

/// A request to rebalance has no target, and one to reroute has one, which is found; both name their
/// session by a hash that is among their keys.
pub proof fn requests_are_checked(
    accounts: Seq<AccountLabelView>,
    root: Seq<char>,
    keys: Seq<RouteKeyView>,
    target: Seq<char>,
)
    ensures
        request_target(
            accounts,
            root,
            keys,
            SessionRouteActionKind::Rebalance,
            Some(target),
        ) is Err,
        request_target(accounts, root, keys, SessionRouteActionKind::Reroute, None) is Err,
        keys.len() == 0 ==> request_target(
            accounts,
            root,
            keys,
            SessionRouteActionKind::Rebalance,
            None,
        ) is Err,
        keys.len() > 500 ==> request_target(
            accounts,
            root,
            keys,
            SessionRouteActionKind::Rebalance,
            None,
        ) is Err,
        root.len() != 64 ==> request_target(
            accounts,
            root,
            keys,
            SessionRouteActionKind::Rebalance,
            None,
        ) is Err,
        request_target(accounts, root, keys, SessionRouteActionKind::Reroute, Some(target)) matches Ok(
            t,
        ) ==> resolved_target(accounts, target) is Ok && t == Some(
            resolved_target(accounts, target)->Ok_0,
        ),
        request_target(accounts, root, keys, SessionRouteActionKind::Rebalance, None) matches Ok(
            t,
        ) ==> t is None && has_hash(checked_keys(keys)->Ok_0, root),
{
}

/// What a command answers tells of the command: its session, its target, its account, and how much was
/// found, changed and merged.
pub proof fn answers_tell_of_the_command(
    response: SessionRouteActionResponse,
    a: Action,
    request: SessionRouteActionRequest,
)
    requires
        answers(response, a, request),
    ensures
        response.root_key_hash@ == a.root,
        response.action == request.action,
        response.status == a.status(),
        response.dry_run == request.dry_run,
        response.route_generation == a.generation(),
        a.target matches Some(id) ==> response.requested_account.deep_view() == label_of(
            a.accounts,
            id,
        ),
        a.target is None ==> response.requested_account is None,
        a.effective() matches Some(id) ==> response.effective_account.deep_view() == label_of(
            a.accounts,
            id,
        ),
        a.effective() is None ==> response.effective_account is None,
        response.linked_route_count == a.covered().len(),
        response.changed_route_count == a.changed().len(),
        response.merged_root_count == a.merged().len(),
{
}

/// A session is looked up by the key whose session changed last; of two changed at once, the one of the
/// higher generation.
pub proof fn latest_sessions_are_found_first(t: TablesView, keys: Seq<RouteKeyView>, i: int, j: int)
    requires
        foremost(t, keys, i),
        0 <= j < keys.len(),
        t.keys.contains_key(keys[j].hash),
        t.roots.contains_key(t.keys[keys[j].hash].root),
    ensures
        ({
            let mine = t.roots[t.keys[keys[i].hash].root];
            let other = t.roots[t.keys[keys[j].hash].root];
            &&& mine.updated_at >= other.updated_at
            &&& mine.updated_at == other.updated_at ==> mine.generation >= other.generation
        }),
        epoch_at(t, keys, i).root == t.keys[keys[i].hash].root,
        epoch_at(t, keys, i).generation == t.roots[t.keys[keys[i].hash].root].generation,
        epoch_at(t, keys, i).key == keys[i].hash,
{
    assert(candidate(t, keys, j));
}

/// A session waits where its last command was not carried out, and those that wait come in turn: the one
/// that has waited longest first.
pub proof fn waiting_sessions_come_in_turn(t: TablesView, list: Seq<Seq<char>>, r: Seq<char>, i: int, j: int)
    ensures
        waits(t, r) ==> t.roots.contains_key(r) && t.roots[r].status == Some("pending"@),
        t.roots.contains_key(r) && t.roots[r].status == Some("pending"@) && (t.roots[r].last_action
            == Some("rebalance"@) || t.roots[r].last_action == Some("reroute"@)) ==> waits(t, r),
        in_turn(t, list) && 0 <= i < j < list.len() ==> t.roots[list[i]].updated_at
            <= t.roots[list[j]].updated_at,
{
    if in_turn(t, list) && 0 <= i < j < list.len() {
        assert(earlier(t, list[i], list[j]));
    }
}

/// A binding at an epoch is refused where the session has moved on, or where one of the keys belongs to
/// another session; otherwise it is made.
pub proof fn epochs_guard_bindings(
    t: TablesView,
    keys: Seq<RouteKeyView>,
    account: u128,
    e: EpochView,
    now: int,
    i: int,
)
    requires
        keys.len() > 0,
    ensures
        !t.roots.contains_key(e.root) || t.roots[e.root].generation != e.generation
            ==> after_binding(t, keys, account, Some(e), now) is None,
        0 <= i < keys.len() && t.keys.contains_key(keys[i].hash) && t.keys[keys[i].hash].root
            != e.root ==> after_binding(t, keys, account, Some(e), now) is None,
        t.roots.contains_key(e.root) && t.roots[e.root].generation == e.generation && (forall|k: int|
            0 <= k < keys.len() && t.keys.contains_key((#[trigger] keys[k]).hash)
                ==> t.keys[keys[k].hash].root == e.root) ==> after_binding(
            t,
            keys,
            account,
            Some(e),
            now,
        ) is Some,
{
    if 0 <= i < keys.len() && t.keys.contains_key(keys[i].hash) && t.keys[keys[i].hash].root
        != e.root {
        assert(maps_elsewhere(t, keys, e.root, i));
    }
}

/// A binding without an epoch puts the account under each of the keys, with the kind of the key and the
/// time, and leaves every other binding.
pub proof fn first_bindings_are_kept(
    t: TablesView,
    keys: Seq<RouteKeyView>,
    account: u128,
    now: int,
    h: Seq<char>,
)
    requires
        keys.len() > 0,
        after_binding(t, keys, account, None, now) is Some,
    ensures
        ({
            let after = after_binding(t, keys, account, None, now)->0;
            &&& has_hash(keys, h) ==> after.affinity.contains_key(h) && after.affinity[h].account
                == account && after.affinity[h].kind == kind_of(keys, h)
                && after.affinity[h].last_used_at == now
            &&& has_hash(keys, h) ==> after.keys.contains_key(h)
            &&& !has_hash(keys, h) && t.affinity.contains_key(h) ==> after.affinity[h]
                == t.affinity[h]
            &&& t.roots.contains_key(h) ==> after.roots.contains_key(h) && after.roots[h]
                == t.roots[h]
        }),
{
}

/// Binding at the epoch of a reroute moves all of the session to the account, and says whether that is
/// the one that was asked for.
pub proof fn bindings_complete_reroutes(
    t: TablesView,
    keys: Seq<RouteKeyView>,
    account: u128,
    e: EpochView,
    now: int,
    h: Seq<char>,
)
    requires
        t.roots.contains_key(e.root),
        t.roots[e.root].last_action == Some("reroute"@),
        t.roots[e.root].effective != Some(account),
    ensures
        ({
            let after = bound_at_epoch(t, keys, account, e, now);
            &&& after.roots[e.root].effective == Some(account)
            &&& t.roots[e.root].requested == Some(account) ==> after.roots[e.root].status == Some(
                "applied"@,
            )
            &&& t.roots[e.root].requested != Some(account) ==> after.roots[e.root].status == Some(
                "fallback"@,
            )
            &&& t.affinity.contains_key(h) && t.keys.contains_key(h) && t.keys[h].root == e.root
                && !has_hash(keys, h) ==> after.affinity[h].account == account
        }),
{
}

/// A session that is new is named by the first of its keys that names a session, else by its first key.
pub proof fn sessions_are_named_by_their_session_key(keys: Seq<RouteKeyView>, i: int)
    requires
        keys.len() > 0,
    ensures
        0 <= i < keys.len() && keys[i].kind == "session_id"@ && (forall|j: int|
            0 <= j < i ==> (#[trigger] keys[j]).kind != "session_id"@) ==> preferred_root(keys)
            == keys[i].hash,
        (forall|j: int| 0 <= j < keys.len() ==> (#[trigger] keys[j]).kind != "session_id"@)
            ==> preferred_root(keys) == keys[0].hash,
{
    if 0 <= i < keys.len() && keys[i].kind == "session_id"@ && (forall|j: int|
        0 <= j < i ==> (#[trigger] keys[j]).kind != "session_id"@) {
        assert(is_session_id(keys, i));
        assert forall|j: int| 0 <= j < i implies !is_session_id(keys, j) by {
            assert(keys[j].kind != "session_id"@);
        }
        let k = choose|k: int|
            is_session_id(keys, k) && forall|j: int| 0 <= j < k ==> !is_session_id(keys, j);
        if k < i {
            assert(!is_session_id(keys, k));
        } else if i < k {
            assert(!is_session_id(keys, i));
        }
    } else if forall|j: int| 0 <= j < keys.len() ==> (#[trigger] keys[j]).kind != "session_id"@ {
        assert forall|j: int| !is_session_id(keys, j) by {
            if 0 <= j < keys.len() {
                assert(keys[j].kind != "session_id"@);
            }
        }
    }
}

/// A binding at an epoch puts the account under each of the keys that has not moved on, in the session
/// and the generation of the epoch, and leaves every other binding unless the session is rerouted.
pub proof fn later_bindings_are_kept(
    t: TablesView,
    keys: Seq<RouteKeyView>,
    account: u128,
    e: EpochView,
    now: int,
    h: Seq<char>,
)
    requires
        keys.len() > 0,
        after_binding(t, keys, account, Some(e), now) is Some,
    ensures
        ({
            let after = after_binding(t, keys, account, Some(e), now)->0;
            &&& has_hash(keys, h) && !(t.affinity.contains_key(h) && t.affinity[h].generation
                > e.generation) ==> after.affinity.contains_key(h) && after.affinity[h].account
                == account && after.affinity[h].kind == kind_of(keys, h)
                && after.affinity[h].generation == e.generation && after.affinity[h].last_used_at == now
            &&& has_hash(keys, h) ==> after.keys.contains_key(h) && after.keys[h].root == e.root
                && after.keys[h].kind == kind_of(keys, h)
            &&& !has_hash(keys, h) && t.keys.contains_key(h) ==> after.keys[h] == t.keys[h]
            &&& !has_hash(keys, h) && t.affinity.contains_key(h) && !(t.keys.contains_key(h)
                && t.keys[h].root == e.root) ==> after.affinity[h] == t.affinity[h]
            &&& h != e.root && t.roots.contains_key(h) ==> after.roots[h] == t.roots[h]
            &&& t.roots[e.root].last_action != Some("reroute"@) ==> after.roots == t.roots
            &&& after.roots.contains_key(e.root) && after.roots[e.root].generation == e.generation
        }),
{
}

/// A binding without an epoch is refused where a key belongs to a session that a command has moved, and
/// where two keys belong to different sessions.
pub proof fn claimed_sessions_refuse_bindings(
    t: TablesView,
    keys: Seq<RouteKeyView>,
    account: u128,
    now: int,
    i: int,
    j: int,
)
    requires
        0 <= i < keys.len(),
        0 <= j < keys.len(),
        t.keys.contains_key(keys[i].hash),
        t.keys.contains_key(keys[j].hash),
        t.roots.contains_key(t.keys[keys[i].hash].root),
        t.roots.contains_key(t.keys[keys[j].hash].root),
    ensures
        t.roots[t.keys[keys[i].hash].root].generation != 0 ==> after_binding(t, keys, account, None, now)
            is None,
        t.roots[t.keys[keys[i].hash].root].last_action is Some ==> after_binding(
            t,
            keys,
            account,
            None,
            now,
        ) is None,
        t.keys[keys[i].hash].root != t.keys[keys[j].hash].root ==> after_binding(
            t,
            keys,
            account,
            None,
            now,
        ) is None,
{
    let m = roots_with(t.roots, preferred_root(keys), now);
    assert(maps_to(t.keys, m, keys, i));
    assert(maps_to(t.keys, m, keys, j));
}

/// Keys that are new belong to the session of those that are known, and where none is known, to the
/// one that they name.
pub proof fn new_keys_join_the_session(
    t: TablesView,
    keys: Seq<RouteKeyView>,
    account: u128,
    now: int,
    i: int,
    h: Seq<char>,
)
    requires
        keys.len() > 0,
        after_binding(t, keys, account, None, now) is Some,
        has_hash(keys, h),
        !t.keys.contains_key(h),
    ensures
        0 <= i < keys.len() && t.keys.contains_key(keys[i].hash) && t.roots.contains_key(
            t.keys[keys[i].hash].root,
        ) ==> after_binding(t, keys, account, None, now)->0.keys[h].root == t.keys[keys[i].hash].root,
        (forall|k: int| 0 <= k < keys.len() ==> !t.keys.contains_key((#[trigger] keys[k]).hash))
            ==> after_binding(t, keys, account, None, now)->0.keys[h].root == preferred_root(keys),
{
    let m = roots_with(t.roots, preferred_root(keys), now);
    if 0 <= i < keys.len() && t.keys.contains_key(keys[i].hash) && t.roots.contains_key(
        t.keys[keys[i].hash].root,
    ) {
        assert(maps_to(t.keys, m, keys, i));
        let k = choose|k: int| maps_to(t.keys, m, keys, k);
        assert(maps_to(t.keys, m, keys, k));
        assert(t.keys[keys[i].hash].root == t.keys[keys[k].hash].root);
    }
    if forall|k: int| 0 <= k < keys.len() ==> !t.keys.contains_key((#[trigger] keys[k]).hash) {
        assert forall|k: int| !maps_to(t.keys, m, keys, k) by {
            if 0 <= k < keys.len() {
                assert(!t.keys.contains_key(keys[k].hash));
            }
        }
    }
}

} // verus!
