//! Binding aliases to the account that served them, unless a route command has come in between.
use vstd::prelude::*;
use crate::error::{AppError, AppErrorKind};
use crate::keys::{
    RouteKeyView, SessionRouteKey, checked_keys, distinct_hashes, has_hash, hash_at, key_views,
    kind_is_unique, kind_of, too_many_keys, validate_session_route_keys,
};
use crate::route_actions::{keys_written, one_more_key};
use crate::routes::{
    AffinityRow, AffinityView, KeyRow, KeyView, RootRow, RootView, RouteTables, TablesView,
};
use crate::text::{clone_opt, same};

verus! {

/// The state of a session's routes that a request was given when it started.
#[derive(Debug)]
pub struct SessionRouteEpoch {
    pub root_key_hash: String,
    pub route_generation: i64,
    pub selection_key_hash: String,
}

pub struct EpochView {
    pub root: Seq<char>,
    pub generation: int,
    pub key: Seq<char>,
}

impl View for SessionRouteEpoch {
    type V = EpochView;

    open spec fn view(&self) -> EpochView {
        EpochView {
            root: self.root_key_hash@,
            generation: self.route_generation as int,
            key: self.selection_key_hash@,
        }
    }
}

pub open spec fn epoch_view(epoch: Option<&SessionRouteEpoch>) -> Option<EpochView> {
    match epoch {
        Some(e) => Some(e@),
        None => None,
    }
}

/// Whether the session still is at the epoch's generation.
pub open spec fn epoch_is_current(t: TablesView, e: EpochView) -> bool {
    t.roots.contains_key(e.root) && t.roots[e.root].generation == e.generation
}

pub fn session_route_epoch_is_current(tables: &RouteTables, epoch: &SessionRouteEpoch) -> (r: bool)
    requires
        tables.wf(),
    ensures
        r == epoch_is_current(tables@, epoch@),
{
    match tables.roots.get(&epoch.root_key_hash) {
        Some(row) => row.route_generation == epoch.route_generation,
        None => false,
    }
}

pub open spec fn maps_elsewhere(
    t: TablesView,
    keys: Seq<RouteKeyView>,
    root: Seq<char>,
    i: int,
) -> bool {
    0 <= i < keys.len() && t.keys.contains_key(keys[i].hash) && t.keys[keys[i].hash].root != root
}

/// Whether keys cannot be bound at an epoch: it has passed, or a key belongs to another session.
pub open spec fn epoch_refuses(t: TablesView, keys: Seq<RouteKeyView>, e: EpochView) -> bool {
    !epoch_is_current(t, e) || exists|i: int| maps_elsewhere(t, keys, e.root, i)
}

/// Whether the last command of the epoch's session was a reroute to another account.
pub open spec fn epoch_reroutes(t: TablesView, account: u128, e: EpochView) -> bool {
    t.roots[e.root].last_action == Some("reroute"@) && t.roots[e.root].effective != Some(account)
}

/// Bindings after keys are bound at a generation: a newer binding stays.
pub open spec fn affinity_bound(
    m: Map<Seq<char>, AffinityView>,
    keys: Seq<RouteKeyView>,
    account: u128,
    generation: int,
    now: int,
) -> Map<Seq<char>, AffinityView> {
    Map::new(
        |h: Seq<char>| m.contains_key(h) || has_hash(keys, h),
        |h: Seq<char>|
            if has_hash(keys, h) && !(m.contains_key(h) && m[h].generation > generation) {
                AffinityView { kind: kind_of(keys, h), account, generation, last_used_at: now }
            } else {
                m[h]
            },
    )
}

/// Bindings after all aliases of a session are moved to one account at one generation.
pub open spec fn affinity_moved(
    m: Map<Seq<char>, AffinityView>,
    k: Map<Seq<char>, KeyView>,
    root: Seq<char>,
    account: u128,
    generation: int,
    now: int,
) -> Map<Seq<char>, AffinityView> {
    Map::new(
        |h: Seq<char>| m.contains_key(h),
        |h: Seq<char>|
            if k.contains_key(h) && k[h].root == root {
                AffinityView { kind: m[h].kind, account, generation, last_used_at: now }
            } else {
                m[h]
            },
    )
}

/// The stored routes after keys are bound at an epoch that does not refuse them.
pub open spec fn bound_at_epoch(
    t: TablesView,
    keys: Seq<RouteKeyView>,
    account: u128,
    e: EpochView,
    now: int,
) -> TablesView {
    let k = keys_written(t.keys, keys, e.root, now);
    let m = affinity_bound(t.affinity, keys, account, e.generation, now);
    if epoch_reroutes(t, account, e) {
        TablesView {
            roots: t.roots.insert(
                e.root,
                RootView {
                    effective: Some(account),
                    status: Some(
                        if t.roots[e.root].requested == Some(account) {
                            "applied"@
                        } else {
                            "fallback"@
                        },
                    ),
                    updated_at: now,
                    ..t.roots[e.root]
                },
            ),
            keys: k,
            affinity: affinity_moved(m, k, e.root, account, e.generation, now),
        }
    } else {
        TablesView { roots: t.roots, keys: k, affinity: m }
    }
}

pub open spec fn is_session_id(keys: Seq<RouteKeyView>, i: int) -> bool {
    0 <= i < keys.len() && keys[i].kind == "session_id"@
}

/// The hash that names a session of which no command is known: that of its first session
/// identifier, else of its first key.
pub open spec fn preferred_root(keys: Seq<RouteKeyView>) -> Seq<char> {
    if exists|i: int| is_session_id(keys, i) {
        let i = choose|i: int|
            is_session_id(keys, i) && forall|j: int| 0 <= j < i ==> !is_session_id(keys, j);
        keys[i].hash
    } else {
        keys[0].hash
    }
}

pub open spec fn fresh_root(now: int) -> RootView {
    RootView {
        generation: 0,
        last_action: None,
        requested: None,
        effective: None,
        status: None,
        updated_at: now,
    }
}

/// The sessions with the given one added, where it was not there.
pub open spec fn roots_with(m: Map<Seq<char>, RootView>, r: Seq<char>, now: int) -> Map<
    Seq<char>,
    RootView,
> {
    if m.contains_key(r) {
        m
    } else {
        m.insert(r, fresh_root(now))
    }
}

pub open spec fn maps_to(
    k: Map<Seq<char>, KeyView>,
    m: Map<Seq<char>, RootView>,
    keys: Seq<RouteKeyView>,
    i: int,
) -> bool {
    0 <= i < keys.len() && k.contains_key(keys[i].hash) && m.contains_key(k[keys[i].hash].root)
}

pub open spec fn commanded(row: RootView) -> bool {
    row.generation != 0 || row.last_action is Some
}

/// Whether keys cannot be bound without an epoch: a command is known for the session of one of
/// them, or two of them belong to different sessions.
pub open spec fn claimed(
    k: Map<Seq<char>, KeyView>,
    m: Map<Seq<char>, RootView>,
    keys: Seq<RouteKeyView>,
) -> bool {
    ||| exists|i: int|
        #![trigger maps_to(k, m, keys, i)]
        maps_to(k, m, keys, i) && commanded(m[k[keys[i].hash].root])
    ||| exists|i: int, j: int|
        #![trigger maps_to(k, m, keys, i), maps_to(k, m, keys, j)]
        maps_to(k, m, keys, i) && maps_to(k, m, keys, j) && k[keys[i].hash].root
            != k[keys[j].hash].root
}

/// The session that keys belong to, where they belong to one.
pub open spec fn mapped_root(
    k: Map<Seq<char>, KeyView>,
    m: Map<Seq<char>, RootView>,
    keys: Seq<RouteKeyView>,
) -> Seq<char> {
    if exists|i: int| maps_to(k, m, keys, i) {
        k[keys[choose|i: int| maps_to(k, m, keys, i)].hash].root
    } else {
        preferred_root(keys)
    }
}

pub open spec fn key_of_root(k: Map<Seq<char>, KeyView>, r: Seq<char>, h: Seq<char>) -> bool {
    k.contains_key(h) && k[h].root == r
}

/// The stored routes after keys without an epoch are bound.
pub open spec fn bound_without_epoch(
    t: TablesView,
    keys: Seq<RouteKeyView>,
    account: u128,
    now: int,
) -> TablesView {
    let preferred = preferred_root(keys);
    let m = roots_with(t.roots, preferred, now);
    let root = mapped_root(t.keys, m, keys);
    TablesView {
        roots: if root == preferred || exists|h: Seq<char>| key_of_root(t.keys, preferred, h) {
            m
        } else {
            t.roots
        },
        keys: Map::new(
            |h: Seq<char>| t.keys.contains_key(h) || has_hash(keys, h),
            |h: Seq<char>|
                if has_hash(keys, h) && (!t.keys.contains_key(h) || t.keys[h].root == root) {
                    KeyView { root, kind: kind_of(keys, h), updated_at: now }
                } else {
                    t.keys[h]
                },
        ),
        affinity: Map::new(
            |h: Seq<char>| t.affinity.contains_key(h) || has_hash(keys, h),
            |h: Seq<char>|
                if has_hash(keys, h) {
                    AffinityView {
                        kind: kind_of(keys, h),
                        account,
                        generation: if t.affinity.contains_key(h) {
                            t.affinity[h].generation
                        } else {
                            0
                        },
                        last_used_at: now,
                    }
                } else {
                    t.affinity[h]
                },
        ),
    }
}

/// The stored routes after a binding, `None` where it is refused.
pub open spec fn after_binding(
    t: TablesView,
    keys: Seq<RouteKeyView>,
    account: u128,
    epoch: Option<EpochView>,
    now: int,
) -> Option<TablesView> {
    if keys.len() == 0 {
        Some(t)
    } else {
        match epoch {
            Some(e) => if epoch_refuses(t, keys, e) {
                None
            } else {
                Some(bound_at_epoch(t, keys, account, e, now))
            },
            None => if claimed(t.keys, roots_with(t.roots, preferred_root(keys), now), keys) {
                None
            } else {
                Some(bound_without_epoch(t, keys, account, now))
            },
        }
    }
}

/// Writes the keys under the session and binds them at the generation, newer bindings left alone.
fn write_at_epoch(
    tables: &mut RouteTables,
    keys: &Vec<SessionRouteKey>,
    root: &str,
    account_id: u128,
    generation: i64,
    now: i64,
)
    requires
        old(tables).wf(),
        distinct_hashes(key_views(keys@)),
        generation >= 0,
    ensures
        final(tables).wf(),
        final(tables)@.roots == old(tables)@.roots,
        final(tables)@.keys == keys_written(old(tables)@.keys, key_views(keys@), root@, now as int),
        final(tables)@.affinity == affinity_bound(
            old(tables)@.affinity,
            key_views(keys@),
            account_id,
            generation as int,
            now as int,
        ),
{
    let ghost t = tables@;
    let ghost given = key_views(keys@);
    let mut i: usize = 0;
    assert(keys_written(t.keys, given.take(0), root@, now as int) =~= t.keys);
    assert(affinity_bound(t.affinity, given.take(0), account_id, generation as int, now as int)
        =~= t.affinity);
    while i < keys.len()
        invariant
            i <= keys.len(),
            given == key_views(keys@),
            distinct_hashes(given),
            generation >= 0,
            tables.wf(),
            tables@.roots == t.roots,
            tables@.keys == keys_written(t.keys, given.take(i as int), root@, now as int),
            tables@.affinity == affinity_bound(
                t.affinity,
                given.take(i as int),
                account_id,
                generation as int,
                now as int,
            ),
        decreases keys.len() - i,
    {
        let key = &keys[i];
        let ghost k0 = tables@.keys;
        let ghost m0 = tables@.affinity;
        proof {
            one_more_key(given, i as int);
        }
        tables.keys.insert(
            &key.key_hash,
            KeyRow { root_key_hash: root.to_owned(), kind: key.kind.clone(), updated_at: now },
        );
        assert(tables@.keys =~= keys_written(
            t.keys,
            given.take(i as int + 1),
            root@,
            now as int,
        ));
        let newer = match tables.affinity.get(&key.key_hash) {
            Some(row) => row.route_generation > generation,
            None => false,
        };
        if !newer {
            tables.affinity.insert(
                &key.key_hash,
                AffinityRow {
                    kind: key.kind.clone(),
                    account_id,
                    route_generation: generation,
                    last_used_at: now,
                },
            );
        }
        assert(tables@.affinity =~= affinity_bound(
            t.affinity,
            given.take(i as int + 1),
            account_id,
            generation as int,
            now as int,
        ));
        i += 1;
    }
    assert(given.take(given.len() as int) =~= given);
}

/// Moves all bindings of a session's aliases to one account.
fn move_session(
    tables: &mut RouteTables,
    root: &str,
    account_id: u128,
    generation: i64,
    now: i64,
)
    requires
        old(tables).wf(),
        generation >= 0,
    ensures
        final(tables).wf(),
        final(tables)@.roots == old(tables)@.roots,
        final(tables)@.keys == old(tables)@.keys,
        final(tables)@.affinity == affinity_moved(
            old(tables)@.affinity,
            old(tables)@.keys,
            root@,
            account_id,
            generation as int,
            now as int,
        ),
{
    let ghost t = tables@;
    let ghost rows = tables.keys.keys();
    let count: usize = tables.keys.len();
    let mut n: usize = 0;
    while n < count
        invariant
            n <= count == tables.keys.keys().len(),
            rows == tables.keys.keys(),
            generation >= 0,
            tables.wf(),
            tables@.roots == t.roots,
            tables@.keys == t.keys,
            forall|h: Seq<char>| #[trigger] tables@.affinity.contains_key(h) <==> t.affinity.contains_key(h),
            forall|h: Seq<char>| #[trigger]
                t.affinity.contains_key(h) ==> tables@.affinity[h] == if rows.take(
                    n as int,
                ).contains(h) && t.keys[h].root == root@ {
                    AffinityView {
                        kind: t.affinity[h].kind,
                        account: account_id,
                        generation: generation as int,
                        last_used_at: now as int,
                    }
                } else {
                    t.affinity[h]
                },
        decreases count - n,
    {
        let ghost m0 = tables@.affinity;
        let hash = tables.keys.key(n).clone();
        proof {
            let p = rows.take(n as int);
            let q = rows.take(n as int + 1);
            assert(q =~= p.push(hash@));
            assert forall|h: Seq<char>| q.contains(h) <==> p.contains(h) || h == hash@ by {
                if p.contains(h) {
                    let k = p.index_of(h);
                    assert(q[k] == h);
                }
                if h == hash@ {
                    assert(q[n as int] == h);
                }
            }
            if p.contains(hash@) {
                let k = p.index_of(hash@);
                assert(rows[k] == rows[n as int]);
            }
        }
        if same(&tables.keys.value(n).root_key_hash, root) {
            let kind = match tables.affinity.get(&hash) {
                Some(row) => Some(row.kind.clone()),
                None => None,
            };
            if let Some(kind) = kind {
                tables.affinity.insert(
                    &hash,
                    AffinityRow {
                        kind,
                        account_id,
                        route_generation: generation,
                        last_used_at: now,
                    },
                );
            }
        }
        n += 1;
    }
    proof {
        assert(rows.take(rows.len() as int) =~= rows);
        assert(tables@.affinity =~= affinity_moved(
            t.affinity,
            t.keys,
            root@,
            account_id,
            generation as int,
            now as int,
        ));
    }
}

/// Binds keys at an epoch.
fn bind_at_epoch(
    tables: &mut RouteTables,
    keys: &Vec<SessionRouteKey>,
    account_id: u128,
    epoch: &SessionRouteEpoch,
    now: i64,
) -> (r: bool)
    requires
        old(tables).wf(),
        distinct_hashes(key_views(keys@)),
    ensures
        final(tables).wf(),
        r == !epoch_refuses(old(tables)@, key_views(keys@), epoch@),
        final(tables)@ == if r {
            bound_at_epoch(old(tables)@, key_views(keys@), account_id, epoch@, now as int)
        } else {
            old(tables)@
        },
{
    let ghost t = tables@;
    let ghost given = key_views(keys@);
    let row = match tables.roots.get(&epoch.root_key_hash) {
        Some(row) => RootRow {
            route_generation: row.route_generation,
            last_action: clone_opt(&row.last_action),
            requested_account_id: row.requested_account_id,
            effective_account_id: row.effective_account_id,
            action_status: clone_opt(&row.action_status),
            updated_at: row.updated_at,
        },
        None => return false,
    };
    if row.route_generation != epoch.route_generation {
        return false;
    }
    let mut i: usize = 0;
    while i < keys.len()
        invariant
            i <= keys.len(),
            given == key_views(keys@),
            tables.wf(),
            tables == old(tables),
            tables@ == t,
            forall|j: int| 0 <= j < i ==> !#[trigger] maps_elsewhere(t, given, epoch@.root, j),
        decreases keys.len() - i,
    {
        if let Some(stored) = tables.keys.get(&keys[i].key_hash) {
            if !same(&stored.root_key_hash, &epoch.root_key_hash) {
                assert(maps_elsewhere(t, given, epoch@.root, i as int));
                return false;
            }
        }
        assert(!maps_elsewhere(t, given, epoch@.root, i as int));
        i += 1;
    }
    assert(!epoch_refuses(t, given, epoch@));
    write_at_epoch(
        tables,
        keys,
        &epoch.root_key_hash,
        account_id,
        epoch.route_generation,
        now,
    );
    let rerouted = match &row.last_action {
        Some(action) => same(action, "reroute"),
        None => false,
    };
    if rerouted && row.effective_account_id != Some(account_id) {
        move_session(tables, &epoch.root_key_hash, account_id, epoch.route_generation, now);
        let status = if row.requested_account_id == Some(account_id) {
            "applied"
        } else {
            "fallback"
        };
        tables.roots.insert(
            &epoch.root_key_hash,
            RootRow {
                route_generation: row.route_generation,
                last_action: row.last_action,
                requested_account_id: row.requested_account_id,
                effective_account_id: Some(account_id),
                action_status: Some(status.to_owned()),
                updated_at: now,
            },
        );
        assert(tables@.roots =~= bound_at_epoch(
            t,
            given,
            account_id,
            epoch@,
            now as int,
        ).roots);
    }
    true
}

fn first_session_id(keys: &Vec<SessionRouteKey>) -> (r: usize)
    requires
        keys.len() > 0,
    ensures
        r < keys.len(),
        key_views(keys@)[r as int].hash == preferred_root(key_views(keys@)),
{
    let ghost given = key_views(keys@);
    let mut i: usize = 0;
    while i < keys.len()
        invariant
            i <= keys.len(),
            given == key_views(keys@),
            forall|j: int| 0 <= j < i ==> !#[trigger] is_session_id(given, j),
        decreases keys.len() - i,
    {
        if same(&keys[i].kind, "session_id") {
            proof {
                assert(is_session_id(given, i as int));
                let c = choose|c: int|
                    is_session_id(given, c) && forall|j: int|
                        0 <= j < c ==> !is_session_id(given, j);
                assert(is_session_id(given, c) && forall|j: int|
                    0 <= j < c ==> !is_session_id(given, j));
                assert(c == i);
            }
            return i;
        }
        assert(!is_session_id(given, i as int));
        i += 1;
    }
    0
}

/// Writes one key under a session, unless it is stored under another, and binds it.
fn bind_fresh(
    tables: &mut RouteTables,
    key: &SessionRouteKey,
    root: &str,
    account_id: u128,
    now: i64,
)
    requires
        old(tables).wf(),
    ensures
        final(tables).wf(),
        final(tables)@.roots == old(tables)@.roots,
        final(tables)@.keys == if old(tables)@.keys.contains_key(key@.hash) && old(
            tables,
        )@.keys[key@.hash].root != root@ {
            old(tables)@.keys
        } else {
            old(tables)@.keys.insert(
                key@.hash,
                KeyView { root: root@, kind: key@.kind, updated_at: now as int },
            )
        },
        final(tables)@.affinity == old(tables)@.affinity.insert(
            key@.hash,
            AffinityView {
                kind: key@.kind,
                account: account_id,
                generation: if old(tables)@.affinity.contains_key(key@.hash) {
                    old(tables)@.affinity[key@.hash].generation
                } else {
                    0
                },
                last_used_at: now as int,
            },
        ),
{
    let generation: i64 = match tables.affinity.get(&key.key_hash) {
        Some(row) => {
            assert(tables@.affinity.contains_key(key.key_hash@));
            row.route_generation
        },
        None => 0,
    };
    let foreign = match tables.keys.get(&key.key_hash) {
        Some(stored) => !same(&stored.root_key_hash, root),
        None => false,
    };
    tables.affinity.insert(
        &key.key_hash,
        AffinityRow {
            kind: key.kind.clone(),
            account_id,
            route_generation: generation,
            last_used_at: now,
        },
    );
    if !foreign {
        tables.keys.insert(
            &key.key_hash,
            KeyRow { root_key_hash: root.to_owned(), kind: key.kind.clone(), updated_at: now },
        );
    }
}

/// Binds keys without an epoch.
#[verifier::spinoff_prover]
fn bind_without_epoch(
    tables: &mut RouteTables,
    keys: &Vec<SessionRouteKey>,
    account_id: u128,
    now: i64,
) -> (r: bool)
    requires
        old(tables).wf(),
        keys.len() > 0,
        distinct_hashes(key_views(keys@)),
    ensures
        final(tables).wf(),
        r == !claimed(
            old(tables)@.keys,
            roots_with(old(tables)@.roots, preferred_root(key_views(keys@)), now as int),
            key_views(keys@),
        ),
        final(tables)@ == if r {
            bound_without_epoch(old(tables)@, key_views(keys@), account_id, now as int)
        } else {
            old(tables)@
        },
{
    let ghost t = tables@;
    let ghost given = key_views(keys@);
    let first = first_session_id(keys);
    let preferred = keys[first].key_hash.clone();
    let known = tables.roots.contains(&preferred);
    let ghost m = roots_with(t.roots, preferred@, now as int);
    let mut root: Option<String> = None;
    let mut i: usize = 0;
    while i < keys.len()
        invariant
            i <= keys.len(),
            given == key_views(keys@),
            tables.wf(),
            tables == old(tables),
            tables@ == t,
            preferred@ == preferred_root(given),
            known == t.roots.contains_key(preferred@),
            m == roots_with(t.roots, preferred@, now as int),
            forall|j: int|
                0 <= j < i && #[trigger] maps_to(t.keys, m, given, j) ==> root is Some && !commanded(
                    m[t.keys[given[j].hash].root],
                ) && t.keys[given[j].hash].root == root->0@,
            root is Some ==> exists|j: int|
                0 <= j < i && maps_to(t.keys, m, given, j) && t.keys[given[j].hash].root
                    == root->0@,
        decreases keys.len() - i,
    {
        if let Some(stored) = tables.keys.get(&keys[i].key_hash) {
            let (present, commanded_row) = match tables.roots.get(&stored.root_key_hash) {
                Some(row) => (true, row.route_generation != 0 || row.last_action.is_some()),
                None => (same(&stored.root_key_hash, &preferred), false),
            };
            if present {
                assert(maps_to(t.keys, m, given, i as int));
                if commanded_row {
                    return false;
                }
                match &root {
                    Some(other) => {
                        if !same(other, &stored.root_key_hash) {
                            proof {
                                let j = choose|j: int|
                                    0 <= j < i && maps_to(t.keys, m, given, j)
                                        && t.keys[given[j].hash].root == root->0@;
                                assert(maps_to(t.keys, m, given, j) && maps_to(
                                    t.keys,
                                    m,
                                    given,
                                    i as int,
                                ));
                            }
                            return false;
                        }
                    },
                    None => {
                        root = Some(stored.root_key_hash.clone());
                    },
                }
            }
        }
        i += 1;
    }
    assert(!claimed(t.keys, m, given));
    let root = match root {
        Some(root) => {
            proof {
                let j = choose|j: int|
                    0 <= j < given.len() && maps_to(t.keys, m, given, j)
                        && t.keys[given[j].hash].root == root@;
                assert(maps_to(t.keys, m, given, j));
                let c = choose|c: int| maps_to(t.keys, m, given, c);
                assert(maps_to(t.keys, m, given, c));
            }
            root
        },
        None => preferred.clone(),
    };
    assert(root@ == mapped_root(t.keys, m, given));
    let mut dangling = false;
    let mut n: usize = 0;
    while n < tables.keys.len()
        invariant
            n <= tables.keys.keys().len(),
            tables.wf(),
            tables == old(tables),
            tables@ == t,
            dangling <==> exists|j: int|
                0 <= j < n && key_of_root(t.keys, preferred@, #[trigger] tables.keys.keys()[j]),
        decreases tables.keys.keys().len() - n,
    {
        if same(&tables.keys.value(n).root_key_hash, &preferred) {
            assert(key_of_root(t.keys, preferred@, tables.keys.keys()[n as int]));
            dangling = true;
        }
        n += 1;
    }
    assert(dangling <==> exists|h: Seq<char>| key_of_root(t.keys, preferred@, h)) by {
        if exists|h: Seq<char>| key_of_root(t.keys, preferred@, h) {
            let h = choose|h: Seq<char>| key_of_root(t.keys, preferred@, h);
            let j = tables.keys.keys().index_of(h);
            assert(key_of_root(t.keys, preferred@, tables.keys.keys()[j]));
        }
    }
    if !known && (same(&root, &preferred) || dangling) {
        tables.roots.insert(
            &preferred,
            RootRow {
                route_generation: 0,
                last_action: None,
                requested_account_id: None,
                effective_account_id: None,
                action_status: None,
                updated_at: now,
            },
        );
    }
    let ghost want = bound_without_epoch(t, given, account_id, now as int);
    assert(tables@.roots == want.roots);
    let mut k: usize = 0;
    assert(tables@.keys == t.keys);
    while k < keys.len()
        invariant
            k <= keys.len(),
            given == key_views(keys@),
            distinct_hashes(given),
            want == bound_without_epoch(t, given, account_id, now as int),
            root@ == mapped_root(
                t.keys,
                roots_with(t.roots, preferred_root(given), now as int),
                given,
            ),
            t.sound(),
            tables.wf(),
            tables@.roots == want.roots,
            forall|h: Seq<char>| #[trigger]
                tables@.keys.contains_key(h) <==> t.keys.contains_key(h) || has_hash(
                    given.take(k as int),
                    h,
                ),
            forall|h: Seq<char>| #[trigger]
                tables@.keys.contains_key(h) ==> tables@.keys[h] == if has_hash(
                    given.take(k as int),
                    h,
                ) {
                    want.keys[h]
                } else {
                    t.keys[h]
                },
            forall|h: Seq<char>| #[trigger]
                tables@.affinity.contains_key(h) <==> t.affinity.contains_key(h) || has_hash(
                    given.take(k as int),
                    h,
                ),
            forall|h: Seq<char>| #[trigger]
                tables@.affinity.contains_key(h) ==> tables@.affinity[h] == if has_hash(
                    given.take(k as int),
                    h,
                ) {
                    want.affinity[h]
                } else {
                    t.affinity[h]
                },
        decreases keys.len() - k,
    {
        let key = &keys[k];
        proof {
            one_more_key(given, k as int);
            assert(hash_at(given, key.key_hash@, k as int));
            kind_is_unique(given, key.key_hash@, k as int);
            assert(want.keys.contains_key(key.key_hash@));
            assert(!has_hash(given.take(k as int), key.key_hash@));
        }
        let ghost stored = tables@.keys;
        bind_fresh(tables, key, &root, account_id, now);
        proof {
            assert(stored.contains_key(key.key_hash@) <==> t.keys.contains_key(key.key_hash@));
            assert(tables@.keys[key.key_hash@] == want.keys[key.key_hash@]);
        }
        k += 1;
    }
    proof {
        assert(given.take(given.len() as int) =~= given);
        assert(tables@.keys =~= want.keys);
        assert(tables@.affinity =~= want.affinity);
    }
    true
}

/// Binds keys to the account that served them, only while their epoch is current. Without an epoch
/// they are bound only while no command is known for their session. False where a binding is
/// refused: the request has to be routed anew.
pub fn bind_affinities_at_epoch(
    tables: &mut RouteTables,
    keys: &Vec<SessionRouteKey>,
    account_id: u128,
    epoch: Option<&SessionRouteEpoch>,
    now: i64,
) -> (r: Result<bool, AppError>)
    requires
        old(tables).wf(),
    ensures
        final(tables).wf(),
        match r {
            Err(e) => {
                &&& e@.0 == AppErrorKind::BadRequest
                &&& if keys.len() > 500 {
                    e@.1 == too_many_keys()
                } else {
                    checked_keys(key_views(keys@)) == Err::<Seq<RouteKeyView>, Seq<char>>(e@.1)
                }
                &&& final(tables)@ == old(tables)@
            },
            Ok(done) => {
                &&& keys.len() <= 500
                &&& checked_keys(key_views(keys@)) is Ok
                &&& ({
                    let outcome = after_binding(
                        old(tables)@,
                        checked_keys(key_views(keys@))->Ok_0,
                        account_id,
                        epoch_view(epoch),
                        now as int,
                    );
                    done == (outcome is Some) && final(tables)@ == match outcome {
                        Some(t) => t,
                        None => old(tables)@,
                    }
                })
            },
        },
{
    let checked = match validate_session_route_keys(keys) {
        Ok(checked) => checked,
        Err(error) => return Err(error),
    };
    if checked.len() == 0 {
        return Ok(true);
    }
    let done = match epoch {
        Some(e) => bind_at_epoch(tables, &checked, account_id, e, now),
        None => bind_without_epoch(tables, &checked, account_id, now),
    };
    Ok(done)
}

/// Binds one key without an epoch.
pub fn bind_affinity(
    tables: &mut RouteTables,
    key_hash: &str,
    kind: &str,
    account_id: u128,
    now: i64,
) -> (r: Result<(), AppError>)
    requires
        old(tables).wf(),
    ensures
        final(tables).wf(),
        ({
            let keys = seq![RouteKeyView { hash: key_hash@, kind: kind@ }];
            match r {
                Err(e) => e@.0 == AppErrorKind::BadRequest && checked_keys(keys) == Err::<
                    Seq<RouteKeyView>,
                    Seq<char>,
                >(e@.1) && final(tables)@ == old(tables)@,
                Ok(_) => checked_keys(keys) is Ok && final(tables)@ == match after_binding(
                    old(tables)@,
                    checked_keys(keys)->Ok_0,
                    account_id,
                    None,
                    now as int,
                ) {
                    Some(t) => t,
                    None => old(tables)@,
                },
            }
        }),
{
    let mut keys: Vec<SessionRouteKey> = Vec::new();
    keys.push(SessionRouteKey { key_hash: key_hash.to_owned(), kind: kind.to_owned() });
    assert(key_views(keys@) =~= seq![RouteKeyView { hash: key_hash@, kind: kind@ }]);
    match bind_affinities_at_epoch(tables, &keys, account_id, None, now) {
        Ok(_) => Ok(()),
        Err(error) => Err(error),
    }
}

} // verus!
