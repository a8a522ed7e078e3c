//! The live connections of each session, and telling them to connect anew when their session moves.
use vstd::prelude::*;
use vstd::std_specs::hash::spec_hash_keys_iter;
use vstd::std_specs::iter::IteratorSpec;
use std::collections::{HashMap, HashSet};
use crate::table::Table;
use crate::text::{before, before_is_strict, before_is_transitive, comes_before, same, views};

verus! {

/// Tells a connection that its session has moved to a newer generation.
#[derive(Debug, Clone, Copy, PartialEq, Eq, Structural)]
pub struct SessionRerouteSignal {
    pub generation: i64,
}

/// The live connections of a session, and the accounts that serve them.
#[derive(Debug)]
pub struct SessionConnectionSnapshot {
    pub connection_count: usize,
    pub account_ids: Vec<u128>,
}

/// What came of a signal.
#[derive(Debug)]
pub struct SessionSignalResult {
    pub matching_connections: usize,
    pub signaled_connections: usize,
    pub account_ids: Vec<u128>,
}

/// A live connection.
#[derive(Debug)]
pub struct ConnectionEntry {
    pub root_key_hash: String,
    pub aliases: Vec<String>,
    pub account_id: u128,
    pub generation: i64,
    pub signal: Option<SessionRerouteSignal>,
}

pub struct ConnectionView {
    pub root: Seq<char>,
    pub aliases: Set<Seq<char>>,
    pub account: u128,
    pub generation: i64,
    pub signal: Option<SessionRerouteSignal>,
}

impl View for ConnectionEntry {
    type V = ConnectionView;

    open spec fn view(&self) -> ConnectionView {
        ConnectionView {
            root: self.root_key_hash@,
            aliases: views(self.aliases@).to_set(),
            account: self.account_id,
            generation: self.generation,
            signal: self.signal,
        }
    }
}

/// The live connections of all sessions.
pub struct SessionConnectionRegistry {
    next_token: u64,
    connections: HashMap<u64, ConnectionEntry>,
    connections_by_key: Table<HashSet<u64>>,
    root_by_key: Table<String>,
    generation_by_root: Table<i64>,
}

pub struct RegistryView {
    /// The token given out last.
    pub last_token: u64,
    pub connections: Map<u64, ConnectionView>,
    /// The connections known under each alias.
    pub by_key: Map<Seq<char>, Set<u64>>,
    /// The session that each alias belongs to.
    pub roots: Map<Seq<char>, Seq<char>>,
    /// The newest generation that each session was moved to.
    pub generations: Map<Seq<char>, i64>,
}

impl View for SessionConnectionRegistry {
    type V = RegistryView;

    closed spec fn view(&self) -> RegistryView {
        RegistryView {
            last_token: self.next_token,
            connections: Map::new(
                |t: u64| self.connections@.contains_key(t),
                |t: u64| self.connections@[t]@,
            ),
            by_key: self.connections_by_key.map(),
            roots: self.root_by_key.map(),
            generations: self.generation_by_root.map(),
        }
    }
}

/// The token after the given one: tokens count up, and zero is none.
pub open spec fn token_after(last: u64) -> u64 {
    if last == u64::MAX {
        1
    } else {
        (last + 1) as u64
    }
}

pub open spec fn tokens_of(by_key: Map<Seq<char>, Set<u64>>, key: Seq<char>) -> Set<u64> {
    if by_key.contains_key(key) {
        by_key[key]
    } else {
        Set::empty()
    }
}

impl RegistryView {
    /// Whether `x` is the session of one of the aliases.
    pub open spec fn mapped(self, aliases: Set<Seq<char>>, x: Seq<char>) -> bool {
        exists|k: Seq<char>|
            aliases.contains(k) && #[trigger] self.roots.contains_key(k) && self.roots[k] == x
    }

    /// Whether `x` is the first, in the order of texts, of the sessions of the aliases.
    pub open spec fn least_mapped(self, aliases: Set<Seq<char>>, x: Seq<char>) -> bool {
        self.mapped(aliases, x) && forall|y: Seq<char>| #[trigger]
            self.mapped(aliases, y) ==> !before(y, x)
    }

    /// The session that a new connection belongs to: that of its root, else that of one of its
    /// aliases, else its root.
    pub open spec fn canonical(self, root: Seq<char>, aliases: Set<Seq<char>>) -> Seq<char> {
        if self.roots.contains_key(root) {
            self.roots[root]
        } else if exists|x: Seq<char>| self.mapped(aliases, x) {
            choose|x: Seq<char>| self.least_mapped(aliases, x)
        } else {
            root
        }
    }

    /// The registry with one more connection.
    pub open spec fn registered(
        self,
        root: Seq<char>,
        given: Set<Seq<char>>,
        account: u128,
        generation: i64,
    ) -> RegistryView {
        let session = self.canonical(root, given);
        let aliases = given.insert(session);
        let token = token_after(self.last_token);
        let current = if self.generations.contains_key(session) {
            self.generations[session]
        } else {
            generation
        };
        RegistryView {
            last_token: token,
            connections: self.connections.insert(
                token,
                ConnectionView {
                    root: session,
                    aliases,
                    account,
                    generation,
                    signal: if generation < current {
                        Some(SessionRerouteSignal { generation: current })
                    } else {
                        None
                    },
                },
            ),
            by_key: Map::new(
                |k: Seq<char>| self.by_key.contains_key(k) || aliases.contains(k),
                |k: Seq<char>|
                    if aliases.contains(k) {
                        tokens_of(self.by_key, k).insert(token)
                    } else {
                        self.by_key[k]
                    },
            ),
            roots: Map::new(
                |k: Seq<char>| self.roots.contains_key(k) || aliases.contains(k),
                |k: Seq<char>|
                    if self.roots.contains_key(k) {
                        self.roots[k]
                    } else {
                        session
                    },
            ),
            generations: self.generations,
        }
    }

    /// Whether a key leads to the connections of a session: it is given, or is the session of one
    /// that is.
    pub open spec fn leads(self, root: Seq<char>, aliases: Set<Seq<char>>, k: Seq<char>) -> bool {
        k == root || aliases.contains(k) || self.mapped(aliases.insert(root), k)
    }

    /// The connections known under a session's keys.
    pub open spec fn matching(self, root: Seq<char>, aliases: Set<Seq<char>>) -> Set<u64> {
        Set::new(
            |t: u64|
                exists|k: Seq<char>|
                    self.leads(root, aliases, k) && #[trigger] tokens_of(self.by_key, k).contains(
                        t,
                    ),
        )
    }

    pub open spec fn serves(self, tokens: Set<u64>, account: u128) -> bool {
        exists|t: u64|
            #[trigger] tokens.contains(t) && self.connections.contains_key(t)
                && self.connections[t].account == account
    }

    /// The connections that a signal reaches: those that are live and of an older generation.
    pub open spec fn outdated(self, tokens: Set<u64>, generation: i64) -> Set<u64> {
        Set::new(
            |t: u64|
                tokens.contains(t) && self.connections.contains_key(t)
                    && self.connections[t].generation < generation,
        )
    }

    /// The registry after a session has moved.
    pub open spec fn signaled(
        self,
        root: Seq<char>,
        aliases: Set<Seq<char>>,
        generation: i64,
    ) -> RegistryView {
        let tokens = self.matching(root, aliases);
        RegistryView {
            last_token: self.last_token,
            connections: Map::new(
                |t: u64| self.connections.contains_key(t),
                |t: u64|
                    if tokens.contains(t) {
                        ConnectionView {
                            root,
                            signal: if self.connections[t].generation < generation {
                                Some(SessionRerouteSignal { generation })
                            } else {
                                self.connections[t].signal
                            },
                            ..self.connections[t]
                        }
                    } else {
                        self.connections[t]
                    },
            ),
            by_key: if tokens == Set::<u64>::empty() {
                self.by_key
            } else {
                self.by_key.insert(root, tokens_of(self.by_key, root).union(tokens))
            },
            roots: Map::new(
                |k: Seq<char>| self.roots.contains_key(k) || k == root || aliases.contains(k),
                |k: Seq<char>|
                    if k == root || aliases.contains(k) {
                        root
                    } else {
                        self.roots[k]
                    },
            ),
            generations: self.generations.insert(
                root,
                if self.generations.contains_key(root) && self.generations[root] > generation {
                    self.generations[root]
                } else {
                    generation
                },
            ),
        }
    }

    /// The registry without a connection.
    pub open spec fn unregistered(self, token: u64) -> RegistryView {
        if !self.connections.contains_key(token) {
            self
        } else {
            let c = self.connections[token];
            let keys = c.aliases.insert(c.root);
            RegistryView {
                connections: self.connections.remove(token),
                by_key: Map::new(
                    |k: Seq<char>|
                        self.by_key.contains_key(k) && !(keys.contains(k)
                            && self.by_key[k].remove(token) == Set::<u64>::empty()),
                    |k: Seq<char>|
                        if keys.contains(k) {
                            self.by_key[k].remove(token)
                        } else {
                            self.by_key[k]
                        },
                ),
                ..self
            }
        }
    }

    /// Each live connection is known under its session and all its aliases.
    pub open spec fn indexed(self) -> bool {
        forall|t: u64, k: Seq<char>|
            #![trigger self.connections.contains_key(t), tokens_of(self.by_key, k)]
            self.connections.contains_key(t) && (k == self.connections[t].root
                || self.connections[t].aliases.contains(k)) ==> tokens_of(self.by_key, k).contains(
                t,
            )
    }
}

/// A registered connection stays known under its session and its aliases, through whatever is
/// registered, moved or removed besides it.
pub proof fn connections_stay_indexed(
    r: RegistryView,
    root: Seq<char>,
    aliases: Set<Seq<char>>,
    account: u128,
    generation: i64,
    token: u64,
)
    requires
        r.indexed(),
    ensures
        !r.connections.contains_key(token_after(r.last_token)) ==> r.registered(
            root,
            aliases,
            account,
            generation,
        ).indexed(),
        r.signaled(root, aliases, generation).indexed(),
        r.unregistered(token).indexed(),
{
    let a = r.registered(root, aliases, account, generation);
    let b = r.signaled(root, aliases, generation);
    let c = r.unregistered(token);
    let fresh = token_after(r.last_token);
    if !r.connections.contains_key(fresh) {
        assert forall|t: u64, k: Seq<char>|
            #![trigger a.connections.contains_key(t), tokens_of(a.by_key, k)]
            a.connections.contains_key(t) && (k == a.connections[t].root
                || a.connections[t].aliases.contains(k)) implies tokens_of(a.by_key, k).contains(
            t,
        ) by {
            if t != fresh {
                assert(r.connections.contains_key(t));
                assert(tokens_of(r.by_key, k).contains(t));
            }
        }
    }
    let moved = r.matching(root, aliases);
    assert forall|t: u64, k: Seq<char>|
        #![trigger b.connections.contains_key(t), tokens_of(b.by_key, k)]
        b.connections.contains_key(t) && (k == b.connections[t].root
            || b.connections[t].aliases.contains(k)) implies tokens_of(b.by_key, k).contains(t) by {
        assert(r.connections.contains_key(t));
        if moved.contains(t) {
            if k == root {
                assert(moved != Set::<u64>::empty());
            } else {
                assert(tokens_of(r.by_key, k).contains(t));
            }
        } else {
            assert(tokens_of(r.by_key, k).contains(t));
        }
    }
    if r.connections.contains_key(token) {
        assert forall|t: u64, k: Seq<char>|
            #![trigger c.connections.contains_key(t), tokens_of(c.by_key, k)]
            c.connections.contains_key(t) && (k == c.connections[t].root
                || c.connections[t].aliases.contains(k)) implies tokens_of(c.by_key, k).contains(
            t,
        ) by {
            assert(r.connections.contains_key(t));
            assert(tokens_of(r.by_key, k).contains(t));
            assert(r.by_key[k].remove(token).contains(t));
        }
    }
}

/// A connection that was made for an older generation than its session has reached is told so from
/// the start.
pub proof fn late_connections_start_signaled(
    r: RegistryView,
    root: Seq<char>,
    aliases: Set<Seq<char>>,
    account: u128,
    generation: i64,
)
    requires
        r.generations.contains_key(r.canonical(root, aliases)),
        generation < r.generations[r.canonical(root, aliases)],
    ensures
        r.registered(root, aliases, account, generation).connections[token_after(
            r.last_token,
        )].signal == Some(
            SessionRerouteSignal { generation: r.generations[r.canonical(root, aliases)] },
        ),
{
}

/// A signal reaches every live connection of the session that is of an older generation, and no
/// session goes back to an older generation.
pub proof fn signals_reach_outdated_connections(
    r: RegistryView,
    root: Seq<char>,
    aliases: Set<Seq<char>>,
    generation: i64,
    token: u64,
    key: Seq<char>,
)
    ensures
        r.outdated(r.matching(root, aliases), generation).contains(token) ==> r.signaled(
            root,
            aliases,
            generation,
        ).connections[token].signal == Some(SessionRerouteSignal { generation }),
        r.generations.contains_key(key) ==> r.signaled(root, aliases, generation).generations[key]
            >= r.generations[key],
        r.signaled(root, aliases, generation).generations[root] >= generation,
{
}

/// A connection that is removed is no longer known under its session or its aliases.
pub proof fn removed_connections_are_gone(r: RegistryView, token: u64, key: Seq<char>)
    requires
        r.connections.contains_key(token),
        key == r.connections[token].root || r.connections[token].aliases.contains(key),
    ensures
        !r.unregistered(token).connections.contains_key(token),
        !tokens_of(r.unregistered(token).by_key, key).contains(token),
{
}

/// A copy of a list of texts without repetitions.
fn distinct(list: &Vec<String>) -> (r: Vec<String>)
    ensures
        views(r@).to_set() == views(list@).to_set(),
        views(r@).no_duplicates(),
{
    let mut out: Vec<String> = Vec::new();
    let mut i: usize = 0;
    assert(views(out@).to_set() =~= views(list@).take(0).to_set());
    while i < list.len()
        invariant
            i <= list.len(),
            views(out@).no_duplicates(),
            views(out@).to_set() == views(list@).take(i as int).to_set(),
        decreases list.len() - i,
    {
        let ghost p = views(list@).take(i as int);
        let ghost q = views(list@).take(i as int + 1);
        let ghost kept = views(out@);
        proof {
            assert(q =~= p.push(list@[i as int]@));
            grown_set(p, list@[i as int]@);
        }
        if !holds(&out, &list[i]) {
            out.push(list[i].clone());
            proof {
                assert(views(out@) =~= kept.push(list@[i as int]@));
                grown_set(kept, list@[i as int]@);
                assert(!kept.contains(list@[i as int]@));
            }
        } else {
            assert(kept.to_set().insert(list@[i as int]@) =~= kept.to_set());
        }
        i += 1;
    }
    assert(views(list@).take(views(list@).len() as int) =~= views(list@));
    out
}

proof fn grown_set(s: Seq<Seq<char>>, x: Seq<char>)
    ensures
        s.push(x).to_set() == s.to_set().insert(x),
{
    let t = s.push(x);
    assert forall|y: Seq<char>| t.to_set().contains(y) <==> s.to_set().insert(x).contains(y) by {
        if s.contains(y) {
            let k = s.index_of(y);
            assert(t[k] == y);
        }
        if y == x {
            assert(t[s.len() as int] == y);
        }
    }
    assert(t.to_set() =~= s.to_set().insert(x));
}

fn holds(list: &Vec<String>, item: &str) -> (r: bool)
    ensures
        r == views(list@).contains(item@),
{
    let mut i: usize = 0;
    while i < list.len()
        invariant
            i <= list.len(),
            forall|j: int| 0 <= j < i ==> #[trigger] views(list@)[j] != item@,
        decreases list.len() - i,
    {
        if same(&list[i], item) {
            assert(views(list@)[i as int] == item@);
            return true;
        }
        assert(views(list@)[i as int] != item@);
        i += 1;
    }
    false
}

impl SessionConnectionRegistry {
    pub closed spec fn wf(&self) -> bool {
        &&& self.connections_by_key.wf()
        &&& self.root_by_key.wf()
        &&& self.generation_by_root.wf()
    }

    pub fn new() -> (r: SessionConnectionRegistry)
        ensures
            r.wf(),
            r@ == (RegistryView {
                last_token: 0,
                connections: Map::empty(),
                by_key: Map::empty(),
                roots: Map::empty(),
                generations: Map::empty(),
            }),
            r@.indexed(),
    {
        broadcast use vstd::std_specs::hash::group_hash_axioms;

        let r = SessionConnectionRegistry {
            next_token: 0,
            connections: HashMap::new(),
            connections_by_key: Table::new(),
            root_by_key: Table::new(),
            generation_by_root: Table::new(),
        };
        assert(r@.connections =~= Map::empty());
        r
    }

    /// The session that a new connection belongs to.
    fn canonical_root(&self, root: &str, aliases: &Vec<String>) -> (r: String)
        requires
            self.wf(),
        ensures
            r@ == self@.canonical(root@, views(aliases@).to_set()),
    {
        let ghost set = views(aliases@).to_set();
        if let Some(session) = self.root_by_key.get(root) {
            return session.clone();
        }
        let mut least: Option<String> = None;
        let mut i: usize = 0;
        while i < aliases.len()
            invariant
                i <= aliases.len(),
                self.wf(),
                set == views(aliases@).to_set(),
                match least {
                    None => forall|j: int|
                        0 <= j < i ==> !self@.roots.contains_key(#[trigger] views(aliases@)[j]),
                    Some(x) => self@.mapped(set, x@) && forall|j: int|
                        0 <= j < i && self@.roots.contains_key(#[trigger] views(aliases@)[j])
                            ==> !before(self@.roots[views(aliases@)[j]], x@),
                },
            decreases aliases.len() - i,
        {
            assert(views(aliases@)[i as int] == aliases@[i as int]@);
            if let Some(session) = self.root_by_key.get(&aliases[i]) {
                proof {
                    assert(set.contains(views(aliases@)[i as int]));
                    assert(self@.roots.contains_key(aliases@[i as int]@));
                    assert(self@.mapped(set, session@));
                }
                match &least {
                    None => {
                        proof {
                            before_is_strict(session@, session@);
                        }
                        least = Some(session.clone());
                    },
                    Some(x) => {
                        if comes_before(session, x) {
                            proof {
                                assert forall|j: int|
                                    0 <= j < i + 1 && self@.roots.contains_key(
                                        #[trigger] views(aliases@)[j],
                                    ) implies !before(
                                    self@.roots[views(aliases@)[j]],
                                    session@,
                                ) by {
                                    let y = self@.roots[views(aliases@)[j]];
                                    before_is_strict(session@, session@);
                                    if before(y, session@) {
                                        before_is_transitive(y, session@, x@);
                                    }
                                }
                            }
                            least = Some(session.clone());
                        }
                    },
                }
            }
            i += 1;
        }
        match least {
            None => {
                proof {
                    assert forall|x: Seq<char>| !self@.mapped(set, x) by {
                        if self@.mapped(set, x) {
                            let k = choose|k: Seq<char>|
                                set.contains(k) && #[trigger] self@.roots.contains_key(k)
                                    && self@.roots[k] == x;
                            let j = views(aliases@).index_of(k);
                            assert(views(aliases@)[j] == k);
                        }
                    }
                }
                root.to_owned()
            },
            Some(x) => {
                proof {
                    assert forall|y: Seq<char>| #[trigger] self@.mapped(set, y) implies !before(
                        y,
                        x@,
                    ) by {
                        let k = choose|k: Seq<char>|
                            set.contains(k) && #[trigger] self@.roots.contains_key(k)
                                && self@.roots[k] == y;
                        let j = views(aliases@).index_of(k);
                        assert(views(aliases@)[j] == k);
                    }
                    assert(self@.least_mapped(set, x@));
                    let c = choose|c: Seq<char>| self@.least_mapped(set, c);
                    assert(self@.least_mapped(set, c));
                    before_is_strict(c, x@);
                }
                x
            },
        }
    }

    /// Adds a connection, and gives its token and the signal that it starts with.
    #[verifier::spinoff_prover]
    pub fn register(
        &mut self,
        root_key_hash: &str,
        aliases: &Vec<String>,
        account_id: u128,
        generation: i64,
    ) -> (r: (u64, Option<SessionRerouteSignal>))
        requires
            old(self).wf(),
        ensures
            final(self).wf(),
            final(self)@ == old(self)@.registered(
                root_key_hash@,
                views(aliases@).to_set(),
                account_id,
                generation,
            ),
            r.0 == token_after(old(self)@.last_token),
            r.1 == final(self)@.connections[r.0].signal,
    {
        broadcast use vstd::std_specs::hash::group_hash_axioms;

        let ghost before_all = self@;
        let ghost given = views(aliases@).to_set();
        let session = self.canonical_root(root_key_hash, aliases);
        let mut names = distinct(aliases);
        if !holds(&names, &session) {
            let ghost kept = views(names@);
            names.push(session.clone());
            proof {
                assert(views(names@) =~= kept.push(session@));
                grown_set(kept, session@);
            }
        } else {
            assert(views(names@).to_set().insert(session@) =~= views(names@).to_set());
        }
        let ghost all = views(names@);
        assert(all.to_set() == given.insert(session@));
        let current: i64 = match self.generation_by_root.get(&session) {
            Some(n) => *n,
            None => generation,
        };
        let signal = if generation < current {
            Some(SessionRerouteSignal { generation: current })
        } else {
            None
        };
        self.next_token = if self.next_token == u64::MAX {
            1
        } else {
            self.next_token + 1
        };
        let token = self.next_token;
        let mut i: usize = 0;
        while i < names.len()
            invariant
                i <= names.len(),
                self.wf(),
                self.next_token == token,
                token == token_after(before_all.last_token),
                all == views(names@),
                self@.connections == before_all.connections,
                self@.generations == before_all.generations,
                forall|k: Seq<char>| #[trigger]
                    self@.by_key.contains_key(k) <==> before_all.by_key.contains_key(k)
                        || all.take(i as int).contains(k),
                forall|k: Seq<char>| #[trigger]
                    self@.by_key.contains_key(k) ==> self@.by_key[k] == if all.take(
                        i as int,
                    ).contains(k) {
                        tokens_of(before_all.by_key, k).insert(token)
                    } else {
                        before_all.by_key[k]
                    },
                forall|k: Seq<char>| #[trigger]
                    self@.roots.contains_key(k) <==> before_all.roots.contains_key(k) || all.take(
                        i as int,
                    ).contains(k),
                forall|k: Seq<char>| #[trigger]
                    self@.roots.contains_key(k) ==> self@.roots[k]
                        == if before_all.roots.contains_key(k) {
                        before_all.roots[k]
                    } else {
                        session@
                    },
                all.no_duplicates(),
            decreases names.len() - i,
        {
            let ghost p = all.take(i as int);
            let ghost q = all.take(i as int + 1);
            let ghost now = self@;
            proof {
                assert(q =~= p.push(names@[i as int]@));
                pushed(p, names@[i as int]@);
                if p.contains(names@[i as int]@) {
                    let x = p.index_of(names@[i as int]@);
                    assert(all[x] == all[i as int]);
                }
            }
            let mut tokens: HashSet<u64> = match self.connections_by_key.take(&names[i]) {
                Some(set) => set,
                None => HashSet::new(),
            };
            tokens.insert(token);
            let ghost name = names@[i as int]@;
            let ghost known = tokens@;
            self.connections_by_key.insert(&names[i], tokens);
            if !self.root_by_key.contains(&names[i]) {
                self.root_by_key.insert(&names[i], session.clone());
            }
            proof {
                assert(self@.connections == now.connections);
                assert(known == tokens_of(before_all.by_key, name).insert(token)) by {
                    assert(now.by_key.contains_key(name) <==> before_all.by_key.contains_key(name));
                }
                assert(self@.by_key =~= now.by_key.insert(name, known));
                assert(self@.roots == if now.roots.contains_key(name) {
                    now.roots
                } else {
                    now.roots.insert(name, session@)
                });
                assert forall|k: Seq<char>| q.contains(k) <==> p.contains(k) || k == name by {}
                assert forall|k: Seq<char>| #[trigger]
                    self@.by_key.contains_key(k) <==> before_all.by_key.contains_key(k)
                        || q.contains(k) by {
                    assert(now.by_key.contains_key(k) <==> before_all.by_key.contains_key(k)
                        || p.contains(k));
                }
                assert forall|k: Seq<char>| #[trigger]
                    self@.by_key.contains_key(k) implies self@.by_key[k] == if q.contains(k) {
                    tokens_of(before_all.by_key, k).insert(token)
                } else {
                    before_all.by_key[k]
                } by {
                    assert(k == name || now.by_key.contains_key(k));
                }
                assert forall|k: Seq<char>| #[trigger]
                    self@.roots.contains_key(k) <==> before_all.roots.contains_key(k)
                        || q.contains(k) by {
                    assert(now.roots.contains_key(k) <==> before_all.roots.contains_key(k)
                        || p.contains(k));
                }
                assert forall|k: Seq<char>| #[trigger]
                    self@.roots.contains_key(k) implies self@.roots[k]
                    == if before_all.roots.contains_key(k) {
                    before_all.roots[k]
                } else {
                    session@
                } by {
                    assert(k == name || now.roots.contains_key(k));
                }
            }
            i += 1;
        }
        assert(all.take(all.len() as int) =~= all);
        let entry = ConnectionEntry {
            root_key_hash: session,
            aliases: names,
            account_id,
            generation,
            signal,
        };
        let ghost listed = self@;
        self.connections.insert(token, entry);
        proof {
            let want = before_all.registered(root_key_hash@, given, account_id, generation);
            assert(self@.connections =~= want.connections);
            assert(self@.by_key == listed.by_key && self@.roots == listed.roots);
            let names_set = given.insert(before_all.canonical(root_key_hash@, given));
            assert forall|k: Seq<char>| all.contains(k) <==> names_set.contains(k) by {
                assert(all.contains(k) <==> all.to_set().contains(k));
            }
            assert forall|k: Seq<char>| #[trigger]
                self@.by_key.contains_key(k) <==> want.by_key.contains_key(k) by {
                assert(listed.by_key.contains_key(k) <==> before_all.by_key.contains_key(k)
                    || all.contains(k));
            }
            assert forall|k: Seq<char>| #[trigger]
                self@.by_key.contains_key(k) implies self@.by_key[k] == want.by_key[k] by {
                assert(listed.by_key.contains_key(k));
            }
            assert(self@.by_key =~= want.by_key);
            assert forall|k: Seq<char>| #[trigger]
                self@.roots.contains_key(k) <==> want.roots.contains_key(k) by {
                assert(listed.roots.contains_key(k) <==> before_all.roots.contains_key(k)
                    || all.contains(k));
            }
            assert forall|k: Seq<char>| #[trigger]
                self@.roots.contains_key(k) implies self@.roots[k] == want.roots[k] by {
                assert(listed.roots.contains_key(k));
            }
            assert(self@.roots =~= want.roots);
        }
        (token, signal)
    }

    /// The tokens known under the keys of a session, each once.
    #[verifier::spinoff_prover]
    fn matching_tokens(&self, root: &str, aliases: &Vec<String>) -> (r: Vec<u64>)
        requires
            self.wf(),
        ensures
            r@.no_duplicates(),
            r@.to_set() == self@.matching(root@, views(aliases@).to_set()),
    {
        let ghost set = views(aliases@).to_set();
        let mut keys: Vec<String> = Vec::new();
        keys.push(root.to_owned());
        assert(views(keys@) =~= seq![root@]);
        assert(views(keys@)[0] == root@);
        let mut i: usize = 0;
        while i < aliases.len()
            invariant
                i <= aliases.len(),
                forall|k: Seq<char>| #[trigger]
                    views(keys@).contains(k) <==> k == root@ || views(aliases@).take(
                        i as int,
                    ).contains(k),
            decreases aliases.len() - i,
        {
            let ghost kept = views(keys@);
            let ghost p = views(aliases@).take(i as int);
            keys.push(aliases[i].clone());
            proof {
                assert(views(keys@) =~= kept.push(aliases@[i as int]@));
                assert(views(aliases@).take(i as int + 1) =~= p.push(aliases@[i as int]@));
                pushed(kept, aliases@[i as int]@);
                pushed(p, aliases@[i as int]@);
            }
            i += 1;
        }
        assert(views(aliases@).take(views(aliases@).len() as int) =~= views(aliases@));
        let ghost direct = views(keys@);
        let given: usize = keys.len();
        let mut n: usize = 0;
        while n < given
            invariant
                n <= given <= keys.len(),
                self.wf(),
                given == direct.len(),
                views(keys@).take(given as int) == direct,
                forall|k: Seq<char>| #[trigger]
                    views(keys@).contains(k) <==> direct.contains(k) || exists|j: int|
                        0 <= j < n && self@.roots.contains_key(#[trigger] direct[j])
                            && self@.roots[direct[j]] == k,
            decreases given - n,
        {
            let ghost kept = views(keys@);
            assert(kept.take(given as int)[n as int] == direct[n as int]);
            assert(keys@[n as int]@ == direct[n as int]);
            let found = match self.root_by_key.get(&keys[n]) {
                Some(session) => Some(session.clone()),
                None => None,
            };
            if let Some(session) = found {
                keys.push(session);
                proof {
                    assert(views(keys@) =~= kept.push(session@));
                    pushed(kept, session@);
                    assert(views(keys@).take(given as int) =~= kept.take(given as int));
                }
            }
            proof {
                assert forall|k: Seq<char>| #[trigger]
                    views(keys@).contains(k) <==> direct.contains(k) || exists|j: int|
                        0 <= j < n + 1 && self@.roots.contains_key(#[trigger] direct[j])
                            && self@.roots[direct[j]] == k by {
                    if exists|j: int|
                        0 <= j < n + 1 && self@.roots.contains_key(#[trigger] direct[j])
                            && self@.roots[direct[j]] == k {
                        let j = choose|j: int|
                            0 <= j < n + 1 && self@.roots.contains_key(#[trigger] direct[j])
                                && self@.roots[direct[j]] == k;
                        if j < n {
                            assert(kept.contains(k));
                        }
                    }
                }
            }
            n += 1;
        }
        proof {
            assert forall|k: Seq<char>| #[trigger]
                views(keys@).contains(k) <==> self@.leads(root@, set, k) by {
                assert(direct.contains(k) <==> k == root@ || set.contains(k));
                if self@.mapped(set.insert(root@), k) {
                    let a = choose|a: Seq<char>|
                        set.insert(root@).contains(a) && #[trigger] self@.roots.contains_key(a)
                            && self@.roots[a] == k;
                    assert(direct.contains(a));
                    let j = direct.index_of(a);
                    assert(direct[j] == a);
                }
                if exists|j: int|
                    0 <= j < given && self@.roots.contains_key(#[trigger] direct[j])
                        && self@.roots[direct[j]] == k {
                    let j = choose|j: int|
                        0 <= j < given && self@.roots.contains_key(#[trigger] direct[j])
                            && self@.roots[direct[j]] == k;
                    assert(direct.contains(direct[j]));
                    assert(self@.mapped(set.insert(root@), k));
                }
            }
        }
        let mut out: Vec<u64> = Vec::new();
        let mut m: usize = 0;
        while m < keys.len()
            invariant
                m <= keys.len(),
                self.wf(),
                out@.no_duplicates(),
                forall|t: u64| #[trigger]
                    out@.contains(t) <==> exists|j: int|
                        0 <= j < m && tokens_of(self@.by_key, #[trigger] views(keys@)[j]).contains(
                            t,
                        ),
            decreases keys.len() - m,
        {
            let ghost kept = out@;
            let ghost key = views(keys@)[m as int];
            if let Some(set) = self.connections_by_key.get(&keys[m]) {
                add_tokens(&mut out, set);
            }
            proof {
                assert forall|t: u64| #[trigger]
                    out@.contains(t) <==> exists|j: int|
                        0 <= j < m + 1 && tokens_of(
                            self@.by_key,
                            #[trigger] views(keys@)[j],
                        ).contains(t) by {
                    if tokens_of(self@.by_key, key).contains(t) {
                        assert(tokens_of(self@.by_key, views(keys@)[m as int]).contains(t));
                    }
                }
            }
            m += 1;
        }
        proof {
            let want = self@.matching(root@, set);
            assert forall|t: u64| out@.to_set().contains(t) <==> want.contains(t) by {
                if out@.contains(t) {
                    let j = choose|j: int|
                        0 <= j < keys.len() && tokens_of(
                            self@.by_key,
                            #[trigger] views(keys@)[j],
                        ).contains(t);
                    assert(views(keys@).contains(views(keys@)[j]));
                }
                if want.contains(t) {
                    let k = choose|k: Seq<char>|
                        self@.leads(root@, set, k) && #[trigger] tokens_of(
                            self@.by_key,
                            k,
                        ).contains(t);
                    assert(views(keys@).contains(k));
                    let j = views(keys@).index_of(k);
                    assert(tokens_of(self@.by_key, views(keys@)[j]).contains(t));
                }
            }
            assert(out@.to_set() =~= want);
        }
        out
    }

    /// The accounts of live connections, each once.
    fn accounts_of(&self, tokens: &Vec<u64>) -> (r: Vec<u128>)
        ensures
            r@.no_duplicates(),
            forall|a: u128| #[trigger] r@.contains(a) <==> self@.serves(tokens@.to_set(), a),
    {
        broadcast use vstd::std_specs::hash::group_hash_axioms;

        let mut out: Vec<u128> = Vec::new();
        let mut i: usize = 0;
        while i < tokens.len()
            invariant
                i <= tokens.len(),
                out@.no_duplicates(),
                forall|a: u128| #[trigger]
                    out@.contains(a) <==> exists|j: int|
                        0 <= j < i && self@.connections.contains_key(#[trigger] tokens@[j])
                            && self@.connections[tokens@[j]].account == a,
            decreases tokens.len() - i,
        {
            let ghost kept = out@;
            if let Some(entry) = self.connections.get(&tokens[i]) {
                let id = entry.account_id;
                assert(self@.connections.contains_key(tokens@[i as int]));
                assert(self@.connections[tokens@[i as int]].account == id);
                if !holds_id(&out, id) {
                    out.push(id);
                    proof {
                        pushed(kept, id);
                    }
                }
            } else {
                assert(!self@.connections.contains_key(tokens@[i as int]));
            }
            i += 1;
        }
        proof {
            assert forall|a: u128| #[trigger] out@.contains(a) <==> self@.serves(
                tokens@.to_set(),
                a,
            ) by {
                if out@.contains(a) {
                    let j = choose|j: int|
                        0 <= j < tokens.len() && self@.connections.contains_key(
                            #[trigger] tokens@[j],
                        ) && self@.connections[tokens@[j]].account == a;
                    assert(tokens@.to_set().contains(tokens@[j]));
                }
                if self@.serves(tokens@.to_set(), a) {
                    let t = choose|t: u64|
                        #[trigger] tokens@.to_set().contains(t) && self@.connections.contains_key(
                            t,
                        ) && self@.connections[t].account == a;
                    let j = tokens@.index_of(t);
                    assert(tokens@[j] == t);
                }
            }
        }
        out
    }

    /// The live connections of a session, and their accounts.
    pub fn snapshot(&self, root_key_hash: &str, aliases: &Vec<String>) -> (r:
        SessionConnectionSnapshot)
        requires
            self.wf(),
        ensures
            ({
                let tokens = self@.matching(root_key_hash@, views(aliases@).to_set());
                &&& r.connection_count == tokens.len()
                &&& r.account_ids@.no_duplicates()
                &&& forall|a: u128| #[trigger]
                    r.account_ids@.contains(a) <==> self@.serves(tokens, a)
            }),
    {
        let tokens = self.matching_tokens(root_key_hash, aliases);
        proof {
            tokens@.unique_seq_to_set();
        }
        SessionConnectionSnapshot {
            connection_count: tokens.len(),
            account_ids: self.accounts_of(&tokens),
        }
    }

    /// The signal that a connection was given last, where the connection is live.
    pub fn signal_of(&self, token: u64) -> (r: Option<SessionRerouteSignal>)
        ensures
            r == if self@.connections.contains_key(token) {
                self@.connections[token].signal
            } else {
                None
            },
    {
        broadcast use vstd::std_specs::hash::group_hash_axioms;

        match self.connections.get(&token) {
            Some(entry) => entry.signal,
            None => None,
        }
    }

    /// Tells the connections of a session that it has moved to a newer generation.
    #[verifier::spinoff_prover]
    pub fn signal_reroute(&mut self, root_key_hash: &str, aliases: &Vec<String>, generation: i64) -> (r:
        SessionSignalResult)
        requires
            old(self).wf(),
        ensures
            final(self).wf(),
            final(self)@ == old(self)@.signaled(
                root_key_hash@,
                views(aliases@).to_set(),
                generation,
            ),
            ({
                let tokens = old(self)@.matching(root_key_hash@, views(aliases@).to_set());
                &&& r.matching_connections == tokens.len()
                &&& r.signaled_connections == old(self)@.outdated(tokens, generation).len()
                &&& r.account_ids@.no_duplicates()
                &&& forall|a: u128| #[trigger]
                    r.account_ids@.contains(a) <==> old(self)@.serves(tokens, a)
            }),
    {
        broadcast use vstd::std_specs::hash::group_hash_axioms;

        let ghost start = self@;
        let ghost set = views(aliases@).to_set();
        let tokens = self.matching_tokens(root_key_hash, aliases);
        let account_ids = self.accounts_of(&tokens);
        proof {
            tokens@.unique_seq_to_set();
        }
        let newest: i64 = match self.generation_by_root.get(root_key_hash) {
            Some(n) => if *n > generation {
                *n
            } else {
                generation
            },
            None => generation,
        };
        self.generation_by_root.insert(root_key_hash, newest);
        self.root_by_key.insert(root_key_hash, root_key_hash.to_owned());
        let mut i: usize = 0;
        while i < aliases.len()
            invariant
                i <= aliases.len(),
                self.wf(),
                self@.last_token == start.last_token,
                self@.connections == start.connections,
                self@.by_key == start.by_key,
                self@.generations == start.generations.insert(root_key_hash@, newest),
                forall|k: Seq<char>| #[trigger]
                    self@.roots.contains_key(k) <==> start.roots.contains_key(k) || k
                        == root_key_hash@ || views(aliases@).take(i as int).contains(k),
                forall|k: Seq<char>| #[trigger]
                    self@.roots.contains_key(k) ==> self@.roots[k] == if k == root_key_hash@
                        || views(aliases@).take(i as int).contains(k) {
                        root_key_hash@
                    } else {
                        start.roots[k]
                    },
            decreases aliases.len() - i,
        {
            let ghost p = views(aliases@).take(i as int);
            let ghost now = self@;
            proof {
                assert(views(aliases@).take(i as int + 1) =~= p.push(aliases@[i as int]@));
                pushed(p, aliases@[i as int]@);
            }
            self.root_by_key.insert(&aliases[i], root_key_hash.to_owned());
            proof {
                let name = aliases@[i as int]@;
                let q = views(aliases@).take(i as int + 1);
                assert(self@.connections == now.connections);
                assert(self@.roots == now.roots.insert(name, root_key_hash@));
                assert forall|k: Seq<char>| q.contains(k) <==> p.contains(k) || k == name by {}
                assert forall|k: Seq<char>| #[trigger]
                    self@.roots.contains_key(k) <==> start.roots.contains_key(k) || k
                        == root_key_hash@ || q.contains(k) by {
                    assert(now.roots.contains_key(k) <==> start.roots.contains_key(k) || k
                        == root_key_hash@ || p.contains(k));
                }
                assert forall|k: Seq<char>| #[trigger]
                    self@.roots.contains_key(k) implies self@.roots[k] == if k == root_key_hash@
                    || q.contains(k) {
                    root_key_hash@
                } else {
                    start.roots[k]
                } by {
                    assert(k == name || now.roots.contains_key(k));
                }
            }
            i += 1;
        }
        assert(views(aliases@).take(views(aliases@).len() as int) =~= views(aliases@));
        let ghost want = start.signaled(root_key_hash@, set, generation);
        assert(self@.roots =~= want.roots);
        let signaled = self.signal_tokens(&tokens, root_key_hash, generation);
        if tokens.len() > 0 {
            let mut known: HashSet<u64> = match self.connections_by_key.take(root_key_hash) {
                Some(set) => set,
                None => HashSet::new(),
            };
            let ghost base = tokens_of(start.by_key, root_key_hash@);
            let mut n: usize = 0;
            assert(base =~= base.union(tokens@.take(0).to_set()));
            while n < tokens.len()
                invariant
                    n <= tokens.len(),
                    known@ == base.union(tokens@.take(n as int).to_set()),
                decreases tokens.len() - n,
            {
                let ghost p = tokens@.take(n as int);
                proof {
                    let q = tokens@.take(n as int + 1);
                    assert(q =~= p.push(tokens@[n as int]));
                    pushed(p, tokens@[n as int]);
                    assert(base.union(p.to_set()).insert(tokens@[n as int]) =~= base.union(
                        q.to_set(),
                    ));
                }
                known.insert(tokens[n]);
                n += 1;
            }
            assert(tokens@.take(tokens@.len() as int) =~= tokens@);
            self.connections_by_key.insert(root_key_hash, known);
            proof {
                assert(tokens@.to_set().contains(tokens@[0]));
                assert(self@.by_key =~= want.by_key);
            }
        } else {
            assert(tokens@.to_set() =~= Set::<u64>::empty());
        }
        assert(self@.connections =~= want.connections);
        SessionSignalResult {
            matching_connections: tokens.len(),
            signaled_connections: signaled,
            account_ids,
        }
    }

    /// Puts the given connections under a session, and signals those of an older generation.
    fn signal_tokens(&mut self, tokens: &Vec<u64>, root: &str, generation: i64) -> (r: usize)
        requires
            old(self).wf(),
            tokens@.no_duplicates(),
        ensures
            final(self).wf(),
            final(self)@.last_token == old(self)@.last_token,
            final(self)@.by_key == old(self)@.by_key,
            final(self)@.roots == old(self)@.roots,
            final(self)@.generations == old(self)@.generations,
            forall|t: u64| #[trigger]
                final(self)@.connections.contains_key(t) <==> old(self)@.connections.contains_key(
                    t,
                ),
            forall|t: u64| #[trigger]
                old(self)@.connections.contains_key(t) ==> final(self)@.connections[t]
                    == if tokens@.contains(t) {
                    (ConnectionView {
                        root: root@,
                        signal: if old(self)@.connections[t].generation < generation {
                            Some(SessionRerouteSignal { generation })
                        } else {
                            old(self)@.connections[t].signal
                        },
                        ..old(self)@.connections[t]
                    })
                } else {
                    old(self)@.connections[t]
                },
            r == old(self)@.outdated(tokens@.to_set(), generation).len(),
    {
        broadcast use vstd::std_specs::hash::group_hash_axioms;

        let ghost start = self@;
        let ghost mut reached: Seq<u64> = Seq::empty();
        let mut count: usize = 0;
        let mut i: usize = 0;
        while i < tokens.len()
            invariant
                i <= tokens.len(),
                self.wf(),
                tokens@.no_duplicates(),
                self@.last_token == start.last_token,
                self@.by_key == start.by_key,
                self@.roots == start.roots,
                self@.generations == start.generations,
                count == reached.len(),
                count <= i,
                reached.no_duplicates(),
                forall|t: u64| #[trigger]
                    reached.contains(t) <==> tokens@.take(i as int).contains(t)
                        && start.connections.contains_key(t) && start.connections[t].generation
                        < generation,
                forall|t: u64| #[trigger]
                    self@.connections.contains_key(t) <==> start.connections.contains_key(t),
                forall|t: u64| #[trigger]
                    start.connections.contains_key(t) ==> self@.connections[t] == if tokens@.take(
                        i as int,
                    ).contains(t) {
                        (ConnectionView {
                            root: root@,
                            signal: if start.connections[t].generation < generation {
                                Some(SessionRerouteSignal { generation })
                            } else {
                                start.connections[t].signal
                            },
                            ..start.connections[t]
                        })
                    } else {
                        start.connections[t]
                    },
            decreases tokens.len() - i,
        {
            let token = tokens[i];
            let ghost p = tokens@.take(i as int);
            let ghost q = tokens@.take(i as int + 1);
            let ghost kept = reached;
            let ghost now = self@;
            proof {
                assert(q =~= p.push(token));
                pushed(p, token);
                if p.contains(token) {
                    let k = p.index_of(token);
                    assert(tokens@[k] == tokens@[i as int]);
                }
                assert(self@.connections.contains_key(token) <==> self.connections@.contains_key(
                    token,
                ));
            }
            if let Some(entry) = self.connections.remove(&token) {
                assert(start.connections.contains_key(token));
                assert(now.connections[token] == entry@);
                assert(now.connections[token] == start.connections[token]);
                let older = entry.generation < generation;
                let signal = if older {
                    Some(SessionRerouteSignal { generation })
                } else {
                    entry.signal
                };
                let moved = ConnectionEntry {
                    root_key_hash: root.to_owned(),
                    aliases: entry.aliases,
                    account_id: entry.account_id,
                    generation: entry.generation,
                    signal,
                };
                let ghost moved_view = moved@;
                self.connections.insert(token, moved);
                proof {
                    assert(self@.connections =~= now.connections.insert(token, moved_view));
                }
                if older {
                    count = count + 1;
                    proof {
                        assert(!kept.contains(token));
                        reached = reached.push(token);
                        pushed(kept, token);
                        assert forall|x: int, y: int|
                            0 <= x < reached.len() && 0 <= y < reached.len() && x
                                != y implies reached[x] != reached[y] by {
                            if x == kept.len() {
                                assert(kept.contains(kept[y]));
                            } else if y == kept.len() {
                                assert(kept.contains(kept[x]));
                            } else {
                                assert(kept[x] != kept[y]);
                            }
                        }
                    }
                }
            } else {
                assert(!start.connections.contains_key(token));
                assert(self@.connections =~= now.connections);
            }
            i += 1;
        }
        proof {
            assert(tokens@.take(tokens@.len() as int) =~= tokens@);
            assert(reached.to_set() =~= start.outdated(tokens@.to_set(), generation));
            reached.unique_seq_to_set();
        }
        count
    }

    /// Removes a connection.
    #[verifier::spinoff_prover]
    pub fn unregister(&mut self, token: u64)
        requires
            old(self).wf(),
        ensures
            final(self).wf(),
            final(self)@ == old(self)@.unregistered(token),
    {
        broadcast use vstd::std_specs::hash::group_hash_axioms;

        let ghost start = self@;
        let entry = match self.connections.remove(&token) {
            Some(entry) => entry,
            None => {
                assert(self@.connections =~= start.connections);
                return;
            },
        };
        assert(start.connections.contains_key(token));
        let ghost c = start.connections[token];
        assert(c == entry@);
        let mut keys = distinct(&entry.aliases);
        if !holds(&keys, &entry.root_key_hash) {
            let ghost kept = views(keys@);
            keys.push(entry.root_key_hash.clone());
            proof {
                assert(views(keys@) =~= kept.push(c.root));
                grown_set(kept, c.root);
            }
        } else {
            assert(views(keys@).to_set().insert(c.root) =~= views(keys@).to_set());
        }
        let ghost all = views(keys@);
        assert(all.to_set() == c.aliases.insert(c.root));
        assert(self@.connections =~= start.connections.remove(token));
        let mut i: usize = 0;
        while i < keys.len()
            invariant
                i <= keys.len(),
                self.wf(),
                all == views(keys@),
                all.no_duplicates(),
                self@.last_token == start.last_token,
                self@.connections == start.connections.remove(token),
                self@.roots == start.roots,
                self@.generations == start.generations,
                forall|k: Seq<char>| #[trigger]
                    self@.by_key.contains_key(k) <==> start.by_key.contains_key(k) && !(all.take(
                        i as int,
                    ).contains(k) && start.by_key[k].remove(token) == Set::<u64>::empty()),
                forall|k: Seq<char>| #[trigger]
                    self@.by_key.contains_key(k) ==> self@.by_key[k] == if all.take(
                        i as int,
                    ).contains(k) {
                        start.by_key[k].remove(token)
                    } else {
                        start.by_key[k]
                    },
            decreases keys.len() - i,
        {
            let ghost p = all.take(i as int);
            let ghost q = all.take(i as int + 1);
            let ghost key = keys@[i as int]@;
            let ghost now = self@;
            proof {
                assert(q =~= p.push(key));
                pushed(p, key);
                if p.contains(key) {
                    let x = p.index_of(key);
                    assert(all[x] == all[i as int]);
                }
            }
            if let Some(mut rest) = self.connections_by_key.take(&keys[i]) {
                rest.remove(&token);
                assert(rest@ == now.by_key[key].remove(token));
                if !rest.is_empty() {
                    self.connections_by_key.insert(&keys[i], rest);
                }
            }
            proof {
                assert(self@.connections == now.connections);
                assert(now.by_key.contains_key(key) <==> start.by_key.contains_key(key));
                assert forall|k: Seq<char>| q.contains(k) <==> p.contains(k) || k == key by {}
                assert forall|k: Seq<char>| k != key implies (#[trigger] self@.by_key.contains_key(
                    k,
                ) <==> now.by_key.contains_key(k)) by {}
                assert forall|k: Seq<char>| #[trigger]
                    self@.by_key.contains_key(k) <==> start.by_key.contains_key(k) && !(
                    q.contains(k) && start.by_key[k].remove(token) == Set::<u64>::empty()) by {
                    assert(now.by_key.contains_key(k) <==> start.by_key.contains_key(k) && !(
                    p.contains(k) && start.by_key[k].remove(token) == Set::<u64>::empty()));
                }
                assert forall|k: Seq<char>| #[trigger]
                    self@.by_key.contains_key(k) implies self@.by_key[k] == if q.contains(k) {
                    start.by_key[k].remove(token)
                } else {
                    start.by_key[k]
                } by {
                    assert(now.by_key.contains_key(k));
                }
            }
            i += 1;
        }
        proof {
            assert(all.take(all.len() as int) =~= all);
            let want = start.unregistered(token);
            assert forall|k: Seq<char>| all.contains(k) <==> all.to_set().contains(k) by {}
            assert(self@.by_key =~= want.by_key);
        }
    }
}

proof fn pushed<T>(s: Seq<T>, x: T)
    ensures
        forall|y: T| #[trigger] s.push(x).contains(y) <==> s.contains(y) || y == x,
{
    assert forall|y: T| #[trigger] s.push(x).contains(y) <==> s.contains(y) || y == x by {
        if s.contains(y) {
            let k = s.index_of(y);
            assert(s.push(x)[k] == y);
        }
        if y == x {
            assert(s.push(x)[s.len() as int] == y);
        }
    }
}

fn holds_id(list: &Vec<u128>, id: u128) -> (r: bool)
    ensures
        r == list@.contains(id),
{
    let mut i: usize = 0;
    while i < list.len()
        invariant
            i <= list.len(),
            forall|j: int| 0 <= j < i ==> list@[j] != id,
        decreases list.len() - i,
    {
        if list[i] == id {
            assert(list@[i as int] == id);
            return true;
        }
        i += 1;
    }
    false
}

/// Adds the tokens of a set to a list that holds each once.
fn add_tokens(out: &mut Vec<u64>, set: &HashSet<u64>)
    requires
        old(out)@.no_duplicates(),
    ensures
        final(out)@.no_duplicates(),
        forall|t: u64| #[trigger]
            final(out)@.contains(t) <==> old(out)@.contains(t) || set@.contains(t),
{
    broadcast use vstd::std_specs::hash::group_hash_axioms;

    let ghost before_all = out@;
    let ghost all = IteratorSpec::remaining(&spec_hash_keys_iter(set)).unref();
    for x in it: set.iter()
        invariant
            out@.no_duplicates(),
            it.seq().unref() == all,
            forall|t: u64| #[trigger]
                out@.contains(t) <==> before_all.contains(t) || all.take(
                    it.index() as int,
                ).contains(t),
    {
        let token: u64 = *x;
        let ghost kept = out@;
        proof {
            let p = all.take(it.index() as int);
            assert(all[it.index() as int] == token);
            assert(all.take(it.index() as int + 1) =~= p.push(token));
            pushed(p, token);
        }
        if !holds_token(out, token) {
            out.push(token);
            proof {
                pushed(kept, token);
            }
        }
    }
    proof {
        assert(all.take(all.len() as int) =~= all);
        assert forall|t: u64| #[trigger] out@.contains(t) <==> before_all.contains(t)
            || set@.contains(t) by {
            assert(set@ == all.to_set());
        }
    }
}

fn holds_token(list: &Vec<u64>, token: u64) -> (r: bool)
    ensures
        r == list@.contains(token),
{
    let mut i: usize = 0;
    while i < list.len()
        invariant
            i <= list.len(),
            forall|j: int| 0 <= j < i ==> list@[j] != token,
        decreases list.len() - i,
    {
        if list[i] == token {
            assert(list@[i as int] == token);
            return true;
        }
        i += 1;
    }
    false
}

/// A connection is registered under a token of its own, one above the last, with its account and its
/// generation; the other connections stay.
pub proof fn connections_are_registered_as_given(
    r: RegistryView,
    root: Seq<char>,
    given: Set<Seq<char>>,
    account: u128,
    generation: i64,
    other: u64,
    k: Seq<char>,
)
    requires
        r.last_token < u64::MAX,
    ensures
        ({
            let after = r.registered(root, given, account, generation);
            let token = (r.last_token + 1) as u64;
            &&& after.last_token == token
            &&& after.connections.contains_key(token)
            &&& after.connections[token].account == account
            &&& after.connections[token].generation == generation
            &&& given.contains(k) ==> after.connections[token].aliases.contains(k)
            &&& given.contains(k) ==> tokens_of(after.by_key, k).contains(token)
            &&& given.contains(k) && !r.roots.contains_key(k) ==> after.roots[k]
                == after.connections[token].root
            &&& r.roots.contains_key(k) ==> after.roots.contains_key(k) && after.roots[k]
                == r.roots[k]
            &&& other != token && r.connections.contains_key(other) ==> after.connections[other]
                == r.connections[other]
            &&& after.generations == r.generations
            &&& tokens_of(r.by_key, k).contains(other) ==> tokens_of(after.by_key, k).contains(
                other,
            )
        }),
{
}

/// A connection belongs to the session that its root was given, else to that of one of its aliases, else
/// to its own.
pub proof fn connections_join_known_sessions(r: RegistryView, root: Seq<char>, aliases: Set<Seq<char>>)
    ensures
        r.roots.contains_key(root) ==> r.canonical(root, aliases) == r.roots[root],
        !r.roots.contains_key(root) && (forall|k: Seq<char>|
            aliases.contains(k) ==> !#[trigger] r.roots.contains_key(k)) ==> r.canonical(
            root,
            aliases,
        ) == root,
{
}

/// A connection that is not outdated when it is registered is not told to give way.
pub proof fn current_connections_start_unsignaled(
    r: RegistryView,
    root: Seq<char>,
    aliases: Set<Seq<char>>,
    account: u128,
    generation: i64,
)
    requires
        r.generations.contains_key(r.canonical(root, aliases)) ==> generation >= r.generations[r.canonical(
            root,
            aliases,
        )],
    ensures
        r.registered(root, aliases, account, generation).connections[token_after(
            r.last_token,
        )].signal is None,
{
}

/// Every connection that is known under the session or one of its aliases is one of the session's.
pub proof fn sessions_have_their_connections(
    r: RegistryView,
    root: Seq<char>,
    aliases: Set<Seq<char>>,
    token: u64,
    k: Seq<char>,
)
    requires
        r.by_key.contains_key(k),
        r.by_key[k].contains(token),
    ensures
        k == root ==> r.matching(root, aliases).contains(token),
        aliases.contains(k) ==> r.matching(root, aliases).contains(token),
        r.roots.contains_key(root) && r.roots[root] == k ==> r.matching(root, aliases).contains(
            token,
        ),
{
    assert(tokens_of(r.by_key, k).contains(token));
    if k == root || aliases.contains(k) {
        assert(r.leads(root, aliases, k));
    }
    if r.roots.contains_key(root) && r.roots[root] == k {
        assert(aliases.insert(root).contains(root));
        assert(r.mapped(aliases.insert(root), k));
        assert(r.leads(root, aliases, k));
    }
}

/// A signal tells those connections of the session that are of an older generation, and no others; all
/// of them then belong to the session, and keep their account and their generation.
pub proof fn signals_leave_the_rest(
    r: RegistryView,
    root: Seq<char>,
    aliases: Set<Seq<char>>,
    generation: i64,
    t: u64,
)
    requires
        r.connections.contains_key(t),
    ensures
        ({
            let after = r.signaled(root, aliases, generation);
            let mine = r.matching(root, aliases).contains(t);
            &&& after.connections.contains_key(t)
            &&& after.connections[t].account == r.connections[t].account
            &&& after.connections[t].generation == r.connections[t].generation
            &&& mine ==> after.connections[t].root == root
            &&& mine && r.connections[t].generation < generation ==> after.connections[t].signal
                == Some(SessionRerouteSignal { generation })
            &&& mine && r.connections[t].generation >= generation ==> after.connections[t].signal
                == r.connections[t].signal
            &&& !mine ==> after.connections[t] == r.connections[t]
            &&& after.generations[root] >= generation
            &&& after.roots[root] == root
        }),
        r.outdated(r.matching(root, aliases), generation).contains(t) <==> r.matching(
            root,
            aliases,
        ).contains(t) && r.connections[t].generation < generation,
        r.matching(root, aliases).contains(t) ==> r.serves(
            r.matching(root, aliases),
            r.connections[t].account,
        ),
{
}

/// Removing a connection leaves the others, and removing it again changes nothing.
pub proof fn removal_leaves_the_rest(r: RegistryView, token: u64, t: u64, k: Seq<char>)
    ensures
        t != token && r.connections.contains_key(t) ==> r.unregistered(token).connections.contains_key(
            t,
        ) && r.unregistered(token).connections[t] == r.connections[t],
        t != token && tokens_of(r.by_key, k).contains(t) ==> tokens_of(
            r.unregistered(token).by_key,
            k,
        ).contains(t),
        r.unregistered(token).roots == r.roots,
        r.unregistered(token).generations == r.generations,
        r.unregistered(token).last_token == r.last_token,
        r.unregistered(token).unregistered(token) == r.unregistered(token),
{
    if t != token && r.by_key.contains_key(k) && r.by_key[k].contains(t) {
        assert(r.by_key[k].remove(token).contains(t));
    }
}

/// Tokens are given out one after the other.
pub proof fn tokens_are_given_out_in_turn(last: u64)
    ensures
        last < u64::MAX ==> token_after(last) == last + 1,
        token_after(last) >= 1,
{
}

} // verus!
