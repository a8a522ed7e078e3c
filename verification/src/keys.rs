//! Hashed session route keys and what makes them valid.
use vstd::prelude::*;
use crate::error::{AppError, AppErrorKind, bad_request, failure, internal, internal_of};
use crate::text::{chars_of, same, trim, trimmed};

verus! {

/// At most this many session route keys can be used at once.
pub const MAX_ROUTE_KEYS: usize = 500;

/// One hashed alias of a session, and what it was hashed from.
#[derive(Debug, Clone, PartialEq, Eq)]
pub struct SessionRouteKey {
    pub key_hash: String,
    pub kind: String,
}

pub struct RouteKeyView {
    pub hash: Seq<char>,
    pub kind: Seq<char>,
}

impl View for SessionRouteKey {
    type V = RouteKeyView;

    open spec fn view(&self) -> RouteKeyView {
        RouteKeyView { hash: self.key_hash@, kind: self.kind@ }
    }
}

pub open spec fn key_views(keys: Seq<SessionRouteKey>) -> Seq<RouteKeyView> {
    Seq::new(keys.len(), |i: int| keys[i]@)
}

/// A copy of a key.
pub fn copy_key(key: &SessionRouteKey) -> (r: SessionRouteKey)
    ensures
        r@ == key@,
{
    SessionRouteKey { key_hash: key.key_hash.clone(), kind: key.kind.clone() }
}

#[derive(Debug, Clone, Copy, PartialEq, Eq, Structural)]
pub enum SessionRouteActionKind {
    Rebalance,
    Reroute,
}

impl SessionRouteActionKind {
    pub open spec fn text(self) -> Seq<char> {
        match self {
            SessionRouteActionKind::Rebalance => "rebalance"@,
            SessionRouteActionKind::Reroute => "reroute"@,
        }
    }

    pub fn as_str(self) -> (r: &'static str)
        ensures
            r@ == self.text(),
    {
        match self {
            SessionRouteActionKind::Rebalance => "rebalance",
            SessionRouteActionKind::Reroute => "reroute",
        }
    }
}

#[derive(Debug, Clone, Copy, PartialEq, Eq, Structural)]
pub enum SessionRouteActionStatus {
    Applied,
    Fallback,
    Pending,
    NoOp,
}

impl SessionRouteActionStatus {
    pub open spec fn text(self) -> Seq<char> {
        match self {
            SessionRouteActionStatus::Applied => "applied"@,
            SessionRouteActionStatus::Fallback => "fallback"@,
            SessionRouteActionStatus::Pending => "pending"@,
            SessionRouteActionStatus::NoOp => "no_op"@,
        }
    }

    pub fn as_str(self) -> (r: &'static str)
        ensures
            r@ == self.text(),
    {
        match self {
            SessionRouteActionStatus::Applied => "applied",
            SessionRouteActionStatus::Fallback => "fallback",
            SessionRouteActionStatus::Pending => "pending",
            SessionRouteActionStatus::NoOp => "no_op",
        }
    }
}

/// The action with the given name; any other name is a fault of the stored data.
pub fn parse_session_route_action(value: &str) -> (r: Result<SessionRouteActionKind, AppError>)
    ensures
        r matches Ok(kind) ==> kind.text() == value@,
        r is Ok <==> value@ == "rebalance"@ || value@ == "reroute"@,
        r is Err ==> failure(r) == internal_of("database contains an invalid session route action"@),
{
    if same(value, "rebalance") {
        Ok(SessionRouteActionKind::Rebalance)
    } else if same(value, "reroute") {
        Ok(SessionRouteActionKind::Reroute)
    } else {
        Err(internal("database contains an invalid session route action"))
    }
}

/// The status with the given name; any other name is a fault of the stored data.
pub fn parse_session_route_status(value: &str) -> (r: Result<SessionRouteActionStatus, AppError>)
    ensures
        r matches Ok(status) ==> status.text() == value@,
        r is Ok <==> value@ == "applied"@ || value@ == "fallback"@ || value@ == "pending"@ || value@
            == "no_op"@,
        r is Err ==> failure(r) == internal_of("database contains an invalid session route status"@),
{
    if same(value, "applied") {
        Ok(SessionRouteActionStatus::Applied)
    } else if same(value, "fallback") {
        Ok(SessionRouteActionStatus::Fallback)
    } else if same(value, "pending") {
        Ok(SessionRouteActionStatus::Pending)
    } else if same(value, "no_op") {
        Ok(SessionRouteActionStatus::NoOp)
    } else {
        Err(internal("database contains an invalid session route status"))
    }
}

/// Each action has a name of its own, and reading its name gives it back.
pub proof fn action_names_differ(a: SessionRouteActionKind, b: SessionRouteActionKind)
    ensures
        a.text() == b.text() ==> a == b,
{
    reveal_strlit("rebalance");
    reveal_strlit("reroute");
    assert("rebalance"@.len() == 9 && "reroute"@.len() == 7);
}

/// Each status has a name of its own, and reading its name gives it back.
pub proof fn status_names_differ(a: SessionRouteActionStatus, b: SessionRouteActionStatus)
    ensures
        a.text() == b.text() ==> a == b,
{
    reveal_strlit("applied");
    reveal_strlit("fallback");
    reveal_strlit("pending");
    reveal_strlit("no_op");
    assert("applied"@[0] == 'a' && "fallback"@[0] == 'f' && "pending"@[0] == 'p' && "no_op"@[0]
        == 'n');
}

pub open spec fn is_lower_hex(c: char) -> bool {
    '0' <= c <= '9' || 'a' <= c <= 'f'
}

/// A key hash: 64 lower-case hexadecimal characters.
pub open spec fn is_affinity_hash(s: Seq<char>) -> bool {
    s.len() == 64 && forall|i: int| 0 <= i < s.len() ==> is_lower_hex(#[trigger] s[i])
}

pub fn valid_affinity_hash(value: &str) -> (r: bool)
    ensures
        r == is_affinity_hash(value@),
{
    let chars = chars_of(value);
    if chars.len() != 64 {
        return false;
    }
    let mut i: usize = 0;
    while i < chars.len()
        invariant
            i <= chars.len(),
            chars@ == value@,
            forall|j: int| 0 <= j < i ==> is_lower_hex(#[trigger] value@[j]),
        decreases chars.len() - i,
    {
        let c = chars[i];
        if !(('0' <= c && c <= '9') || ('a' <= c && c <= 'f')) {
            assert(!is_lower_hex(value@[i as int]));
            return false;
        }
        i += 1;
    }
    true
}

pub open spec fn is_word_char(c: char) -> bool {
    '0' <= c <= '9' || 'a' <= c <= 'z' || 'A' <= c <= 'Z' || c == '_' || c == '-'
}

/// ASCII letters, digits, `_` and `-`: one to `max` of them.
pub open spec fn is_word(s: Seq<char>, max: nat) -> bool {
    1 <= s.len() <= max && forall|i: int| 0 <= i < s.len() ==> is_word_char(#[trigger] s[i])
}

pub fn valid_word(value: &str, max: usize) -> (r: bool)
    ensures
        r == is_word(value@, max as nat),
{
    let chars = chars_of(value);
    if chars.len() == 0 || chars.len() > max {
        return false;
    }
    let mut i: usize = 0;
    while i < chars.len()
        invariant
            i <= chars.len(),
            chars@ == value@,
            forall|j: int| 0 <= j < i ==> is_word_char(#[trigger] value@[j]),
        decreases chars.len() - i,
    {
        let c = chars[i];
        if !(('0' <= c && c <= '9') || ('a' <= c && c <= 'z') || ('A' <= c && c <= 'Z') || c == '_'
            || c == '-') {
            assert(!is_word_char(value@[i as int]));
            return false;
        }
        i += 1;
    }
    true
}

pub open spec fn too_many_keys() -> Seq<char> {
    "at most 500 session route keys can be used at once"@
}

pub open spec fn bad_key_hash() -> Seq<char> {
    "session route hashes must be 64 lowercase hexadecimal characters"@
}

pub open spec fn bad_key_kind() -> Seq<char> {
    "session route kinds must be 1-64 ASCII letters, numbers, '_' or '-'"@
}

pub open spec fn two_kinds() -> Seq<char> {
    "one session route hash cannot have multiple kinds"@
}

pub open spec fn hash_at(keys: Seq<RouteKeyView>, hash: Seq<char>, i: int) -> bool {
    0 <= i < keys.len() && keys[i].hash == hash
}

/// Whether one of the keys has the given hash.
pub open spec fn has_hash(keys: Seq<RouteKeyView>, hash: Seq<char>) -> bool {
    exists|i: int| hash_at(keys, hash, i)
}

/// The kind of the key with the given hash.
pub open spec fn kind_of(keys: Seq<RouteKeyView>, hash: Seq<char>) -> Seq<char> {
    keys[choose|i: int| hash_at(keys, hash, i)].kind
}

/// No hash stands twice.
pub open spec fn distinct_hashes(keys: Seq<RouteKeyView>) -> bool {
    forall|i: int, j: int|
        0 <= i < j < keys.len() ==> (#[trigger] keys[i]).hash != (#[trigger] keys[j]).hash
}

/// The keys in order, each hash once, with trimmed kinds; or what is wrong with the first key that
/// is refused: its hash, its kind, or that its hash came before with another kind.
pub open spec fn checked_keys(keys: Seq<RouteKeyView>) -> Result<Seq<RouteKeyView>, Seq<char>>
    decreases keys.len(),
{
    if keys.len() == 0 {
        Ok(Seq::empty())
    } else {
        match checked_keys(keys.drop_last()) {
            Err(text) => Err(text),
            Ok(seen) => {
                let key = keys.last();
                let kind = trimmed(key.kind);
                if !is_affinity_hash(key.hash) {
                    Err(bad_key_hash())
                } else if !is_word(kind, 64) {
                    Err(bad_key_kind())
                } else if has_hash(seen, key.hash) {
                    if kind_of(seen, key.hash) == kind {
                        Ok(seen)
                    } else {
                        Err(two_kinds())
                    }
                } else {
                    Ok(seen.push(RouteKeyView { hash: key.hash, kind }))
                }
            },
        }
    }
}

pub open spec fn valid_keys(keys: Seq<RouteKeyView>) -> bool {
    &&& distinct_hashes(keys)
    &&& forall|i: int|
        0 <= i < keys.len() ==> is_affinity_hash((#[trigger] keys[i]).hash) && is_word(
            keys[i].kind,
            64,
        ) && trimmed(keys[i].kind) == keys[i].kind
}

/// Checked keys have distinct valid hashes and valid kinds, and are no more than were given.
pub proof fn checked_keys_are_valid(keys: Seq<RouteKeyView>)
    ensures
        checked_keys(keys) matches Ok(out) ==> valid_keys(out) && out.len() <= keys.len() && (
        keys.len() > 0 ==> out.len() > 0),
    decreases keys.len(),
{
    if keys.len() > 0 {
        checked_keys_are_valid(keys.drop_last());
        if checked_keys(keys) is Ok {
            let seen = checked_keys(keys.drop_last())->Ok_0;
            let key = keys.last();
            crate::text::trimmed_is_stable(key.kind);
            if !has_hash(seen, key.hash) {
                let out = checked_keys(keys)->Ok_0;
                assert forall|i: int, j: int| 0 <= i < j < out.len() implies (
                #[trigger] out[i]).hash != (#[trigger] out[j]).hash by {
                    if j == seen.len() {
                        assert(!hash_at(seen, key.hash, i));
                    }
                }
            } else {
                let i = choose|i: int| hash_at(seen, key.hash, i);
                assert(hash_at(seen, key.hash, i));
            }
        }
    }
}

/// Checking keys that passed the check changes nothing.
pub proof fn checking_is_stable(keys: Seq<RouteKeyView>)
    requires
        valid_keys(keys),
    ensures
        checked_keys(keys) == Ok::<Seq<RouteKeyView>, Seq<char>>(keys),
    decreases keys.len(),
{
    if keys.len() > 0 {
        let rest = keys.drop_last();
        assert forall|i: int| 0 <= i < rest.len() implies is_affinity_hash(
            (#[trigger] rest[i]).hash,
        ) && is_word(rest[i].kind, 64) && trimmed(rest[i].kind) == rest[i].kind by {
            assert(rest[i] == keys[i]);
        }
        checking_is_stable(rest);
        let key = keys.last();
        assert(key == keys[keys.len() - 1]);
        assert(!has_hash(rest, key.hash)) by {
            if has_hash(rest, key.hash) {
                let i = choose|i: int| hash_at(rest, key.hash, i);
                assert(keys[i].hash == keys[keys.len() - 1].hash);
            }
        }
        assert(rest.push(RouteKeyView { hash: key.hash, kind: key.kind }) =~= keys);
    } else {
        assert(keys =~= Seq::empty());
    }
}

/// The position of the key with the given hash.
pub fn find_hash(keys: &Vec<SessionRouteKey>, hash: &str) -> (r: Option<usize>)
    ensures
        r is Some <==> has_hash(key_views(keys@), hash@),
        r matches Some(i) ==> hash_at(key_views(keys@), hash@, i as int) && forall|j: int|
            0 <= j < i ==> !#[trigger] hash_at(key_views(keys@), hash@, j),
{
    let mut i: usize = 0;
    while i < keys.len()
        invariant
            i <= keys.len(),
            forall|j: int| 0 <= j < i ==> !#[trigger] hash_at(key_views(keys@), hash@, j),
        decreases keys.len() - i,
    {
        if same(&keys[i].key_hash, hash) {
            assert(hash_at(key_views(keys@), hash@, i as int));
            return Some(i);
        }
        i += 1;
    }
    None
}

/// In distinct keys, the kind of a hash is that of the one key that has it.
pub proof fn kind_is_unique(keys: Seq<RouteKeyView>, hash: Seq<char>, i: int)
    requires
        distinct_hashes(keys),
        hash_at(keys, hash, i),
    ensures
        has_hash(keys, hash),
        kind_of(keys, hash) == keys[i].kind,
{
    let j = choose|j: int| hash_at(keys, hash, j);
    assert(hash_at(keys, hash, j));
    if i < j {
        assert(keys[i].hash != keys[j].hash);
    } else if j < i {
        assert(keys[j].hash != keys[i].hash);
    }
}

/// The given keys checked: refused where there are too many, or as `checked_keys` says.
pub fn validate_session_route_keys(keys: &Vec<SessionRouteKey>) -> (r: Result<
    Vec<SessionRouteKey>,
    AppError,
>)
    ensures
        match r {
            Ok(out) => keys.len() <= 500 && checked_keys(key_views(keys@)) == Ok::<
                Seq<RouteKeyView>,
                Seq<char>,
            >(key_views(out@)),
            Err(e) => e@.0 == AppErrorKind::BadRequest && if keys.len() > 500 {
                e@.1 == too_many_keys()
            } else {
                checked_keys(key_views(keys@)) == Err::<Seq<RouteKeyView>, Seq<char>>(e@.1)
            },
        },
        r matches Ok(out) ==> valid_keys(key_views(out@)) && out.len() <= keys.len() && (keys.len()
            > 0 ==> out.len() > 0),
{
    if keys.len() > MAX_ROUTE_KEYS {
        return Err(bad_request("at most 500 session route keys can be used at once"));
    }
    let ghost all = key_views(keys@);
    let mut out: Vec<SessionRouteKey> = Vec::new();
    let mut i: usize = 0;
    assert(all.take(0) =~= Seq::empty());
    assert(key_views(out@) =~= Seq::empty());
    while i < keys.len()
        invariant
            i <= keys.len() <= 500,
            all == key_views(keys@),
            checked_keys(all.take(i as int)) == Ok::<Seq<RouteKeyView>, Seq<char>>(
                key_views(out@),
            ),
        decreases keys.len() - i,
    {
        let key = &keys[i];
        let kind = trim(&key.kind);
        proof {
            assert(all.take(i as int + 1).drop_last() =~= all.take(i as int));
            assert(all.take(i as int + 1).last() == key@);
            checked_keys_are_valid(all.take(i as int));
        }
        if !valid_affinity_hash(&key.key_hash) {
            proof {
                refused_from(all, i as int + 1);
            }
            return Err(
                bad_request("session route hashes must be 64 lowercase hexadecimal characters"),
            );
        }
        if !valid_word(&kind, 64) {
            proof {
                refused_from(all, i as int + 1);
            }
            return Err(
                bad_request("session route kinds must be 1-64 ASCII letters, numbers, '_' or '-'"),
            );
        }
        match find_hash(&out, &key.key_hash) {
            Some(j) => {
                proof {
                    kind_is_unique(key_views(out@), key.key_hash@, j as int);
                }
                if !same(&out[j].kind, &kind) {
                    proof {
                        refused_from(all, i as int + 1);
                    }
                    return Err(bad_request("one session route hash cannot have multiple kinds"));
                }
            },
            None => {
                let ghost seen = key_views(out@);
                out.push(SessionRouteKey { key_hash: key.key_hash.clone(), kind });
                assert(key_views(out@) =~= seen.push(
                    RouteKeyView { hash: key.key_hash@, kind: kind@ },
                ));
            },
        }
        i += 1;
    }
    proof {
        assert(all.take(all.len() as int) =~= all);
        checked_keys_are_valid(all);
    }
    Ok(out)
}

/// What refuses the first keys refuses all of them.
proof fn refused_from(keys: Seq<RouteKeyView>, n: int)
    requires
        0 <= n <= keys.len(),
        checked_keys(keys.take(n)) is Err,
    ensures
        checked_keys(keys) == checked_keys(keys.take(n)),
    decreases keys.len() - n,
{
    if n == keys.len() {
        assert(keys.take(n) =~= keys);
    } else {
        assert(keys.take(n + 1).drop_last() =~= keys.take(n));
        refused_from(keys, n + 1);
    }
}

/// The words and the hashes of keys, by their characters.
pub proof fn words_and_hashes_by_character(s: Seq<char>, max: nat, i: int)
    requires
        0 <= i < s.len(),
    ensures
        is_affinity_hash(s) ==> s.len() == 64 && ('0' <= s[i] <= '9' || 'a' <= s[i] <= 'f'),
        is_word(s, max) ==> s.len() <= max && ('0' <= s[i] <= '9' || 'a' <= s[i] <= 'z' || 'A'
            <= s[i] <= 'Z' || s[i] == '_' || s[i] == '-'),
        s.len() != 64 ==> !is_affinity_hash(s),
        s.len() > max ==> !is_word(s, max),
        'A' <= s[i] <= 'Z' ==> !is_affinity_hash(s),
        s[i] == ' ' ==> !is_word(s, max) && !is_affinity_hash(s),
{
    if is_affinity_hash(s) {
        assert(is_lower_hex(s[i]));
    }
    if is_word(s, max) {
        assert(is_word_char(s[i]));
    }
}

/// Every key that was given is among the checked ones, with its kind trimmed, and every checked one was
/// given.
pub proof fn checked_keys_are_those_given(keys: Seq<RouteKeyView>, i: int)
    requires
        checked_keys(keys) is Ok,
    ensures
        0 <= i < keys.len() ==> checked_keys(keys)->Ok_0.contains(
            RouteKeyView { hash: keys[i].hash, kind: trimmed(keys[i].kind) },
        ),
        0 <= i < checked_keys(keys)->Ok_0.len() ==> exists|k: int|
            0 <= k < keys.len() && (#[trigger] keys[k]).hash == checked_keys(keys)->Ok_0[i].hash
                && trimmed(keys[k].kind) == checked_keys(keys)->Ok_0[i].kind,
    decreases keys.len(),
{
    if keys.len() > 0 {
        let rest = keys.drop_last();
        let seen = checked_keys(rest)->Ok_0;
        let out = checked_keys(keys)->Ok_0;
        let key = keys.last();
        let last = keys.len() - 1;
        checked_keys_are_those_given(rest, i);
        checked_keys_are_valid(rest);
        if 0 <= i < rest.len() {
            assert(rest[i] == keys[i]);
            let w = RouteKeyView { hash: keys[i].hash, kind: trimmed(keys[i].kind) };
            let k = seen.index_of(w);
            assert(out[k] == w);
        }
        if i == last {
            let w = RouteKeyView { hash: key.hash, kind: trimmed(key.kind) };
            if has_hash(seen, key.hash) {
                let k = choose|k: int| hash_at(seen, key.hash, k);
                assert(seen[k] == w);
                assert(out[k] == w);
            } else {
                assert(out[seen.len() as int] == w);
            }
        }
        if 0 <= i < out.len() {
            if i < seen.len() {
                assert(out[i] == seen[i]);
                let k = choose|k: int|
                    0 <= k < rest.len() && (#[trigger] rest[k]).hash == seen[i].hash && trimmed(
                        rest[k].kind,
                    ) == seen[i].kind;
                assert(keys[k] == rest[k]);
            } else {
                assert(keys[last].hash == out[i].hash);
            }
        }
    }
}

/// Keys are refused for a hash that is none, for a kind that is none, and where one hash has two kinds.
pub proof fn keys_are_refused_for_cause(keys: Seq<RouteKeyView>, i: int, j: int)
    requires
        0 <= i < keys.len(),
        0 <= j < keys.len(),
    ensures
        !is_affinity_hash(keys[i].hash) ==> checked_keys(keys) is Err,
        !is_word(trimmed(keys[i].kind), 64) ==> checked_keys(keys) is Err,
        keys[i].hash == keys[j].hash && trimmed(keys[i].kind) != trimmed(keys[j].kind)
            ==> checked_keys(keys) is Err,
{
    if checked_keys(keys) is Ok {
        let out = checked_keys(keys)->Ok_0;
        checked_keys_are_valid(keys);
        checked_keys_are_those_given(keys, i);
        checked_keys_are_those_given(keys, j);
        let a = RouteKeyView { hash: keys[i].hash, kind: trimmed(keys[i].kind) };
        let b = RouteKeyView { hash: keys[j].hash, kind: trimmed(keys[j].kind) };
        let m = out.index_of(a);
        let n = out.index_of(b);
        assert(out[m] == a && out[n] == b);
        if m < n {
            assert(out[m].hash != out[n].hash);
        } else if n < m {
            assert(out[n].hash != out[m].hash);
        }
    }
}

/// The names of the actions on a route and of their outcomes; a key is seen under its own names.
pub proof fn route_words_have_names(key: SessionRouteKey)
    ensures
        SessionRouteActionKind::Rebalance.text() == "rebalance"@,
        SessionRouteActionKind::Reroute.text() == "reroute"@,
        SessionRouteActionStatus::Applied.text() == "applied"@,
        SessionRouteActionStatus::Fallback.text() == "fallback"@,
        SessionRouteActionStatus::Pending.text() == "pending"@,
        SessionRouteActionStatus::NoOp.text() == "no_op"@,
        key@.hash == key.key_hash@,
        key@.kind == key.kind@,
{
}

} // verus!
