//! The aliases by which a request tells its session.
use vstd::prelude::*;
use vstd::utf8::encode_utf8;
use crate::hashing::{route_key, session_route_key};
use crate::json::{Json, JsonView, json_of_bytes, member2, member_text, opt_view, parse_bytes};
use crate::keys::{
    RouteKeyView, SessionRouteKey, copy_key, find_hash, has_hash, hash_at, is_affinity_hash,
    is_word, key_views, valid_keys,
};
use crate::route_binding::{EpochView, SessionRouteEpoch, epoch_view};
use crate::text::{same, trim, trimmed};
use crate::upstream::{Header, HeaderView, header_views};

verus! {

/// Longer values are not taken for aliases.
pub const AFFINITY_VALUE_LIMIT: usize = 65536;

/// A byte that a header value may hold to be a text.
pub open spec fn is_visible(b: u8) -> bool {
    32 <= b < 127 || b == 9
}

/// The text of a header value, where it is one.
pub open spec fn value_text(value: Seq<u8>) -> Option<Seq<char>> {
    if forall|i: int| 0 <= i < value.len() ==> is_visible(#[trigger] value[i]) {
        Some(Seq::new(value.len(), |i: int| value[i] as char))
    } else {
        None
    }
}

/// The text of the first header with the given name.
pub open spec fn header_text(headers: Seq<HeaderView>, name: Seq<char>) -> Option<Seq<char>>
    decreases headers.len(),
{
    if headers.len() == 0 {
        None
    } else if headers[0].name == name {
        value_text(headers[0].value)
    } else {
        header_text(headers.drop_first(), name)
    }
}

pub open spec fn named_at(headers: Seq<HeaderView>, name: Seq<char>, i: int) -> bool {
    0 <= i < headers.len() && headers[i].name == name
}

pub open spec fn has_header(headers: Seq<HeaderView>, name: Seq<char>) -> bool {
    exists|i: int| named_at(headers, name, i)
}

fn text_of_value(value: &Vec<u8>) -> (r: Option<String>)
    ensures
        r.deep_view() == value_text(value@),
{
    let mut out = String::new();
    let mut i: usize = 0;
    while i < value.len()
        invariant
            i <= value.len(),
            out@ == Seq::new(i as nat, |k: int| value@[k] as char),
            forall|k: int| 0 <= k < i ==> is_visible(#[trigger] value@[k]),
        decreases value.len() - i,
    {
        let b = value[i];
        if !((32 <= b && b < 127) || b == 9) {
            assert(!is_visible(value@[i as int]));
            return None;
        }
        out.push(b as char);
        assert(out@ =~= Seq::new((i + 1) as nat, |k: int| value@[k] as char));
        i += 1;
    }
    Some(out)
}

pub fn get_header(headers: &Vec<Header>, name: &str) -> (r: Option<String>)
    ensures
        r.deep_view() == header_text(header_views(headers@), name@),
{
    let ghost all = header_views(headers@);
    let mut i: usize = 0;
    assert(all.skip(0) =~= all);
    while i < headers.len()
        invariant
            i <= headers.len(),
            all == header_views(headers@),
            header_text(all, name@) == header_text(all.skip(i as int), name@),
        decreases headers.len() - i,
    {
        assert(all.skip(i as int).drop_first() =~= all.skip(i as int + 1));
        assert(all.skip(i as int)[0] == headers@[i as int]@);
        if same(&headers[i].name, name) {
            return text_of_value(&headers[i].value);
        }
        i += 1;
    }
    None
}

pub fn contains_header(headers: &Vec<Header>, name: &str) -> (r: bool)
    ensures
        r == has_header(header_views(headers@), name@),
{
    let mut i: usize = 0;
    while i < headers.len()
        invariant
            i <= headers.len(),
            forall|j: int| 0 <= j < i ==> !#[trigger] named_at(header_views(headers@), name@, j),
        decreases headers.len() - i,
    {
        if same(&headers[i].name, name) {
            assert(named_at(header_views(headers@), name@, i as int));
            return true;
        }
        i += 1;
    }
    false
}

/// A value that can be an alias: trimmed, more than nothing, and not too long.
pub open spec fn alias(value: Option<Seq<char>>) -> Option<Seq<char>> {
    match value {
        Some(text) => {
            let t = trimmed(text);
            if t.len() > 0 && encode_utf8(t).len() <= AFFINITY_VALUE_LIMIT {
                Some(t)
            } else {
                None
            }
        },
        None => None,
    }
}

/// The keys with one more alias, unless its hash is there already.
pub open spec fn with_alias(
    keys: Seq<RouteKeyView>,
    kind: Seq<char>,
    value: Option<Seq<char>>,
) -> Seq<RouteKeyView> {
    match alias(value) {
        Some(text) => if has_hash(keys, route_key(kind, text).hash) {
            keys
        } else {
            keys.push(route_key(kind, text))
        },
        None => keys,
    }
}

pub open spec fn body_text(v: Option<JsonView>, name: Seq<char>) -> Option<Seq<char>> {
    match v {
        Some(x) => member_text(x, name),
        None => None,
    }
}

pub open spec fn metadata_text(v: Option<JsonView>, name: Seq<char>) -> Option<Seq<char>> {
    match v {
        Some(x) => match member2(x, "metadata"@, name) {
            Some(inner) => inner.text(),
            None => None,
        },
        None => None,
    }
}

/// The aliases in the headers of a request.
pub open spec fn header_aliases(headers: Seq<HeaderView>) -> Seq<RouteKeyView> {
    let a = with_alias(Seq::empty(), "turn_state"@, header_text(headers, "x-codex-turn-state"@));
    let b = with_alias(a, "session_id"@, header_text(headers, "session_id"@));
    let c = with_alias(b, "session_id"@, header_text(headers, "x-session-id"@));
    let d = with_alias(c, "session_id"@, header_text(headers, "x-codex-session-id"@));
    let e = with_alias(d, "conversation_id"@, header_text(headers, "x-codex-conversation-id"@));
    with_alias(e, "conversation_id"@, header_text(headers, "conversation_id"@))
}

/// The aliases of a request: those in its headers, then those in its body.
pub open spec fn request_aliases(headers: Seq<HeaderView>, v: Option<JsonView>) -> Seq<
    RouteKeyView,
> {
    let a = with_alias(
        header_aliases(headers),
        "prompt_cache_key"@,
        body_text(v, "prompt_cache_key"@),
    );
    let b = with_alias(a, "session_id"@, body_text(v, "session_id"@));
    let c = with_alias(b, "conversation_id"@, body_text(v, "conversation_id"@));
    let d = with_alias(c, "response_id"@, body_text(v, "previous_response_id"@));
    let e = with_alias(d, "session_id"@, metadata_text(v, "session_id"@));
    with_alias(e, "conversation_id"@, metadata_text(v, "conversation_id"@))
}

fn add_alias(keys: &mut Vec<SessionRouteKey>, kind: &str, value: Option<String>)
    requires
        valid_keys(key_views(old(keys)@)),
        is_word(kind@, 64),
        trimmed(kind@) == kind@,
        old(keys)@.len() < 1000,
    ensures
        valid_keys(key_views(final(keys)@)),
        key_views(final(keys)@) == with_alias(key_views(old(keys)@), kind@, value.deep_view()),
        final(keys)@.len() <= old(keys)@.len() + 1,
{
    let ghost before = key_views(keys@);
    if let Some(text) = value {
        let t = trim(&text);
        if !t.as_str().is_empty() && t.as_str().as_bytes().len() <= AFFINITY_VALUE_LIMIT {
            let key = session_route_key(kind, &t);
            if find_hash(keys, &key.key_hash).is_none() {
                keys.push(key);
                proof {
                    let now = key_views(keys@);
                    assert(now =~= before.push(key@));
                    assert forall|i: int, j: int| 0 <= i < j < now.len() implies (
                    #[trigger] now[i]).hash != (#[trigger] now[j]).hash by {
                        if j == before.len() {
                            assert(!hash_at(before, key@.hash, i));
                        } else {
                            assert(before[i].hash != before[j].hash);
                        }
                    }
                    assert forall|i: int| 0 <= i < now.len() implies is_affinity_hash(
                        (#[trigger] now[i]).hash,
                    ) && is_word(now[i].kind, 64) && trimmed(now[i].kind) == now[i].kind by {
                        if i < before.len() {
                            assert(now[i] == before[i]);
                        }
                    }
                }
            }
        }
    }
}

/// The kinds of aliases are words.
proof fn kinds_are_words()
    ensures
        is_word("turn_state"@, 64) && trimmed("turn_state"@) == "turn_state"@,
        is_word("session_id"@, 64) && trimmed("session_id"@) == "session_id"@,
        is_word("conversation_id"@, 64) && trimmed("conversation_id"@) == "conversation_id"@,
        is_word("prompt_cache_key"@, 64) && trimmed("prompt_cache_key"@) == "prompt_cache_key"@,
        is_word("response_id"@, 64) && trimmed("response_id"@) == "response_id"@,
{
    reveal_strlit("turn_state");
    reveal_strlit("session_id");
    reveal_strlit("conversation_id");
    reveal_strlit("prompt_cache_key");
    reveal_strlit("response_id");
}

fn text_member(value: Option<&Json>, name: &str) -> (r: Option<String>)
    ensures
        r.deep_view() == body_text(opt_view(value), name@),
{
    match value {
        Some(v) => match v.get_str(name) {
            Some(text) => Some(text.to_owned()),
            None => None,
        },
        None => None,
    }
}

fn metadata_member(value: Option<&Json>, name: &str) -> (r: Option<String>)
    ensures
        r.deep_view() == metadata_text(opt_view(value), name@),
{
    match value {
        Some(v) => match v.get2("metadata", name) {
            Some(inner) => match inner.as_str() {
                Some(text) => Some(text.to_owned()),
                None => None,
            },
            None => None,
        },
        None => None,
    }
}

/// The aliases of a request, given the JSON of its body. They are keys that routes accept as they
/// are, each hash once.
pub fn affinities_of(headers: &Vec<Header>, value: Option<&Json>) -> (r: Vec<SessionRouteKey>)
    ensures
        key_views(r@) == request_aliases(header_views(headers@), opt_view(value)),
        valid_keys(key_views(r@)),
        r@.len() <= 12,
{
    proof {
        kinds_are_words();
    }
    let mut keys: Vec<SessionRouteKey> = Vec::new();
    assert(key_views(keys@) =~= Seq::empty());
    add_alias(&mut keys, "turn_state", get_header(headers, "x-codex-turn-state"));
    add_alias(&mut keys, "session_id", get_header(headers, "session_id"));
    add_alias(&mut keys, "session_id", get_header(headers, "x-session-id"));
    add_alias(&mut keys, "session_id", get_header(headers, "x-codex-session-id"));
    add_alias(&mut keys, "conversation_id", get_header(headers, "x-codex-conversation-id"));
    add_alias(&mut keys, "conversation_id", get_header(headers, "conversation_id"));
    add_alias(&mut keys, "prompt_cache_key", text_member(value, "prompt_cache_key"));
    add_alias(&mut keys, "session_id", text_member(value, "session_id"));
    add_alias(&mut keys, "conversation_id", text_member(value, "conversation_id"));
    add_alias(&mut keys, "response_id", text_member(value, "previous_response_id"));
    add_alias(&mut keys, "session_id", metadata_member(value, "session_id"));
    add_alias(&mut keys, "conversation_id", metadata_member(value, "conversation_id"));
    keys
}

/// The aliases of a request.
pub fn request_affinities(headers: &Vec<Header>, body: &[u8]) -> (r: Vec<SessionRouteKey>)
    ensures
        key_views(r@) == request_aliases(header_views(headers@), json_of_bytes(body@)),
        valid_keys(key_views(r@)),
        r@.len() <= 12,
{
    let value = parse_bytes(body);
    match &value {
        Some(v) => affinities_of(headers, Some(v)),
        None => affinities_of(headers, None),
    }
}

/// Whether `i` is the place of the key that an account is looked up by: the first with the hash of
/// the epoch, else the first of all.
pub open spec fn looks_up(keys: Seq<RouteKeyView>, epoch: Option<EpochView>, i: int) -> bool {
    if epoch is Some && has_hash(keys, epoch->0.key) {
        hash_at(keys, epoch->0.key, i) && forall|j: int|
            0 <= j < i ==> !#[trigger] hash_at(keys, epoch->0.key, j)
    } else {
        i == 0 && keys.len() > 0
    }
}

pub fn selection_affinity(keys: &Vec<SessionRouteKey>, epoch: Option<&SessionRouteEpoch>) -> (r:
    Option<usize>)
    ensures
        match r {
            Some(i) => i < keys.len() && looks_up(key_views(keys@), epoch_view(epoch), i as int),
            None => keys.len() == 0,
        },
{
    if let Some(e) = epoch {
        if let Some(i) = find_hash(keys, &e.selection_key_hash) {
            return Some(i);
        }
    }
    if keys.len() > 0 {
        Some(0)
    } else {
        None
    }
}

/// The keys to bind once the identifier of the response is known.
pub open spec fn with_response(keys: Seq<RouteKeyView>, response_id: Seq<char>) -> Seq<
    RouteKeyView,
> {
    let key = route_key("response_id"@, response_id);
    if has_hash(keys, key.hash) {
        keys
    } else {
        keys.push(key)
    }
}

pub fn response_affinities(keys: &Vec<SessionRouteKey>, response_id: &str) -> (r: Vec<
    SessionRouteKey,
>)
    ensures
        key_views(r@) == with_response(key_views(keys@), response_id@),
{
    let mut out: Vec<SessionRouteKey> = Vec::new();
    let ghost all = key_views(keys@);
    let mut i: usize = 0;
    while i < keys.len()
        invariant
            i <= keys.len(),
            all == key_views(keys@),
            key_views(out@) == all.take(i as int),
        decreases keys.len() - i,
    {
        let ghost before = key_views(out@);
        out.push(copy_key(&keys[i]));
        assert(key_views(out@) =~= before.push(all[i as int]));
        assert(all.take(i as int + 1) =~= all.take(i as int).push(all[i as int]));
        i += 1;
    }
    assert(all.take(all.len() as int) =~= all);
    let key = session_route_key("response_id", response_id);
    if find_hash(&out, &key.key_hash).is_none() {
        out.push(key);
        assert(key_views(out@) =~= all.push(key@));
    }
    out
}

/// The text of a header is that of the first header of its name, where all of it can be read; without
/// such a header there is none.
pub proof fn headers_are_read_by_name(headers: Seq<HeaderView>, name: Seq<char>, i: int)
    requires
        0 <= i < headers.len(),
        headers[i].name == name,
        forall|j: int| 0 <= j < i ==> (#[trigger] headers[j]).name != name,
    ensures
        header_text(headers, name) == value_text(headers[i].value),
        has_header(headers, name),
    decreases i,
{
    assert(named_at(headers, name, i));
    if i > 0 {
        assert(headers[0].name != name);
        let rest = headers.drop_first();
        assert forall|j: int| 0 <= j < i - 1 implies (#[trigger] rest[j]).name != name by {
            assert(rest[j] == headers[j + 1]);
        }
        headers_are_read_by_name(rest, name, i - 1);
    }
}

/// A header that is not there has no text.
pub proof fn absent_headers_have_no_text(headers: Seq<HeaderView>, name: Seq<char>)
    requires
        forall|j: int| 0 <= j < headers.len() ==> (#[trigger] headers[j]).name != name,
    ensures
        header_text(headers, name) is None,
        !has_header(headers, name),
    decreases headers.len(),
{
    if headers.len() > 0 {
        assert(headers[0].name != name);
        let rest = headers.drop_first();
        assert forall|j: int| 0 <= j < rest.len() implies (#[trigger] rest[j]).name != name by {
            assert(rest[j] == headers[j + 1]);
        }
        absent_headers_have_no_text(rest, name);
    }
}

/// A value is text where each of its bytes is a printable character or a tab, and then the characters
/// are its bytes.
pub proof fn values_are_plain_text(value: Seq<u8>, i: int)
    requires
        0 <= i < value.len(),
    ensures
        value_text(value) matches Some(text) ==> text.len() == value.len() && text[i]
            == value[i] as char && (32 <= value[i] <= 126 || value[i] == 9),
        value[i] > 126 || (value[i] < 32 && value[i] != 9) ==> value_text(value) is None,
{
    if value_text(value) is Some {
        assert(is_visible(value[i]));
    }
}

/// A name for a session is a text that is more than white space, trimmed, and of 65536 bytes at most.
pub proof fn aliases_are_trimmed(text: Seq<char>)
    ensures
        alias(None) is None,
        trimmed(text).len() == 0 ==> alias(Some(text)) is None,
        trimmed(text).len() > 0 && encode_utf8(trimmed(text)).len() <= 65536 ==> alias(Some(text))
            == Some(trimmed(text)),
        encode_utf8(trimmed(text)).len() > 65536 ==> alias(Some(text)) is None,
{
}

proof fn alias_is_added(
    keys: Seq<RouteKeyView>,
    kind: Seq<char>,
    value: Option<Seq<char>>,
    hash: Seq<char>,
)
    ensures
        has_hash(keys, hash) ==> has_hash(with_alias(keys, kind, value), hash),
        alias(value) matches Some(text) ==> has_hash(
            with_alias(keys, kind, value),
            route_key(kind, text).hash,
        ),
        keys.len() > 0 ==> with_alias(keys, kind, value).len() > 0 && with_alias(
            keys,
            kind,
            value,
        )[0] == keys[0],
        has_hash(with_alias(keys, kind, value), hash) ==> has_hash(keys, hash) || (alias(
            value,
        ) is Some && hash == route_key(kind, alias(value)->0).hash),
{
    let out = with_alias(keys, kind, value);
    if has_hash(keys, hash) {
        let i = choose|i: int| hash_at(keys, hash, i);
        assert(hash_at(out, hash, i));
    }
    if let Some(text) = alias(value) {
        let key = route_key(kind, text);
        if has_hash(keys, key.hash) {
            assert(out == keys);
        } else {
            assert(hash_at(out, key.hash, keys.len() as int));
        }
    }
    if has_hash(out, hash) {
        let i = choose|i: int| hash_at(out, hash, i);
        if i < keys.len() {
            assert(hash_at(keys, hash, i));
        }
    }
}

/// Every name that a request gives for its session leads to a key, of the kind that the name is of:
/// from its headers the state of the turn, the session and the conversation.
pub proof fn headers_name_the_session(headers: Seq<HeaderView>, v: Option<JsonView>)
    ensures
        ({
            let keys = request_aliases(headers, v);
            &&& alias(header_text(headers, "x-codex-turn-state"@)) matches Some(text) ==> has_hash(
                keys,
                route_key("turn_state"@, text).hash,
            ) && keys[0] == route_key("turn_state"@, text)
            &&& alias(header_text(headers, "session_id"@)) matches Some(text) ==> has_hash(
                keys,
                route_key("session_id"@, text).hash,
            )
            &&& alias(header_text(headers, "x-session-id"@)) matches Some(text) ==> has_hash(
                keys,
                route_key("session_id"@, text).hash,
            )
            &&& alias(header_text(headers, "x-codex-session-id"@)) matches Some(text) ==> has_hash(
                keys,
                route_key("session_id"@, text).hash,
            )
            &&& alias(header_text(headers, "x-codex-conversation-id"@)) matches Some(text)
                ==> has_hash(keys, route_key("conversation_id"@, text).hash)
            &&& alias(header_text(headers, "conversation_id"@)) matches Some(text) ==> has_hash(
                keys,
                route_key("conversation_id"@, text).hash,
            )
        }),
{
    headers_are_gathered(headers);
    let hs = header_aliases(headers);
    let a = with_alias(hs, "prompt_cache_key"@, body_text(v, "prompt_cache_key"@));
    let b = with_alias(a, "session_id"@, body_text(v, "session_id"@));
    let c = with_alias(b, "conversation_id"@, body_text(v, "conversation_id"@));
    let d = with_alias(c, "response_id"@, body_text(v, "previous_response_id"@));
    let e = with_alias(d, "session_id"@, metadata_text(v, "session_id"@));
    assert forall|h: Seq<char>| #[trigger] has_hash(hs, h) implies has_hash(
        request_aliases(headers, v),
        h,
    ) by {
        alias_is_added(hs, "prompt_cache_key"@, body_text(v, "prompt_cache_key"@), h);
        alias_is_added(a, "session_id"@, body_text(v, "session_id"@), h);
        alias_is_added(b, "conversation_id"@, body_text(v, "conversation_id"@), h);
        alias_is_added(c, "response_id"@, body_text(v, "previous_response_id"@), h);
        alias_is_added(d, "session_id"@, metadata_text(v, "session_id"@), h);
        alias_is_added(e, "conversation_id"@, metadata_text(v, "conversation_id"@), h);
    }
    let h = Seq::<char>::empty();
    alias_is_added(hs, "prompt_cache_key"@, body_text(v, "prompt_cache_key"@), h);
    alias_is_added(a, "session_id"@, body_text(v, "session_id"@), h);
    alias_is_added(b, "conversation_id"@, body_text(v, "conversation_id"@), h);
    alias_is_added(c, "response_id"@, body_text(v, "previous_response_id"@), h);
    alias_is_added(d, "session_id"@, metadata_text(v, "session_id"@), h);
    alias_is_added(e, "conversation_id"@, metadata_text(v, "conversation_id"@), h);
}

proof fn headers_are_gathered(headers: Seq<HeaderView>)
    ensures
        ({
            let keys = header_aliases(headers);
            &&& alias(header_text(headers, "x-codex-turn-state"@)) matches Some(text) ==> has_hash(
                keys,
                route_key("turn_state"@, text).hash,
            ) && keys.len() > 0 && keys[0] == route_key("turn_state"@, text)
            &&& alias(header_text(headers, "session_id"@)) matches Some(text) ==> has_hash(
                keys,
                route_key("session_id"@, text).hash,
            )
            &&& alias(header_text(headers, "x-session-id"@)) matches Some(text) ==> has_hash(
                keys,
                route_key("session_id"@, text).hash,
            )
            &&& alias(header_text(headers, "x-codex-session-id"@)) matches Some(text) ==> has_hash(
                keys,
                route_key("session_id"@, text).hash,
            )
            &&& alias(header_text(headers, "x-codex-conversation-id"@)) matches Some(text)
                ==> has_hash(keys, route_key("conversation_id"@, text).hash)
            &&& alias(header_text(headers, "conversation_id"@)) matches Some(text) ==> has_hash(
                keys,
                route_key("conversation_id"@, text).hash,
            )
        }),
{
    let t = header_text(headers, "x-codex-turn-state"@);
    let s1 = header_text(headers, "session_id"@);
    let s2 = header_text(headers, "x-session-id"@);
    let s3 = header_text(headers, "x-codex-session-id"@);
    let c1 = header_text(headers, "x-codex-conversation-id"@);
    let c2 = header_text(headers, "conversation_id"@);
    let none = Seq::<RouteKeyView>::empty();
    let a = with_alias(none, "turn_state"@, t);
    let b = with_alias(a, "session_id"@, s1);
    let c = with_alias(b, "session_id"@, s2);
    let d = with_alias(c, "session_id"@, s3);
    let e = with_alias(d, "conversation_id"@, c1);
    let h = Seq::<char>::empty();
    alias_is_added(none, "turn_state"@, t, h);
    alias_is_added(a, "session_id"@, s1, h);
    alias_is_added(b, "session_id"@, s2, h);
    alias_is_added(c, "session_id"@, s3, h);
    alias_is_added(d, "conversation_id"@, c1, h);
    alias_is_added(e, "conversation_id"@, c2, h);
    assert forall|x: Seq<char>| #[trigger] has_hash(a, x) implies has_hash(
        header_aliases(headers),
        x,
    ) by {
        alias_is_added(a, "session_id"@, s1, x);
        alias_is_added(b, "session_id"@, s2, x);
        alias_is_added(c, "session_id"@, s3, x);
        alias_is_added(d, "conversation_id"@, c1, x);
        alias_is_added(e, "conversation_id"@, c2, x);
    }
    assert forall|x: Seq<char>| #[trigger] has_hash(b, x) implies has_hash(
        header_aliases(headers),
        x,
    ) by {
        alias_is_added(b, "session_id"@, s2, x);
        alias_is_added(c, "session_id"@, s3, x);
        alias_is_added(d, "conversation_id"@, c1, x);
        alias_is_added(e, "conversation_id"@, c2, x);
    }
    assert forall|x: Seq<char>| #[trigger] has_hash(c, x) implies has_hash(
        header_aliases(headers),
        x,
    ) by {
        alias_is_added(c, "session_id"@, s3, x);
        alias_is_added(d, "conversation_id"@, c1, x);
        alias_is_added(e, "conversation_id"@, c2, x);
    }
    assert forall|x: Seq<char>| #[trigger] has_hash(d, x) implies has_hash(
        header_aliases(headers),
        x,
    ) by {
        alias_is_added(d, "conversation_id"@, c1, x);
        alias_is_added(e, "conversation_id"@, c2, x);
    }
    assert forall|x: Seq<char>| #[trigger] has_hash(e, x) implies has_hash(
        header_aliases(headers),
        x,
    ) by {
        alias_is_added(e, "conversation_id"@, c2, x);
    }
    if alias(t) is Some {
        assert(!has_hash(none, route_key("turn_state"@, alias(t)->0).hash));
        assert(a[0] == route_key("turn_state"@, alias(t)->0));
    }
}

/// From its body, the key of its cache, its session, its conversation and the response that it goes on
/// from, and what its metadata say of the session and the conversation.
pub proof fn bodies_name_the_session(headers: Seq<HeaderView>, v: JsonView, m: JsonView, text: Seq<char>)
    requires
        trimmed(text).len() > 0,
        encode_utf8(trimmed(text)).len() <= 65536,
    ensures
        ({
            let keys = request_aliases(headers, Some(v));
            &&& v.get("prompt_cache_key"@) == Some(JsonView::Str(text)) ==> has_hash(
                keys,
                route_key("prompt_cache_key"@, trimmed(text)).hash,
            )
            &&& v.get("session_id"@) == Some(JsonView::Str(text)) ==> has_hash(
                keys,
                route_key("session_id"@, trimmed(text)).hash,
            )
            &&& v.get("conversation_id"@) == Some(JsonView::Str(text)) ==> has_hash(
                keys,
                route_key("conversation_id"@, trimmed(text)).hash,
            )
            &&& v.get("previous_response_id"@) == Some(JsonView::Str(text)) ==> has_hash(
                keys,
                route_key("response_id"@, trimmed(text)).hash,
            )
            &&& v.get("metadata"@) == Some(m) && m.get("session_id"@) == Some(JsonView::Str(text))
                ==> has_hash(keys, route_key("session_id"@, trimmed(text)).hash)
            &&& v.get("metadata"@) == Some(m) && m.get("conversation_id"@) == Some(
                JsonView::Str(text),
            ) ==> has_hash(keys, route_key("conversation_id"@, trimmed(text)).hash)
        }),
{
    let o = Some(v);
    let hs = header_aliases(headers);
    let p = body_text(o, "prompt_cache_key"@);
    let s = body_text(o, "session_id"@);
    let k = body_text(o, "conversation_id"@);
    let r = body_text(o, "previous_response_id"@);
    let ms = metadata_text(o, "session_id"@);
    let mc = metadata_text(o, "conversation_id"@);
    let a = with_alias(hs, "prompt_cache_key"@, p);
    let b = with_alias(a, "session_id"@, s);
    let c = with_alias(b, "conversation_id"@, k);
    let d = with_alias(c, "response_id"@, r);
    let e = with_alias(d, "session_id"@, ms);
    let x1 = route_key("prompt_cache_key"@, trimmed(text)).hash;
    let x2 = route_key("session_id"@, trimmed(text)).hash;
    let x3 = route_key("conversation_id"@, trimmed(text)).hash;
    let x4 = route_key("response_id"@, trimmed(text)).hash;
    alias_is_added(hs, "prompt_cache_key"@, p, x1);
    alias_is_added(a, "session_id"@, s, x1);
    alias_is_added(b, "conversation_id"@, k, x1);
    alias_is_added(c, "response_id"@, r, x1);
    alias_is_added(d, "session_id"@, ms, x1);
    alias_is_added(e, "conversation_id"@, mc, x1);
    alias_is_added(b, "conversation_id"@, k, x2);
    alias_is_added(c, "response_id"@, r, x2);
    alias_is_added(d, "session_id"@, ms, x2);
    alias_is_added(e, "conversation_id"@, mc, x2);
    alias_is_added(c, "response_id"@, r, x3);
    alias_is_added(d, "session_id"@, ms, x3);
    alias_is_added(e, "conversation_id"@, mc, x3);
    alias_is_added(d, "session_id"@, ms, x4);
    alias_is_added(e, "conversation_id"@, mc, x4);
}

/// A request without any name for its session has no key.
pub proof fn unnamed_requests_have_no_keys(headers: Seq<HeaderView>)
    requires
        headers.len() == 0,
    ensures
        request_aliases(headers, None).len() == 0,
{
}

/// The account is looked up by the key that the session is known under, where it is among the keys, and
/// by the first key otherwise.
pub proof fn known_keys_are_looked_up_first(keys: Seq<RouteKeyView>, epoch: EpochView, i: int)
    ensures
        looks_up(keys, None, i) <==> i == 0 && keys.len() > 0,
        looks_up(keys, Some(epoch), i) && has_hash(keys, epoch.key) ==> 0 <= i < keys.len()
            && keys[i].hash == epoch.key,
        !has_hash(keys, epoch.key) ==> (looks_up(keys, Some(epoch), i) <==> i == 0 && keys.len()
            > 0),
{
}

/// A response adds its own key to those of its request, which stay where they are.
pub proof fn responses_add_their_key(keys: Seq<RouteKeyView>, response_id: Seq<char>, i: int)
    ensures
        has_hash(with_response(keys, response_id), route_key("response_id"@, response_id).hash),
        0 <= i < keys.len() ==> with_response(keys, response_id).len() >= keys.len()
            && with_response(keys, response_id)[i] == keys[i],
        with_response(keys, response_id).len() <= keys.len() + 1,
{
    let key = route_key("response_id"@, response_id);
    if !has_hash(keys, key.hash) {
        assert(hash_at(with_response(keys, response_id), key.hash, keys.len() as int));
    }
}

/// Whether a key is of the given kind and of a value that was given.
pub open spec fn is_of(key: RouteKeyView, kind: Seq<char>, value: Option<Seq<char>>) -> bool {
    alias(value) matches Some(text) && key == route_key(kind, text)
}

proof fn added_aliases_are_given(
    keys: Seq<RouteKeyView>,
    kind: Seq<char>,
    value: Option<Seq<char>>,
    i: int,
)
    requires
        0 <= i < with_alias(keys, kind, value).len(),
    ensures
        i < keys.len() && with_alias(keys, kind, value)[i] == keys[i] || is_of(
            with_alias(keys, kind, value)[i],
            kind,
            value,
        ),
{
}

/// No key comes from elsewhere: each is of a value that the headers give under a name that is read.
pub proof fn header_keys_are_of_headers(headers: Seq<HeaderView>, i: int)
    requires
        0 <= i < header_aliases(headers).len(),
    ensures
        ({
            let key = header_aliases(headers)[i];
            ||| is_of(key, "turn_state"@, header_text(headers, "x-codex-turn-state"@))
            ||| is_of(key, "session_id"@, header_text(headers, "session_id"@))
            ||| is_of(key, "session_id"@, header_text(headers, "x-session-id"@))
            ||| is_of(key, "session_id"@, header_text(headers, "x-codex-session-id"@))
            ||| is_of(key, "conversation_id"@, header_text(headers, "x-codex-conversation-id"@))
            ||| is_of(key, "conversation_id"@, header_text(headers, "conversation_id"@))
        }),
{
    let none = Seq::<RouteKeyView>::empty();
    let turn = header_text(headers, "x-codex-turn-state"@);
    let a = with_alias(none, "turn_state"@, turn);
    let b = with_alias(a, "session_id"@, header_text(headers, "session_id"@));
    let c = with_alias(b, "session_id"@, header_text(headers, "x-session-id"@));
    let d = with_alias(c, "session_id"@, header_text(headers, "x-codex-session-id"@));
    let e = with_alias(d, "conversation_id"@, header_text(headers, "x-codex-conversation-id"@));
    added_aliases_are_given(e, "conversation_id"@, header_text(headers, "conversation_id"@), i);
    if i < e.len() {
        added_aliases_are_given(d, "conversation_id"@, header_text(headers, "x-codex-conversation-id"@), i);
    }
    if i < d.len() {
        added_aliases_are_given(c, "session_id"@, header_text(headers, "x-codex-session-id"@), i);
    }
    if i < c.len() {
        added_aliases_are_given(b, "session_id"@, header_text(headers, "x-session-id"@), i);
    }
    if i < b.len() {
        added_aliases_are_given(a, "session_id"@, header_text(headers, "session_id"@), i);
    }
    if i < a.len() {
        added_aliases_are_given(none, "turn_state"@, turn, i);
    }
}

/// The keys of the headers come first; each other key is of a value that the body gives under a name
/// that is read.
pub proof fn other_keys_are_of_the_body(headers: Seq<HeaderView>, v: Option<JsonView>, i: int)
    requires
        0 <= i < request_aliases(headers, v).len(),
    ensures
        ({
            let key = request_aliases(headers, v)[i];
            ||| i < header_aliases(headers).len() && key == header_aliases(headers)[i]
            ||| is_of(key, "prompt_cache_key"@, body_text(v, "prompt_cache_key"@))
            ||| is_of(key, "session_id"@, body_text(v, "session_id"@))
            ||| is_of(key, "conversation_id"@, body_text(v, "conversation_id"@))
            ||| is_of(key, "response_id"@, body_text(v, "previous_response_id"@))
            ||| is_of(key, "session_id"@, metadata_text(v, "session_id"@))
            ||| is_of(key, "conversation_id"@, metadata_text(v, "conversation_id"@))
        }),
{
    let h = header_aliases(headers);
    let a = with_alias(h, "prompt_cache_key"@, body_text(v, "prompt_cache_key"@));
    let b = with_alias(a, "session_id"@, body_text(v, "session_id"@));
    let c = with_alias(b, "conversation_id"@, body_text(v, "conversation_id"@));
    let d = with_alias(c, "response_id"@, body_text(v, "previous_response_id"@));
    let e = with_alias(d, "session_id"@, metadata_text(v, "session_id"@));
    added_aliases_are_given(e, "conversation_id"@, metadata_text(v, "conversation_id"@), i);
    if i < e.len() {
        added_aliases_are_given(d, "session_id"@, metadata_text(v, "session_id"@), i);
    }
    if i < d.len() {
        added_aliases_are_given(c, "response_id"@, body_text(v, "previous_response_id"@), i);
    }
    if i < c.len() {
        added_aliases_are_given(b, "conversation_id"@, body_text(v, "conversation_id"@), i);
    }
    if i < b.len() {
        added_aliases_are_given(a, "session_id"@, body_text(v, "session_id"@), i);
    }
    if i < a.len() {
        added_aliases_are_given(h, "prompt_cache_key"@, body_text(v, "prompt_cache_key"@), i);
    }
}

} // verus!
