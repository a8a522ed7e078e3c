//! Codex sessions on this machine: which rollouts belong to one session tree, and the route keys of
//! a tree.
use vstd::prelude::*;
use std::collections::HashMap;
use crate::hashing::{affinity_hash, key_hash, route_key, session_route_key};
use crate::ids::{parse_uuid, text_of_uuid, uuid_of_text, uuid_text};
use crate::json::{
    Json, JsonView, json_of_text, member_text, members_are_first_entries, opt_view, parse_text,
};
use crate::keys::{
    RouteKeyView, SessionRouteKey, find_hash, has_hash, hash_at, is_affinity_hash, is_word,
    key_views, valid_keys,
};
use crate::text::{chars_of, concat, ends_with, same, slice_of, strip_suffix, trim, trimmed};

verus! {

/// How many lines of a rollout are searched for its metadata.
pub const SESSION_META_SCAN_LINE_LIMIT: usize = 64;

/// How many bytes of a rollout are searched for its metadata.
pub const SESSION_META_SCAN_BYTE_LIMIT: usize = 1048576;

/// How many route keys one command can have.
pub const MAX_SESSION_ACTION_KEYS: usize = 500;

/// One rollout: its identifier, what it says of its session, and when it was last written.
#[derive(Debug, Clone, Copy, PartialEq, Eq, Structural)]
pub struct RolloutNode {
    pub id: u128,
    pub session_id: Option<u128>,
    pub parent_thread_id: Option<u128>,
    pub forked_from_id: Option<u128>,
    pub modified: i64,
}

pub open spec fn parent_of(n: RolloutNode) -> Option<u128> {
    match n.parent_thread_id {
        Some(id) => Some(id),
        None => n.forked_from_id,
    }
}

pub open spec fn same_links(a: RolloutNode, b: RolloutNode) -> bool {
    a.session_id == b.session_id && a.parent_thread_id == b.parent_thread_id && a.forked_from_id
        == b.forked_from_id
}

impl RolloutNode {
    pub fn has_same_links(&self, other: &RolloutNode) -> (r: bool)
        ensures
            r == same_links(*self, *other),
    {
        self.session_id == other.session_id && self.parent_thread_id == other.parent_thread_id
            && self.forked_from_id == other.forked_from_id
    }

    pub fn parent_id(&self) -> (r: Option<u128>)
        ensures
            r == parent_of(*self),
    {
        match self.parent_thread_id {
            Some(id) => Some(id),
            None => self.forked_from_id,
        }
    }
}

/// Why a session tree cannot be used.
#[derive(Debug)]
pub enum SessionError {
    Issue(String),
    Cycle,
    NotARoot,
    RootConflict,
    Inconsistent(String),
    TooManyKeys,
}

pub enum SessionErrorView {
    Issue(Seq<char>),
    Cycle,
    NotARoot,
    RootConflict,
    Inconsistent(Seq<char>),
    TooManyKeys,
}

impl View for SessionError {
    type V = SessionErrorView;

    open spec fn view(&self) -> SessionErrorView {
        match self {
            SessionError::Issue(text) => SessionErrorView::Issue(text@),
            SessionError::Cycle => SessionErrorView::Cycle,
            SessionError::NotARoot => SessionErrorView::NotARoot,
            SessionError::RootConflict => SessionErrorView::RootConflict,
            SessionError::Inconsistent(text) => SessionErrorView::Inconsistent(text@),
            SessionError::TooManyKeys => SessionErrorView::TooManyKeys,
        }
    }
}

pub open spec fn error_text(e: SessionErrorView) -> Seq<char> {
    match e {
        SessionErrorView::Issue(text) => "cannot resolve this session tree: "@ + text,
        SessionErrorView::Cycle =>
            "cannot resolve this session tree because its parent graph contains a cycle"@,
        SessionErrorView::NotARoot =>
            "cannot resolve this session tree because its authoritative root is not a root"@,
        SessionErrorView::RootConflict =>
            "cannot resolve this session tree because its session_id conflicts with its parent root"@,
        SessionErrorView::Inconsistent(text) =>
            "cannot mutate session routes because the requested rollout tree has inconsistent metadata: "@
            + text,
        SessionErrorView::TooManyKeys =>
            "session tree requires more than 500 route keys; refusing to operate on only part of the tree"@,
    }
}

impl SessionError {
    pub fn message(&self) -> (r: String)
        ensures
            r@ == error_text(self@),
    {
        match self {
            SessionError::Issue(text) => concat("cannot resolve this session tree: ", text),
            SessionError::Cycle =>
                "cannot resolve this session tree because its parent graph contains a cycle".to_owned(),
            SessionError::NotARoot =>
                "cannot resolve this session tree because its authoritative root is not a root".to_owned(),
            SessionError::RootConflict =>
                "cannot resolve this session tree because its session_id conflicts with its parent root".to_owned(),
            SessionError::Inconsistent(text) => concat(
                "cannot mutate session routes because the requested rollout tree has inconsistent metadata: ",
                text,
            ),
            SessionError::TooManyKeys =>
                "session tree requires more than 500 route keys; refusing to operate on only part of the tree".to_owned(),
        }
    }
}

/// All rollouts that were found, each identifier once, and what is wrong with some.
pub struct SessionCatalog {
    nodes: Vec<RolloutNode>,
    issues: HashMap<u128, String>,
}

pub struct CatalogView {
    pub nodes: Seq<RolloutNode>,
    pub issues: Map<u128, Seq<char>>,
}

impl View for SessionCatalog {
    type V = CatalogView;

    closed spec fn view(&self) -> CatalogView {
        CatalogView {
            nodes: self.nodes@,
            issues: Map::new(
                |id: u128| self.issues@.contains_key(id),
                |id: u128| self.issues@[id]@,
            ),
        }
    }
}

pub open spec fn node_at(nodes: Seq<RolloutNode>, id: u128, i: int) -> bool {
    0 <= i < nodes.len() && nodes[i].id == id
}

pub open spec fn has_node(nodes: Seq<RolloutNode>, id: u128) -> bool {
    exists|i: int| node_at(nodes, id, i)
}

/// The rollout with the given identifier.
pub open spec fn node_of(nodes: Seq<RolloutNode>, id: u128) -> RolloutNode {
    nodes[choose|i: int| node_at(nodes, id, i)]
}

pub open spec fn distinct_ids(nodes: Seq<RolloutNode>) -> bool {
    forall|i: int, j: int|
        0 <= i < j < nodes.len() ==> (#[trigger] nodes[i]).id != (#[trigger] nodes[j]).id
}

/// How many rollouts are not on the path.
pub open spec fn off_path(nodes: Seq<RolloutNode>, path: Seq<u128>) -> nat
    decreases nodes.len(),
{
    if nodes.len() == 0 {
        0
    } else {
        off_path(nodes.drop_last(), path) + if path.contains(nodes.last().id) {
            0nat
        } else {
            1nat
        }
    }
}

/// A longer path leaves fewer rollouts off it.
pub(crate) proof fn off_path_shrinks(nodes: Seq<RolloutNode>, path: Seq<u128>, id: u128)
    ensures
        off_path(nodes, path.push(id)) <= off_path(nodes, path),
        has_node(nodes, id) && !path.contains(id) ==> off_path(nodes, path.push(id)) < off_path(
            nodes,
            path,
        ),
    decreases nodes.len(),
{
    let longer = path.push(id);
    assert forall|x: u128| longer.contains(x) <==> path.contains(x) || x == id by {
        if path.contains(x) {
            let k = path.index_of(x);
            assert(longer[k] == x);
        }
        if x == id {
            assert(longer[path.len() as int] == x);
        }
    }
    if nodes.len() > 0 {
        off_path_shrinks(nodes.drop_last(), path, id);
        if has_node(nodes, id) && !has_node(nodes.drop_last(), id) {
            let i = choose|i: int| node_at(nodes, id, i);
            if i < nodes.len() - 1 {
                assert(node_at(nodes.drop_last(), id, i));
            }
        }
    }
}

/// The root of the session that a rollout belongs to, or why it cannot be told. A rollout that
/// names its session belongs to it, provided that the session is a root and the rollout's parent
/// belongs to it too; else it belongs where its parent does, else to itself. What is not in the
/// catalog is a root.
pub open spec fn root_of(c: CatalogView, id: u128, path: Seq<u128>) -> Result<
    u128,
    SessionErrorView,
>
    decreases off_path(c.nodes, path),
    via root_of_decreases
{
    if c.issues.contains_key(id) {
        Err(SessionErrorView::Issue(c.issues[id]))
    } else if !has_node(c.nodes, id) {
        Ok(id)
    } else if path.contains(id) {
        Err(SessionErrorView::Cycle)
    } else {
        let node = node_of(c.nodes, id);
        let longer = path.push(id);
        match node.session_id {
            Some(session) => {
                let claimed = if session == id {
                    Ok(id)
                } else if has_node(c.nodes, session) {
                    match root_of(c, session, longer) {
                        Ok(r) => if r == session {
                            Ok(session)
                        } else {
                            Err(SessionErrorView::NotARoot)
                        },
                        Err(e) => Err(e),
                    }
                } else if c.issues.contains_key(session) {
                    Err(SessionErrorView::Issue(c.issues[session]))
                } else {
                    Ok(session)
                };
                match claimed {
                    Err(e) => Err(e),
                    Ok(root) => match parent_of(node) {
                        None => Ok(root),
                        Some(parent) => match root_of(c, parent, longer) {
                            Err(e) => Err(e),
                            Ok(r) => if r == root {
                                Ok(root)
                            } else {
                                Err(SessionErrorView::RootConflict)
                            },
                        },
                    },
                }
            },
            None => match parent_of(node) {
                Some(parent) => root_of(c, parent, longer),
                None => Ok(id),
            },
        }
    }
}

#[via_fn]
proof fn root_of_decreases(c: CatalogView, id: u128, path: Seq<u128>) {
    off_path_shrinks(c.nodes, path, id);
}

pub open spec fn canonical(c: CatalogView, id: u128) -> Result<u128, SessionErrorView> {
    root_of(c, id, Seq::empty())
}

/// A session tree: its root, its members in order, and when one of them was last written.
#[derive(Debug)]
pub struct SessionTree {
    pub root_id: u128,
    pub member_ids: Vec<u128>,
    pub modified: i64,
}

/// The catalog with one more rollout. One that is known already keeps its links and the later time;
/// where the links differ, that is noted.
pub open spec fn with_node(c: CatalogView, node: RolloutNode) -> CatalogView {
    if has_node(c.nodes, node.id) {
        let i = choose|i: int| node_at(c.nodes, node.id, i);
        let known = c.nodes[i];
        CatalogView {
            nodes: if node.modified > known.modified {
                c.nodes.update(i, RolloutNode { modified: node.modified, ..known })
            } else {
                c.nodes
            },
            issues: if same_links(known, node) {
                c.issues
            } else {
                c.issues.insert(
                    node.id,
                    "conflicting session metadata exists for one rollout ID"@,
                )
            },
        }
    } else {
        CatalogView { nodes: c.nodes.push(node), issues: c.issues }
    }
}

/// What a rollout's metadata says, or why it cannot be used.
pub open spec fn node_from_meta(meta: JsonView, modified: i64) -> Result<RolloutNode, Seq<char>> {
    match meta.get("payload"@) {
        Some(JsonView::Object(entries)) => {
            let payload = JsonView::Object(entries);
            let id = required_id(payload.get("id"@), "id"@);
            let session = optional_id(payload.get("session_id"@), "session_id"@);
            let parent = optional_id(payload.get("parent_thread_id"@), "parent_thread_id"@);
            let forked = optional_id(payload.get("forked_from_id"@), "forked_from_id"@);
            if id is Err {
                Err(id->Err_0)
            } else if session is Err {
                Err(session->Err_0)
            } else if parent is Err {
                Err(parent->Err_0)
            } else if forked is Err {
                Err(forked->Err_0)
            } else {
                Ok(
                    RolloutNode {
                        id: id->Ok_0,
                        session_id: session->Ok_0,
                        parent_thread_id: parent->Ok_0,
                        forked_from_id: forked->Ok_0,
                        modified,
                    },
                )
            }
        },
        _ => Err("session_meta payload must be an object"@),
    }
}

pub open spec fn not_text(name: Seq<char>) -> Seq<char> {
    "session_meta payload."@ + name + " must be a UUID string"@
}

pub open spec fn not_uuid(name: Seq<char>) -> Seq<char> {
    "session_meta payload."@ + name + " must be a UUID"@
}

pub open spec fn required_id(v: Option<JsonView>, name: Seq<char>) -> Result<u128, Seq<char>> {
    match v {
        Some(JsonView::Str(text)) => if trimmed(text).len() == 0 {
            Err(not_text(name))
        } else {
            match uuid_of_text(text) {
                Some(id) => Ok(id),
                None => Err(not_uuid(name)),
            }
        },
        _ => Err(not_text(name)),
    }
}

pub open spec fn optional_id(v: Option<JsonView>, name: Seq<char>) -> Result<
    Option<u128>,
    Seq<char>,
> {
    match v {
        None => Ok(None),
        Some(JsonView::Null) => Ok(None),
        Some(JsonView::Str(text)) => if trimmed(text).len() == 0 {
            Ok(None)
        } else {
            match uuid_of_text(text) {
                Some(id) => Ok(Some(id)),
                None => Err(not_uuid(name)),
            }
        },
        Some(_) => Err(not_text(name)),
    }
}

fn field_text(name: &str, tail: &str) -> (r: String)
    ensures
        r@ == "session_meta payload."@ + name@ + tail@,
{
    let start = concat("session_meta payload.", name);
    concat(&start, tail)
}

pub fn required_uuid_field(value: Option<&Json>, name: &str) -> (r: Result<u128, String>)
    ensures
        match r {
            Ok(id) => required_id(opt_view(value), name@) == Ok::<u128, Seq<char>>(id),
            Err(e) => required_id(opt_view(value), name@) == Err::<u128, Seq<char>>(e@),
        },
{
    match value {
        Some(Json::Str(text)) => if trim(text).as_str().is_empty() {
            Err(field_text(name, " must be a UUID string"))
        } else {
            match parse_uuid(text) {
                Some(id) => Ok(id),
                None => Err(field_text(name, " must be a UUID")),
            }
        },
        _ => Err(field_text(name, " must be a UUID string")),
    }
}

pub fn optional_uuid_field(value: Option<&Json>, name: &str) -> (r: Result<Option<u128>, String>)
    ensures
        match r {
            Ok(id) => optional_id(opt_view(value), name@) == Ok::<Option<u128>, Seq<char>>(id),
            Err(e) => optional_id(opt_view(value), name@) == Err::<Option<u128>, Seq<char>>(e@),
        },
{
    match value {
        None => Ok(None),
        Some(Json::Null) => Ok(None),
        Some(Json::Str(text)) => if trim(text).as_str().is_empty() {
            Ok(None)
        } else {
            match parse_uuid(text) {
                Some(id) => Ok(Some(id)),
                None => Err(field_text(name, " must be a UUID")),
            }
        },
        Some(_) => Err(field_text(name, " must be a UUID string")),
    }
}

/// A rollout from its metadata.
pub fn rollout_node_from_meta(meta: &Json, modified: i64) -> (r: Result<RolloutNode, String>)
    ensures
        match r {
            Ok(node) => node_from_meta(meta@, modified) == Ok::<RolloutNode, Seq<char>>(node),
            Err(e) => node_from_meta(meta@, modified) == Err::<RolloutNode, Seq<char>>(e@),
        },
{
    let payload = match meta.get("payload") {
        Some(payload) => payload,
        None => return Err("session_meta payload must be an object".to_owned()),
    };
    if !payload.is_object() {
        return Err("session_meta payload must be an object".to_owned());
    }
    let id = match required_uuid_field(payload.get("id"), "id") {
        Ok(id) => id,
        Err(e) => return Err(e),
    };
    let session_id = match optional_uuid_field(payload.get("session_id"), "session_id") {
        Ok(id) => id,
        Err(e) => return Err(e),
    };
    let parent_thread_id = match optional_uuid_field(
        payload.get("parent_thread_id"),
        "parent_thread_id",
    ) {
        Ok(id) => id,
        Err(e) => return Err(e),
    };
    let forked_from_id = match optional_uuid_field(
        payload.get("forked_from_id"),
        "forked_from_id",
    ) {
        Ok(id) => id,
        Err(e) => return Err(e),
    };
    Ok(RolloutNode { id, session_id, parent_thread_id, forked_from_id, modified })
}

pub open spec fn is_ascii_text(s: Seq<char>) -> bool {
    forall|i: int| 0 <= i < s.len() ==> #[trigger] s[i] <= '\u{7f}'
}

/// The identifier in the name of a rollout file: the last 36 characters before `.jsonl`.
pub open spec fn id_in_name(name: Seq<char>) -> Option<u128> {
    if ends_with(name, ".jsonl"@) && name.len() > 6 {
        let stem = name.take(name.len() - 6);
        if stem.len() < 36 {
            None
        } else {
            let tail = stem.skip(stem.len() - 36);
            if is_ascii_text(tail) {
                uuid_of_text(tail)
            } else {
                None
            }
        }
    } else {
        None
    }
}

pub fn session_id_from_rollout_path(file_name: &str) -> (r: Option<u128>)
    ensures
        r == id_in_name(file_name@),
{
    proof {
        reveal_strlit(".jsonl");
        assert(".jsonl"@.len() == 6);
    }
    let stem = match strip_suffix(file_name, ".jsonl") {
        Some(stem) => stem,
        None => return None,
    };
    let chars = chars_of(&stem);
    if chars.len() < 36 {
        return None;
    }
    let from: usize = chars.len() - 36;
    let ghost tail = stem@.skip(stem@.len() - 36);
    let mut i: usize = from;
    while i < chars.len()
        invariant
            from <= i <= chars.len(),
            chars@ == stem@,
            from == stem@.len() - 36,
            tail == stem@.skip(stem@.len() - 36),
            ends_with(file_name@, ".jsonl"@),
            stem@ == file_name@.take(file_name@.len() - 6),
            forall|k: int| 0 <= k < i - from ==> #[trigger] tail[k] <= '\u{7f}',
        decreases chars.len() - i,
    {
        if chars[i] > '\u{7f}' {
            assert(!(tail[i as int - from] <= '\u{7f}'));
            return None;
        }
        i += 1;
    }
    assert(chars@.subrange(from as int, chars@.len() as int) =~= tail);
    parse_uuid(&slice_of(&chars, from, chars.len()))
}

/// The metadata in the lines of a rollout from the `i`th on, after `seen` bytes.
pub open spec fn meta_from(lines: Seq<Seq<char>>, i: int, seen: int) -> Option<JsonView>
    decreases lines.len() - i,
{
    if i < 0 || i >= lines.len() || i >= SESSION_META_SCAN_LINE_LIMIT {
        None
    } else {
        let total = seen + vstd::utf8::encode_utf8(lines[i]).len();
        if total > SESSION_META_SCAN_BYTE_LIMIT {
            None
        } else {
            match json_of_text(lines[i]) {
                Some(v) => if member_text(v, "type"@) == Some("session_meta"@) {
                    Some(v)
                } else {
                    meta_from(lines, i + 1, total)
                },
                None => meta_from(lines, i + 1, total),
            }
        }
    }
}

/// The first metadata in the first lines of a rollout.
pub fn first_session_meta(lines: &Vec<String>) -> (r: Option<Json>)
    ensures
        crate::json::json_opt(r) == meta_from(crate::text::views(lines@), 0, 0),
{
    let ghost all = crate::text::views(lines@);
    let mut total: usize = 0;
    let mut i: usize = 0;
    while i < lines.len() && i < SESSION_META_SCAN_LINE_LIMIT
        invariant
            i <= lines.len(),
            total <= SESSION_META_SCAN_BYTE_LIMIT,
            all == crate::text::views(lines@),
            meta_from(all, 0, 0) == meta_from(all, i as int, total as int),
        decreases lines.len() - i,
    {
        assert(all[i as int] == lines@[i as int]@);
        let size: usize = lines[i].as_str().as_bytes().len();
        if size > SESSION_META_SCAN_BYTE_LIMIT - total {
            return None;
        }
        total = total + size;
        if let Some(value) = parse_text(&lines[i]) {
            let found = match value.get_str("type") {
                Some(text) => same(text, "session_meta"),
                None => false,
            };
            if found {
                return Some(value);
            }
        }
        i += 1;
    }
    None
}

pub open spec fn noted(issues: Map<u128, Seq<char>>, id: Option<u128>, text: Seq<char>) -> Map<
    u128,
    Seq<char>,
> {
    match id {
        Some(x) => issues.insert(x, text),
        None => issues,
    }
}

/// The catalog with one more rollout file: what its metadata says, or what its name does where it
/// has none. What does not fit together is noted.
pub open spec fn with_file(
    c: CatalogView,
    path: Seq<char>,
    name: Seq<char>,
    modified: i64,
    meta: Option<JsonView>,
) -> CatalogView {
    let name_id = id_in_name(name);
    match meta {
        None => match name_id {
            Some(id) => with_node(
                c,
                RolloutNode {
                    id,
                    session_id: None,
                    parent_thread_id: None,
                    forked_from_id: None,
                    modified,
                },
            ),
            None => c,
        },
        Some(v) => match node_from_meta(v, modified) {
            Err(text) => CatalogView {
                issues: noted(
                    c.issues,
                    name_id,
                    "invalid session metadata in "@ + path + ": "@ + text,
                ),
                ..c
            },
            Ok(node) => {
                let mismatch = "session metadata ID does not match rollout filename "@ + path;
                let a = if name_id is Some && name_id->0 != node.id {
                    c.issues.insert(name_id->0, mismatch).insert(node.id, mismatch)
                } else {
                    c.issues
                };
                let b = if node.parent_thread_id is Some && node.forked_from_id is Some
                    && node.parent_thread_id->0 != node.forked_from_id->0 {
                    a.insert(node.id, "session metadata has conflicting parent and fork IDs"@)
                } else {
                    a
                };
                with_node(CatalogView { issues: b, ..c }, node)
            },
        },
    }
}

/// In a catalog, the rollout of an identifier is the one that has it.
proof fn one_node(nodes: Seq<RolloutNode>, id: u128, i: int)
    requires
        distinct_ids(nodes),
        node_at(nodes, id, i),
    ensures
        has_node(nodes, id),
        node_of(nodes, id) == nodes[i],
        i == choose|k: int| node_at(nodes, id, k),
{
    let k = choose|k: int| node_at(nodes, id, k);
    assert(node_at(nodes, id, k));
    if i < k {
        assert(nodes[i].id != nodes[k].id);
    } else if k < i {
        assert(nodes[k].id != nodes[i].id);
    }
}

impl SessionCatalog {
    pub open spec fn wf(&self) -> bool {
        distinct_ids(self@.nodes)
    }

    pub fn new() -> (r: SessionCatalog)
        ensures
            r.wf(),
            r@.nodes == Seq::<RolloutNode>::empty(),
            r@.issues == Map::<u128, Seq<char>>::empty(),
    {
        broadcast use vstd::std_specs::hash::group_hash_axioms;

        let r = SessionCatalog { nodes: Vec::new(), issues: HashMap::new() };
        assert(r@.issues =~= Map::<u128, Seq<char>>::empty());
        r
    }

    fn find(&self, id: u128) -> (r: Option<usize>)
        ensures
            match r {
                Some(i) => node_at(self@.nodes, id, i as int),
                None => !has_node(self@.nodes, id),
            },
    {
        let mut i: usize = 0;
        while i < self.nodes.len()
            invariant
                i <= self.nodes.len(),
                forall|j: int| 0 <= j < i ==> !#[trigger] node_at(self@.nodes, id, j),
            decreases self.nodes.len() - i,
        {
            if self.nodes[i].id == id {
                assert(node_at(self@.nodes, id, i as int));
                return Some(i);
            }
            i += 1;
        }
        None
    }

    fn note(&mut self, id: u128, text: &str)
        requires
            old(self).wf(),
        ensures
            final(self).wf(),
            final(self)@.nodes == old(self)@.nodes,
            final(self)@.issues == old(self)@.issues.insert(id, text@),
    {
        broadcast use vstd::std_specs::hash::group_hash_axioms;

        let ghost before = self@;
        self.issues.insert(id, text.to_owned());
        assert(self@.issues =~= before.issues.insert(id, text@));
    }

    fn issue(&self, id: u128) -> (r: Option<&String>)
        ensures
            match r {
                Some(text) => self@.issues.contains_key(id) && text@ == self@.issues[id],
                None => !self@.issues.contains_key(id),
            },
    {
        broadcast use vstd::std_specs::hash::group_hash_axioms;

        self.issues.get(&id)
    }

    /// Adds a rollout.
    pub fn insert_node(&mut self, node: RolloutNode)
        requires
            old(self).wf(),
        ensures
            final(self).wf(),
            final(self)@ == with_node(old(self)@, node),
    {
        let ghost before = self@;
        match self.find(node.id) {
            Some(i) => {
                let known = self.nodes[i];
                proof {
                    one_node(self@.nodes, node.id, i as int);
                }
                if !known.has_same_links(&node) {
                    self.note(node.id, "conflicting session metadata exists for one rollout ID");
                }
                if node.modified > known.modified {
                    self.nodes.set(
                        i,
                        RolloutNode {
                            id: known.id,
                            session_id: known.session_id,
                            parent_thread_id: known.parent_thread_id,
                            forked_from_id: known.forked_from_id,
                            modified: node.modified,
                        },
                    );
                    proof {
                        let now = self@.nodes;
                        assert forall|a: int, b: int| 0 <= a < b < now.len() implies (
                        #[trigger] now[a]).id != (#[trigger] now[b]).id by {
                            assert(before.nodes[a].id != before.nodes[b].id);
                        }
                    }
                }
                assert(self@.nodes =~= with_node(before, node).nodes);
            },
            None => {
                self.nodes.push(node);
                proof {
                    let now = self@.nodes;
                    assert forall|a: int, b: int| 0 <= a < b < now.len() implies (
                    #[trigger] now[a]).id != (#[trigger] now[b]).id by {
                        if b == before.nodes.len() {
                            assert(!node_at(before.nodes, node.id, a));
                        } else {
                            assert(before.nodes[a].id != before.nodes[b].id);
                        }
                    }
                    assert(self@.issues == before.issues);
                }
            },
        }
    }

    /// Adds a rollout file, given the metadata that was found in it.
    pub fn add_rollout(&mut self, path: &str, file_name: &str, modified: i64, meta: Option<&Json>)
        requires
            old(self).wf(),
        ensures
            final(self).wf(),
            final(self)@ == with_file(
                old(self)@,
                path@,
                file_name@,
                modified,
                opt_view(meta),
            ),
    {
        let name_id = session_id_from_rollout_path(file_name);
        match meta {
            None => {
                if let Some(id) = name_id {
                    self.insert_node(
                        RolloutNode {
                            id,
                            session_id: None,
                            parent_thread_id: None,
                            forked_from_id: None,
                            modified,
                        },
                    );
                }
            },
            Some(v) => match rollout_node_from_meta(v, modified) {
                Err(error) => {
                    if let Some(id) = name_id {
                        let start = concat("invalid session metadata in ", path);
                        let middle = concat(&start, ": ");
                        self.note(id, &concat(&middle, &error));
                    }
                },
                Ok(node) => {
                    if let Some(id) = name_id {
                        if id != node.id {
                            let text = concat(
                                "session metadata ID does not match rollout filename ",
                                path,
                            );
                            self.note(id, &text);
                            self.note(node.id, &text);
                        }
                    }
                    if let (Some(parent), Some(forked)) = (
                        node.parent_thread_id,
                        node.forked_from_id,
                    ) {
                        if parent != forked {
                            self.note(
                                node.id,
                                "session metadata has conflicting parent and fork IDs",
                            );
                        }
                    }
                    self.insert_node(node);
                },
            },
        }
    }

    fn resolve_root(&self, id: u128, path: &Vec<u128>) -> (r: Result<u128, SessionError>)
        requires
            self.wf(),
        ensures
            match r {
                Ok(root) => root_of(self@, id, path@) == Ok::<u128, SessionErrorView>(root),
                Err(e) => root_of(self@, id, path@) == Err::<u128, SessionErrorView>(e@),
            },
        decreases off_path(self@.nodes, path@),
    {
        if let Some(text) = self.issue(id) {
            return Err(SessionError::Issue(text.clone()));
        }
        let at = match self.find(id) {
            Some(i) => i,
            None => return Ok(id),
        };
        if holds_id(path, id) {
            return Err(SessionError::Cycle);
        }
        let node = self.nodes[at];
        proof {
            one_node(self@.nodes, id, at as int);
            off_path_shrinks(self@.nodes, path@, id);
        }
        let mut longer = path.clone();
        longer.push(id);
        assert(longer@ == path@.push(id));
        match node.session_id {
            Some(session) => {
                let claimed = if session == id {
                    id
                } else if self.find(session).is_some() {
                    let found = match self.resolve_root(session, &longer) {
                        Ok(found) => found,
                        Err(error) => return Err(error),
                    };
                    if found != session {
                        return Err(SessionError::NotARoot);
                    }
                    session
                } else if let Some(text) = self.issue(session) {
                    return Err(SessionError::Issue(text.clone()));
                } else {
                    session
                };
                if let Some(parent) = node.parent_id() {
                    let found = match self.resolve_root(parent, &longer) {
                        Ok(found) => found,
                        Err(error) => return Err(error),
                    };
                    if found != claimed {
                        return Err(SessionError::RootConflict);
                    }
                }
                Ok(claimed)
            },
            None => match node.parent_id() {
                Some(parent) => self.resolve_root(parent, &longer),
                None => Ok(id),
            },
        }
    }

    /// The root of the session that a rollout belongs to.
    pub fn canonical_root(&self, id: u128) -> (r: Result<u128, SessionError>)
        requires
            self.wf(),
        ensures
            match r {
                Ok(root) => canonical(self@, id) == Ok::<u128, SessionErrorView>(root),
                Err(e) => canonical(self@, id) == Err::<u128, SessionErrorView>(e@),
            },
    {
        let path: Vec<u128> = Vec::new();
        assert(path@ =~= Seq::empty());
        self.resolve_root(id, &path)
    }
}

fn holds_id(list: &Vec<u128>, id: u128) -> (r: bool)
    ensures
        r == list@.contains(id),
{
    let mut i: usize = 0;
    while i < list.len()
        invariant
            i <= list.len(),
            forall|j: int| 0 <= j < i ==> list@[j] != id,
        decreases list.len() - i,
    {
        if list[i] == id {
            assert(list@[i as int] == id);
            return true;
        }
        i += 1;
    }
    false
}

pub open spec fn in_group(c: CatalogView, root: u128, i: int) -> bool {
    0 <= i < c.nodes.len() && canonical(c, c.nodes[i].id) == Ok::<u128, SessionErrorView>(root)
}

/// Whether a rollout names `x` as its session or its parent.
pub open spec fn links_to(n: RolloutNode, x: u128) -> bool {
    n.session_id == Some(x) || n.parent_thread_id == Some(x) || n.forked_from_id == Some(x)
}

/// Whether the `i`th rollout makes `x` a member of the session `root`: by itself, or by naming it
/// where it belongs there too.
pub open spec fn brings(c: CatalogView, root: u128, x: u128, i: int) -> bool {
    in_group(c, root, i) && (x == c.nodes[i].id || (links_to(c.nodes[i], x) && canonical(c, x)
        == Ok::<u128, SessionErrorView>(root)))
}

/// The members of a session, as far as the first `n` rollouts tell.
pub open spec fn member(c: CatalogView, root: u128, x: u128, n: int) -> bool {
    x == root || exists|i: int| 0 <= i < n && brings(c, root, x, i)
}

/// When a session was last written, as far as the first `n` rollouts tell; 1970 at the earliest.
pub open spec fn written(c: CatalogView, root: u128, t: i64, n: int) -> bool {
    &&& t >= 0
    &&& forall|i: int| 0 <= i < n && #[trigger] in_group(c, root, i) ==> c.nodes[i].modified <= t
    &&& t == 0 || exists|i: int|
        0 <= i < n && #[trigger] in_group(c, root, i) && c.nodes[i].modified == t
}

pub open spec fn sorted_ids(ids: Seq<u128>) -> bool {
    forall|i: int, j: int| 0 <= i < j < ids.len() ==> ids[i] < ids[j]
}

/// Whether a tree is that of the session of its root, as far as the first `n` rollouts tell.
pub open spec fn tree_is(c: CatalogView, tree: SessionTree, n: int) -> bool {
    &&& exists|i: int| 0 <= i < n && in_group(c, tree.root_id, i)
    &&& sorted_ids(tree.member_ids@)
    &&& forall|x: u128| #[trigger]
        tree.member_ids@.contains(x) <==> member(c, tree.root_id, x, n)
    &&& written(c, tree.root_id, tree.modified, n)
}

/// The order in which trees are listed: the one written last first, then by root.
pub open spec fn listed_before(a: SessionTree, b: SessionTree) -> bool {
    a.modified > b.modified || (a.modified == b.modified && a.root_id < b.root_id)
}

pub open spec fn has_tree(trees: Seq<SessionTree>, root: u128) -> bool {
    exists|j: int| 0 <= j < trees.len() && (#[trigger] trees[j]).root_id == root
}

/// Whether the trees are all sessions that the first `n` rollouts tell of, in order, each once.
pub open spec fn lists_trees(c: CatalogView, trees: Seq<SessionTree>, n: int) -> bool {
    &&& forall|i: int, j: int|
        0 <= i < j < trees.len() ==> listed_before(#[trigger] trees[i], #[trigger] trees[j])
    &&& forall|i: int, j: int|
        0 <= i < j < trees.len() ==> (#[trigger] trees[i]).root_id != (#[trigger] trees[j]).root_id
    &&& forall|j: int| 0 <= j < trees.len() ==> tree_is(c, #[trigger] trees[j], n)
    &&& forall|i: int, root: u128|
        0 <= i < n && #[trigger] in_group(c, root, i) ==> has_tree(trees, root)
}

fn insert_id(ids: &mut Vec<u128>, id: u128)
    requires
        sorted_ids(old(ids)@),
    ensures
        sorted_ids(final(ids)@),
        forall|x: u128| #[trigger] final(ids)@.contains(x) <==> old(ids)@.contains(x) || x == id,
{
    let ghost before = ids@;
    let mut i: usize = 0;
    while i < ids.len() && ids[i] < id
        invariant
            i <= ids.len(),
            ids@ == before,
            forall|j: int| 0 <= j < i ==> before[j] < id,
        decreases ids.len() - i,
    {
        i += 1;
    }
    if i < ids.len() && ids[i] == id {
        assert(before[i as int] == id);
        return;
    }
    ids.insert(i, id);
    proof {
        let now = ids@;
        assert(now =~= before.insert(i as int, id));
        assert forall|a: int, b: int| 0 <= a < b < now.len() implies now[a] < now[b] by {
            if a == i {
                if b - 1 > i {
                    assert(before[i as int] < before[b - 1]);
                }
            } else if b == i {
            } else {
                let a0 = if a < i { a } else { a - 1 };
                let b0 = if b < i { b } else { b - 1 };
                assert(before[a0] < before[b0]);
            }
        }
        assert forall|x: u128| #[trigger] now.contains(x) <==> before.contains(x) || x == id by {
            if now.contains(x) {
                let k = now.index_of(x);
                if k < i {
                    assert(before[k] == x);
                } else if k > i {
                    assert(before[k - 1] == x);
                }
            }
            if before.contains(x) {
                let k = before.index_of(x);
                assert(now[if k < i { k } else { k + 1 }] == x);
            }
            if x == id {
                assert(now[i as int] == x);
            }
        }
    }
}

fn insert_tree(trees: &mut Vec<SessionTree>, tree: SessionTree) -> (at: usize)
    requires
        forall|i: int, j: int|
            0 <= i < j < old(trees)@.len() ==> listed_before(
                #[trigger] old(trees)@[i],
                #[trigger] old(trees)@[j],
            ),
        !has_tree(old(trees)@, tree.root_id),
    ensures
        at <= old(trees)@.len(),
        final(trees)@ == old(trees)@.insert(at as int, tree),
        forall|i: int, j: int|
            0 <= i < j < final(trees)@.len() ==> listed_before(
                #[trigger] final(trees)@[i],
                #[trigger] final(trees)@[j],
            ),
{
    let ghost before = trees@;
    let mut i: usize = 0;
    while i < trees.len() && (trees[i].modified > tree.modified || (trees[i].modified
        == tree.modified && trees[i].root_id < tree.root_id))
        invariant
            i <= trees.len(),
            trees@ == before,
            forall|j: int| 0 <= j < i ==> listed_before(#[trigger] before[j], tree),
        decreases trees.len() - i,
    {
        i += 1;
    }
    proof {
        if i < before.len() {
            assert(before[i as int].root_id != tree.root_id);
            assert(listed_before(tree, before[i as int]));
        }
    }
    trees.insert(i, tree);
    proof {
        let now = trees@;
        assert forall|a: int, b: int| 0 <= a < b < now.len() implies listed_before(
            #[trigger] now[a],
            #[trigger] now[b],
        ) by {
            if a == i {
                if b - 1 > i {
                    assert(listed_before(before[i as int], before[b - 1]));
                }
            } else if b == i {
                assert(listed_before(before[a], tree));
            } else {
                let a0 = if a < i { a } else { a - 1 };
                let b0 = if b < i { b } else { b - 1 };
                assert(listed_before(before[a0], before[b0]));
            }
        }
    }
    i
}

/// A rollout of another session changes nothing for a tree.
proof fn tree_stays(c: CatalogView, tree: SessionTree, n: int)
    requires
        0 <= n < c.nodes.len(),
        tree_is(c, tree, n),
        !in_group(c, tree.root_id, n),
    ensures
        tree_is(c, tree, n + 1),
{
    let i = choose|i: int| 0 <= i < n && in_group(c, tree.root_id, i);
    assert(0 <= i < n + 1 && in_group(c, tree.root_id, i));
    assert forall|x: u128| #[trigger] tree.member_ids@.contains(x) <==> member(
        c,
        tree.root_id,
        x,
        n + 1,
    ) by {
        if member(c, tree.root_id, x, n + 1) && x != tree.root_id {
            let k = choose|k: int| 0 <= k < n + 1 && brings(c, tree.root_id, x, k);
            assert(k < n);
            assert(member(c, tree.root_id, x, n));
        }
        if member(c, tree.root_id, x, n) && x != tree.root_id {
            let k = choose|k: int| 0 <= k < n && brings(c, tree.root_id, x, k);
            assert(0 <= k < n + 1 && brings(c, tree.root_id, x, k));
        }
    }
    if tree.modified != 0 {
        let k = choose|k: int|
            0 <= k < n && #[trigger] in_group(c, tree.root_id, k) && c.nodes[k].modified
                == tree.modified;
        assert(0 <= k < n + 1 && in_group(c, tree.root_id, k));
    }
}

impl SessionCatalog {
    /// Adds an identifier that a rollout names, where it belongs to the session.
    fn add_link(&self, ids: &mut Vec<u128>, link: Option<u128>, root: u128)
        requires
            self.wf(),
            sorted_ids(old(ids)@),
        ensures
            sorted_ids(final(ids)@),
            forall|x: u128| #[trigger]
                final(ids)@.contains(x) <==> old(ids)@.contains(x) || (link == Some(x)
                    && canonical(self@, x) == Ok::<u128, SessionErrorView>(root)),
    {
        if let Some(id) = link {
            if let Ok(found) = self.canonical_root(id) {
                if found == root {
                    insert_id(ids, id);
                }
            }
        }
    }

    /// Takes one more rollout of the session `root` into the trees.
    fn take_in(&self, trees: &mut Vec<SessionTree>, n: usize, root: u128)
        requires
            self.wf(),
            n < self@.nodes.len(),
            in_group(self@, root, n as int),
            lists_trees(self@, old(trees)@, n as int),
        ensures
            lists_trees(self@, final(trees)@, n as int + 1),
    {
        let ghost c = self@;
        let node = self.nodes[n];
        let ghost before = trees@;
        let found = find_tree(trees, root);
        let mut tree = match found {
            Some(k) => trees.remove(k),
            None => {
                let mut first: Vec<u128> = Vec::new();
                first.push(root);
                SessionTree { root_id: root, member_ids: first, modified: 0 }
            },
        };
        let ghost old_tree = tree;
        let ghost rest = trees@;
        let ghost k = if found is Some {
            found->0 as int
        } else {
            before.len() as int
        };
        proof {
            if found is None {
                assert forall|x: u128| tree.member_ids@.contains(x) <==> x == root by {
                    if x == root {
                        assert(tree.member_ids@[0] == x);
                    }
                }
                assert forall|i: int| 0 <= i < n implies !in_group(c, root, i) by {
                    if in_group(c, root, i) {
                        assert(has_tree(before, root));
                    }
                }
                assert(rest =~= without_tree(before, k));
            } else {
                assert(rest =~= without_tree(before, k));
            }
            other_trees(c, before, k, root, n as int);
        }
        insert_id(&mut tree.member_ids, node.id);
        self.add_link(&mut tree.member_ids, node.session_id, root);
        self.add_link(&mut tree.member_ids, node.parent_thread_id, root);
        self.add_link(&mut tree.member_ids, node.forked_from_id, root);
        if node.modified > tree.modified {
            tree.modified = node.modified;
        }
        proof {
            tree_grows(c, old_tree, tree, n as int, found is Some);
        }
        let ghost grown = tree;
        let at = insert_tree(trees, tree);
        proof {
            listed_again(c, before, k, root, n as int, grown, at as int);
        }
    }

    /// The session trees of the catalog, the one written last first.
    pub fn session_trees(&self) -> (r: Vec<SessionTree>)
        requires
            self.wf(),
        ensures
            lists_trees(self@, r@, self@.nodes.len() as int),
    {
        let ghost c = self@;
        let mut trees: Vec<SessionTree> = Vec::new();
        let mut n: usize = 0;
        while n < self.nodes.len()
            invariant
                n <= self.nodes.len(),
                self.wf(),
                c == self@,
                lists_trees(c, trees@, n as int),
            decreases self.nodes.len() - n,
        {
            match self.canonical_root(self.nodes[n].id) {
                Err(_) => {
                    proof {
                        assert forall|root: u128| !in_group(c, root, n as int) by {}
                        assert forall|j: int| 0 <= j < trees.len() implies tree_is(
                            c,
                            #[trigger] trees@[j],
                            n as int + 1,
                        ) by {
                            tree_stays(c, trees@[j], n as int);
                        }
                    }
                },
                Ok(root) => {
                    assert(in_group(c, root, n as int));
                    self.take_in(&mut trees, n, root);
                },
            }
            n += 1;
        }
        trees
    }

    /// The tree of the session that a rollout belongs to. One of which nothing is known is a tree
    /// by itself.
    pub fn tree_for(&self, id: u128) -> (r: Result<SessionTree, SessionError>)
        requires
            self.wf(),
        ensures
            match r {
                Err(e) => canonical(self@, id) == Err::<u128, SessionErrorView>(e@),
                Ok(tree) => tree_of(self@, id, tree),
            },
    {
        let root = match self.canonical_root(id) {
            Ok(root) => root,
            Err(error) => return Err(error),
        };
        let mut trees = self.session_trees();
        match find_tree(&trees, root) {
            Some(k) => {
                let tree = trees.remove(k);
                Ok(tree)
            },
            None => {
                let mut first: Vec<u128> = Vec::new();
                first.push(root);
                proof {
                    assert forall|i: int| !in_group(self@, root, i) by {
                        if in_group(self@, root, i) {
                            assert(has_tree(trees@, root));
                        }
                    }
                    assert(first@ =~= seq![root]);
                }
                Ok(SessionTree { root_id: root, member_ids: first, modified: 0 })
            },
        }
    }
}

/// The trees without the one at `k`, where there is one.
pub open spec fn without_tree(trees: Seq<SessionTree>, k: int) -> Seq<SessionTree> {
    if 0 <= k < trees.len() {
        trees.remove(k)
    } else {
        trees
    }
}

/// The trees of other sessions stay as they are when a rollout of the session `root` is taken in.
proof fn other_trees(c: CatalogView, trees: Seq<SessionTree>, k: int, root: u128, n: int)
    requires
        0 <= n < c.nodes.len(),
        in_group(c, root, n),
        lists_trees(c, trees, n),
        0 <= k <= trees.len(),
        k < trees.len() ==> trees[k].root_id == root,
        k == trees.len() ==> !has_tree(trees, root),
    ensures
        ({
            let rest = without_tree(trees, k);
            &&& !has_tree(rest, root)
            &&& forall|i: int, j: int|
                0 <= i < j < rest.len() ==> listed_before(#[trigger] rest[i], #[trigger] rest[j])
            &&& forall|i: int, j: int|
                0 <= i < j < rest.len() ==> (#[trigger] rest[i]).root_id != (
                #[trigger] rest[j]).root_id
            &&& forall|j: int| 0 <= j < rest.len() ==> tree_is(c, #[trigger] rest[j], n + 1)
            &&& forall|x: u128| x != root && has_tree(trees, x) ==> #[trigger] has_tree(rest, x)
        }),
{
    let rest = without_tree(trees, k);
    assert forall|j: int| 0 <= j < rest.len() implies (#[trigger] rest[j]).root_id != root by {
        let j0 = if j < k { j } else { j + 1 };
        if k < trees.len() {
            assert(rest[j] == trees[j0]);
            if j0 < k {
                assert(trees[j0].root_id != trees[k].root_id);
            } else {
                assert(trees[k].root_id != trees[j0].root_id);
            }
        }
    }
    assert forall|i: int, j: int| 0 <= i < j < rest.len() implies listed_before(
        #[trigger] rest[i],
        #[trigger] rest[j],
    ) && rest[i].root_id != rest[j].root_id by {
        let i0 = if i < k { i } else { i + 1 };
        let j0 = if j < k { j } else { j + 1 };
        if k < trees.len() {
            assert(rest[i] == trees[i0] && rest[j] == trees[j0]);
        }
    }
    assert forall|j: int| 0 <= j < rest.len() implies tree_is(c, #[trigger] rest[j], n + 1) by {
        let j0 = if j < k { j } else { j + 1 };
        if k < trees.len() {
            assert(rest[j] == trees[j0]);
        }
        assert(tree_is(c, rest[j], n));
        assert(!in_group(c, rest[j].root_id, n));
        tree_stays(c, rest[j], n);
    }
    assert forall|x: u128| x != root && has_tree(trees, x) implies #[trigger] has_tree(
        rest,
        x,
    ) by {
        let j = choose|j: int| 0 <= j < trees.len() && (#[trigger] trees[j]).root_id == x;
        assert(rest[if j < k { j } else { j - 1 }] == trees[j]);
    }
}

/// With its grown tree back in its place, the list tells of one more rollout.
proof fn listed_again(
    c: CatalogView,
    trees: Seq<SessionTree>,
    k: int,
    root: u128,
    n: int,
    grown: SessionTree,
    at: int,
)
    requires
        0 <= n < c.nodes.len(),
        in_group(c, root, n),
        lists_trees(c, trees, n),
        0 <= k <= trees.len(),
        k < trees.len() ==> trees[k].root_id == root,
        k == trees.len() ==> !has_tree(trees, root),
        grown.root_id == root,
        tree_is(c, grown, n + 1),
        0 <= at <= without_tree(trees, k).len(),
        ({
            let now = without_tree(trees, k).insert(at, grown);
            forall|i: int, j: int|
                0 <= i < j < now.len() ==> listed_before(#[trigger] now[i], #[trigger] now[j])
        }),
    ensures
        lists_trees(c, without_tree(trees, k).insert(at, grown), n + 1),
{
    other_trees(c, trees, k, root, n);
    let rest = without_tree(trees, k);
    let now = rest.insert(at, grown);
    assert forall|j: int| 0 <= j < now.len() implies tree_is(c, #[trigger] now[j], n + 1) by {
        if j != at {
            assert(now[j] == rest[if j < at { j } else { j - 1 }]);
        }
    }
    assert forall|i: int, j: int| 0 <= i < j < now.len() implies (#[trigger] now[i]).root_id != (
    #[trigger] now[j]).root_id by {
        let i0 = if i < at { i } else { i - 1 };
        let j0 = if j < at { j } else { j - 1 };
        if i == at {
            assert(now[j] == rest[j0]);
        } else if j == at {
            assert(now[i] == rest[i0]);
        } else {
            assert(now[i] == rest[i0] && now[j] == rest[j0]);
        }
    }
    assert forall|i: int, x: u128| 0 <= i < n + 1 && #[trigger] in_group(c, x, i) implies has_tree(
        now,
        x,
    ) by {
        if x == root {
            assert(now[at].root_id == x);
        } else {
            assert(has_tree(trees, x));
            assert(has_tree(rest, x));
            let j = choose|j: int| 0 <= j < rest.len() && (#[trigger] rest[j]).root_id == x;
            assert(now[if j < at { j } else { j + 1 }] == rest[j]);
        }
    }
}

/// Whether a tree is that of the session that `id` belongs to.
pub open spec fn tree_of(c: CatalogView, id: u128, tree: SessionTree) -> bool {
    &&& canonical(c, id) == Ok::<u128, SessionErrorView>(tree.root_id)
    &&& if exists|i: int| in_group(c, tree.root_id, i) {
        tree_is(c, tree, c.nodes.len() as int)
    } else {
        tree.member_ids@ == seq![tree.root_id] && tree.modified == 0
    }
}

fn find_tree(trees: &Vec<SessionTree>, root: u128) -> (r: Option<usize>)
    ensures
        match r {
            Some(k) => k < trees.len() && trees@[k as int].root_id == root,
            None => !has_tree(trees@, root),
        },
{
    let mut i: usize = 0;
    while i < trees.len()
        invariant
            i <= trees.len(),
            forall|j: int| 0 <= j < i ==> (#[trigger] trees@[j]).root_id != root,
        decreases trees.len() - i,
    {
        if trees[i].root_id == root {
            return Some(i);
        }
        i += 1;
    }
    None
}

/// A tree that takes in one more rollout of its session is the tree of one more rollout.
proof fn tree_grows(c: CatalogView, old_tree: SessionTree, tree: SessionTree, n: int, known: bool)
    requires
        0 <= n < c.nodes.len(),
        in_group(c, old_tree.root_id, n),
        tree.root_id == old_tree.root_id,
        known ==> tree_is(c, old_tree, n),
        !known ==> old_tree.modified == 0 && (forall|x: u128|
            old_tree.member_ids@.contains(x) <==> x == old_tree.root_id) && forall|i: int|
            0 <= i < n ==> !in_group(c, old_tree.root_id, i),
        sorted_ids(tree.member_ids@),
        forall|x: u128| #[trigger]
            tree.member_ids@.contains(x) <==> old_tree.member_ids@.contains(x) || x == c.nodes[n].id
                || (links_to(c.nodes[n], x) && canonical(c, x) == Ok::<u128, SessionErrorView>(
                tree.root_id,
            )),
        tree.modified == if c.nodes[n].modified > old_tree.modified {
            c.nodes[n].modified
        } else {
            old_tree.modified
        },
    ensures
        tree_is(c, tree, n + 1),
{
    let root = tree.root_id;
    assert(0 <= n < n + 1 && in_group(c, root, n));
    assert forall|x: u128| #[trigger] tree.member_ids@.contains(x) <==> member(
        c,
        root,
        x,
        n + 1,
    ) by {
        if tree.member_ids@.contains(x) && x != root {
            if old_tree.member_ids@.contains(x) {
                assert(known);
                assert(member(c, root, x, n));
                let k = choose|k: int| 0 <= k < n && brings(c, root, x, k);
                assert(0 <= k < n + 1 && brings(c, root, x, k));
            } else {
                assert(0 <= n < n + 1 && brings(c, root, x, n));
            }
        }
        if member(c, root, x, n + 1) {
            if x == root {
                if known {
                    assert(member(c, root, x, n));
                }
                assert(old_tree.member_ids@.contains(x));
            } else {
                let k = choose|k: int| 0 <= k < n + 1 && brings(c, root, x, k);
                if k < n {
                    assert(in_group(c, root, k));
                    assert(known);
                    assert(member(c, root, x, n));
                    assert(old_tree.member_ids@.contains(x));
                }
            }
        }
    }
    assert forall|i: int| 0 <= i < n + 1 && #[trigger] in_group(
        c,
        root,
        i,
    ) implies c.nodes[i].modified <= tree.modified by {
        if i < n {
            assert(known);
        }
    }
    if tree.modified != 0 {
        if c.nodes[n].modified > old_tree.modified {
            assert(in_group(c, root, n) && c.nodes[n].modified == tree.modified);
        } else {
            assert(known);
            let k = choose|k: int|
                0 <= k < n && #[trigger] in_group(c, root, k) && c.nodes[k].modified
                    == old_tree.modified;
            assert(0 <= k < n + 1 && in_group(c, root, k) && c.nodes[k].modified == tree.modified);
        }
    }
}

/// Whether a rollout has to do with `x`: it is `x`, or names it.
pub open spec fn touches(n: RolloutNode, x: u128) -> bool {
    x == n.id || links_to(n, x)
}

/// Whether `x` is connected with `id` by at most so many rollouts.
pub open spec fn linked(nodes: Seq<RolloutNode>, id: u128, x: u128, steps: nat) -> bool
    decreases steps,
{
    if steps == 0 {
        x == id
    } else {
        linked(nodes, id, x, (steps - 1) as nat) || exists|i: int, y: u128|
            0 <= i < nodes.len() && #[trigger] touches(nodes[i], y) && touches(nodes[i], x)
                && linked(nodes, id, y, (steps - 1) as nat)
    }
}

/// Whether `x` is connected with `id` by any rollouts.
pub open spec fn connected(nodes: Seq<RolloutNode>, id: u128, x: u128) -> bool {
    exists|steps: nat| linked(nodes, id, x, steps)
}

/// Whether all that is connected with an identifier is consistent.
pub open spec fn consistent(c: CatalogView, id: u128) -> bool {
    forall|x: u128| #[trigger]
        connected(c.nodes, id, x) ==> !c.issues.contains_key(x) && (has_node(c.nodes, x)
            ==> canonical(c, x) is Ok)
}

/// Whether `e` is an error of something connected with an identifier. An issue of any of them comes
/// before a root that cannot be found.
pub open spec fn tree_fault(c: CatalogView, id: u128, e: SessionErrorView) -> bool {
    ||| exists|x: u128|
        #[trigger] connected(c.nodes, id, x) && c.issues.contains_key(x) && e
            == SessionErrorView::Inconsistent(c.issues[x])
    ||| (forall|x: u128| #[trigger] connected(c.nodes, id, x) ==> !c.issues.contains_key(x))
        && exists|x: u128|
        #[trigger] connected(c.nodes, id, x) && canonical(c, x) == Err::<u128, SessionErrorView>(e)
}

/// Whether a set of identifiers is closed under the rollouts that touch them.
pub open spec fn closed_under(nodes: Seq<RolloutNode>, ids: Seq<u128>) -> bool {
    forall|i: int, y: u128, x: u128|
        0 <= i < nodes.len() && #[trigger] touches(nodes[i], y) && ids.contains(y)
            && #[trigger] touches(nodes[i], x) ==> ids.contains(x)
}

proof fn connected_stay_inside(nodes: Seq<RolloutNode>, id: u128, x: u128, steps: nat, ids: Seq<u128>)
    requires
        closed_under(nodes, ids),
        ids.contains(id),
        linked(nodes, id, x, steps),
    ensures
        ids.contains(x),
    decreases steps,
{
    if steps > 0 {
        if linked(nodes, id, x, (steps - 1) as nat) {
            connected_stay_inside(nodes, id, x, (steps - 1) as nat, ids);
        } else {
            let (i, y) = choose|i: int, y: u128|
                0 <= i < nodes.len() && #[trigger] touches(nodes[i], y) && touches(nodes[i], x)
                    && linked(nodes, id, y, (steps - 1) as nat);
            connected_stay_inside(nodes, id, y, (steps - 1) as nat, ids);
        }
    }
}

proof fn connected_step(nodes: Seq<RolloutNode>, id: u128, i: int, y: u128, x: u128)
    requires
        0 <= i < nodes.len(),
        touches(nodes[i], y),
        touches(nodes[i], x),
        connected(nodes, id, y),
    ensures
        connected(nodes, id, x),
{
    let steps = choose|steps: nat| linked(nodes, id, y, steps);
    assert(linked(nodes, id, x, steps + 1));
}

/// All identifiers that rollouts mention, with `id`.
spec fn mentioned(nodes: Seq<RolloutNode>, id: u128) -> Seq<u128> {
    Seq::new(
        nodes.len() * 4 + 1,
        |k: int|
            if k == nodes.len() * 4 {
                id
            } else {
                let n = nodes[k / 4];
                let link = if k % 4 == 0 {
                    Some(n.id)
                } else if k % 4 == 1 {
                    n.session_id
                } else if k % 4 == 2 {
                    n.parent_thread_id
                } else {
                    n.forked_from_id
                };
                match link {
                    Some(x) => x,
                    None => id,
                }
            },
    )
}

proof fn mention_of(nodes: Seq<RolloutNode>, id: u128, i: int, x: u128)
    requires
        0 <= i < nodes.len(),
        touches(nodes[i], x),
    ensures
        mentioned(nodes, id).contains(x),
{
    let m = mentioned(nodes, id);
    let n = nodes[i];
    assert((4 * i) / 4 == i && (4 * i + 1) / 4 == i && (4 * i + 2) / 4 == i && (4 * i + 3) / 4
        == i);
    assert((4 * i) % 4 == 0 && (4 * i + 1) % 4 == 1 && (4 * i + 2) % 4 == 2 && (4 * i + 3) % 4
        == 3);
    if x == n.id {
        assert(m[4 * i] == x);
    } else if n.session_id == Some(x) {
        assert(m[4 * i + 1] == x);
    } else if n.parent_thread_id == Some(x) {
        assert(m[4 * i + 2] == x);
    } else {
        assert(m[4 * i + 3] == x);
    }
}

proof fn no_more_than(s: Seq<u128>, pool: Seq<u128>)
    requires
        s.no_duplicates(),
        forall|i: int| 0 <= i < s.len() ==> pool.contains(#[trigger] s[i]),
    ensures
        s.len() <= pool.len(),
{
    s.unique_seq_to_set();
    pool.lemma_cardinality_of_set();
    assert(s.to_set().subset_of(pool.to_set()));
    vstd::seq_lib::seq_to_set_is_finite(pool);
    vstd::set_lib::lemma_len_subset(s.to_set(), pool.to_set());
}

fn add_id(ids: &mut Vec<u128>, id: u128)
    requires
        old(ids)@.no_duplicates(),
    ensures
        final(ids)@.no_duplicates(),
        forall|x: u128| #[trigger] final(ids)@.contains(x) <==> old(ids)@.contains(x) || x == id,
        final(ids)@.len() >= old(ids)@.len(),
        final(ids)@.take(old(ids)@.len() as int) == old(ids)@,
{
    let ghost before = ids@;
    if !holds_id(ids, id) {
        ids.push(id);
        proof {
            assert forall|x: u128| ids@.contains(x) <==> before.contains(x) || x == id by {
                if before.contains(x) {
                    let k = before.index_of(x);
                    assert(ids@[k] == x);
                }
                if x == id {
                    assert(ids@[before.len() as int] == x);
                }
            }
            assert(ids@.take(before.len() as int) =~= before);
        }
    } else {
        assert(ids@.take(before.len() as int) =~= before);
    }
}

fn add_opt(ids: &mut Vec<u128>, id: Option<u128>)
    requires
        old(ids)@.no_duplicates(),
    ensures
        final(ids)@.no_duplicates(),
        forall|x: u128| #[trigger]
            final(ids)@.contains(x) <==> old(ids)@.contains(x) || id == Some(x),
        final(ids)@.len() >= old(ids)@.len(),
        final(ids)@.take(old(ids)@.len() as int) == old(ids)@,
{
    match id {
        Some(x) => add_id(ids, x),
        None => {
            assert(ids@.take(ids@.len() as int) =~= ids@);
        },
    }
}

fn is_touched(n: &RolloutNode, x: u128) -> (r: bool)
    ensures
        r == touches(*n, x),
{
    n.id == x || n.session_id == Some(x) || n.parent_thread_id == Some(x) || n.forked_from_id
        == Some(x)
}

impl SessionCatalog {
    /// All identifiers that are connected with one by rollouts.
    #[verifier::spinoff_prover]
    pub fn connected_ids(&self, id: u128) -> (r: Vec<u128>)
        requires
            self.wf(),
        ensures
            r@.no_duplicates(),
            forall|x: u128| #[trigger] r@.contains(x) <==> connected(self@.nodes, id, x),
    {
        let ghost nodes = self@.nodes;
        let ghost pool = mentioned(nodes, id);
        let mut ids: Vec<u128> = Vec::new();
        ids.push(id);
        proof {
            assert(ids@ =~= seq![id]);
            assert(ids@[0] == id);
            assert(linked(nodes, id, id, 0));
            assert(pool[nodes.len() as int * 4] == id);
            assert forall|x: u128| ids@.contains(x) implies x == id by {}
        }
        let mut k: usize = 0;
        while k < ids.len()
            invariant
                k <= ids.len(),
                self.wf(),
                nodes == self@.nodes,
                pool == mentioned(nodes, id),
                ids@.no_duplicates(),
                ids@.contains(id),
                ids@.len() <= pool.len(),
                forall|x: u128| #[trigger] ids@.contains(x) ==> connected(nodes, id, x),
                forall|x: u128| #[trigger] ids@.contains(x) ==> pool.contains(x),
                forall|j: int, i: int, x: u128|
                    0 <= j < k && 0 <= i < nodes.len() && #[trigger] touches(nodes[i], ids@[j])
                        && #[trigger] touches(nodes[i], x) ==> ids@.contains(x),
            decreases pool.len() - k,
        {
            let current = ids[k];
            assert(ids@.contains(current));
            let ghost start = ids@;
            let mut n: usize = 0;
            while n < self.nodes.len()
                invariant
                    n <= self.nodes.len(),
                    k < start.len() <= ids.len(),
                    self.wf(),
                    nodes == self@.nodes,
                    pool == mentioned(nodes, id),
                    ids@.no_duplicates(),
                    ids@.contains(id),
                    current == start[k as int],
                    ids@.take(start.len() as int) == start,
                    connected(nodes, id, current),
                    forall|x: u128| #[trigger] ids@.contains(x) ==> connected(nodes, id, x),
                    forall|x: u128| #[trigger] ids@.contains(x) ==> pool.contains(x),
                    forall|x: u128| #[trigger] start.contains(x) ==> ids@.contains(x),
                    forall|i: int, x: u128|
                        0 <= i < n && touches(nodes[i], current) && #[trigger] touches(nodes[i], x)
                            ==> ids@.contains(x),
                decreases self.nodes.len() - n,
            {
                let node = self.nodes[n];
                if is_touched(&node, current) {
                    let ghost before = ids@;
                    add_id(&mut ids, node.id);
                    let ghost a = ids@;
                    add_opt(&mut ids, node.session_id);
                    let ghost b = ids@;
                    add_opt(&mut ids, node.parent_thread_id);
                    let ghost d = ids@;
                    add_opt(&mut ids, node.forked_from_id);
                    proof {
                        assert forall|x: u128| #[trigger] ids@.contains(x) <==> before.contains(x)
                            || touches(nodes[n as int], x) by {
                            assert(a.contains(x) <==> before.contains(x) || x == node.id);
                            assert(b.contains(x) <==> a.contains(x) || node.session_id == Some(x));
                            assert(d.contains(x) <==> b.contains(x) || node.parent_thread_id
                                == Some(x));
                        }
                        assert forall|x: u128| #[trigger] ids@.contains(x) implies connected(
                            nodes,
                            id,
                            x,
                        ) && pool.contains(x) by {
                            if !before.contains(x) {
                                connected_step(nodes, id, n as int, current, x);
                                mention_of(nodes, id, n as int, x);
                            }
                        }
                        assert(ids@.take(start.len() as int) =~= start) by {
                            assert(ids@.take(d.len() as int) == d);
                            assert(d.take(b.len() as int) == b);
                            assert(b.take(a.len() as int) == a);
                            assert(a.take(before.len() as int) == before);
                            assert forall|q: int| 0 <= q < start.len() implies ids@[q]
                                == start[q] by {
                                assert(before.take(start.len() as int)[q] == before[q]);
                                assert(a.take(before.len() as int)[q] == a[q]);
                                assert(b.take(a.len() as int)[q] == b[q]);
                                assert(d.take(b.len() as int)[q] == d[q]);
                                assert(ids@.take(d.len() as int)[q] == ids@[q]);
                            }
                        }
                    }
                }
                n += 1;
            }
            proof {
                assert forall|j: int| 0 <= j < start.len() implies #[trigger] ids@[j]
                    == start[j] by {
                    assert(ids@.take(start.len() as int)[j] == ids@[j]);
                }
                assert forall|j: int, i: int, x: u128|
                    0 <= j < k + 1 && 0 <= i < nodes.len() && #[trigger] touches(nodes[i], ids@[j])
                        && #[trigger] touches(nodes[i], x) implies ids@.contains(x) by {
                    if j < k {
                        assert(touches(nodes[i], start[j]));
                        assert(start.contains(x));
                    }
                }
                assert forall|q: int| 0 <= q < ids@.len() implies pool.contains(
                    #[trigger] ids@[q],
                ) by {
                    assert(ids@.contains(ids@[q]));
                }
                no_more_than(ids@, pool);
            }
            k += 1;
        }
        proof {
            assert forall|i: int, y: u128, x: u128|
                0 <= i < nodes.len() && #[trigger] touches(nodes[i], y) && ids@.contains(y)
                    && #[trigger] touches(nodes[i], x) implies ids@.contains(x) by {
                let j = ids@.index_of(y);
                assert(ids@[j] == y);
            }
            assert(closed_under(nodes, ids@));
            assert forall|x: u128| connected(nodes, id, x) implies ids@.contains(x) by {
                let steps = choose|steps: nat| linked(nodes, id, x, steps);
                connected_stay_inside(nodes, id, x, steps, ids@);
            }
        }
        ids
    }

    /// The tree of a session whose routes are to be changed. It is refused where anything connected
    /// with it is inconsistent, so that no command covers only part of a tree.
    pub fn mutation_tree_for(&self, id: u128) -> (r: Result<SessionTree, SessionError>)
        requires
            self.wf(),
        ensures
            match r {
                Ok(tree) => consistent(self@, id) && tree_of(self@, id, tree),
                Err(e) => !consistent(self@, id) && tree_fault(self@, id, e@),
            },
    {
        let ids = self.connected_ids(id);
        let ghost nodes = self@.nodes;
        let mut i: usize = 0;
        while i < ids.len()
            invariant
                i <= ids.len(),
                nodes == self@.nodes,
                forall|x: u128| #[trigger] ids@.contains(x) <==> connected(nodes, id, x),
                forall|j: int| 0 <= j < i ==> !self@.issues.contains_key(#[trigger] ids@[j]),
            decreases ids.len() - i,
        {
            assert(ids@.contains(ids@[i as int]));
            if let Some(text) = self.issue(ids[i]) {
                return Err(SessionError::Inconsistent(text.clone()));
            }
            i += 1;
        }
        proof {
            assert forall|x: u128| #[trigger] connected(nodes, id, x) implies !self@.issues.contains_key(
                x,
            ) by {
                assert(ids@.contains(x));
                let j = ids@.index_of(x);
                assert(ids@[j] == x);
            }
        }
        let mut n: usize = 0;
        while n < ids.len()
            invariant
                n <= ids.len(),
                self.wf(),
                nodes == self@.nodes,
                forall|x: u128| #[trigger] ids@.contains(x) <==> connected(nodes, id, x),
                forall|x: u128| #[trigger]
                    connected(nodes, id, x) ==> !self@.issues.contains_key(x),
                forall|j: int|
                    0 <= j < n && has_node(nodes, #[trigger] ids@[j]) ==> canonical(
                        self@,
                        ids@[j],
                    ) is Ok,
            decreases ids.len() - n,
        {
            assert(ids@.contains(ids@[n as int]));
            if self.find(ids[n]).is_some() {
                if let Err(error) = self.canonical_root(ids[n]) {
                    return Err(error);
                }
            }
            n += 1;
        }
        proof {
            assert forall|x: u128| #[trigger] connected(nodes, id, x) && has_node(
                nodes,
                x,
            ) implies canonical(self@, x) is Ok by {
                assert(ids@.contains(x));
                let j = ids@.index_of(x);
                assert(ids@[j] == x);
            }
            assert(linked(nodes, id, id, 0));
            assert(connected(nodes, id, id));
        }
        self.tree_for(id)
    }
}

/// The keys with one more alias, unless its hash is there already.
pub open spec fn with_key(keys: Seq<RouteKeyView>, kind: Seq<char>, text: Seq<char>) -> Seq<
    RouteKeyView,
> {
    if has_hash(keys, key_hash(kind, text)) {
        keys
    } else {
        keys.push(route_key(kind, text))
    }
}

/// The keys with all aliases of one more rollout.
pub open spec fn with_rollout(keys: Seq<RouteKeyView>, id: u128) -> Seq<RouteKeyView> {
    let text = text_of_uuid(id);
    with_key(
        with_key(
            with_key(with_key(keys, "session_id"@, text), "thread_id"@, text),
            "conversation_id"@,
            text,
        ),
        "prompt_cache_key"@,
        text,
    )
}

/// The keys of the first `n` rollouts.
pub open spec fn keys_of(ids: Seq<u128>, n: int) -> Seq<RouteKeyView>
    decreases n,
{
    if n <= 0 {
        Seq::empty()
    } else {
        with_rollout(keys_of(ids, n - 1), ids[n - 1])
    }
}

/// The order in which the rollouts of a tree give their keys: the root first, then the others by
/// their identifiers.
pub open spec fn key_order(tree: SessionTree, ids: Seq<u128>) -> bool {
    &&& ids.len() >= 1
    &&& ids[0] == tree.root_id
    &&& sorted_ids(ids.skip(1))
    &&& forall|x: u128| #[trigger]
        ids.skip(1).contains(x) <==> tree.member_ids@.contains(x) && x != tree.root_id
}

proof fn keys_grow(ids: Seq<u128>, n: int, m: int)
    requires
        0 <= n <= m,
    ensures
        keys_of(ids, n).len() <= keys_of(ids, m).len(),
    decreases m,
{
    if n < m {
        keys_grow(ids, n, m - 1);
    }
}

fn push_key(keys: &mut Vec<SessionRouteKey>, kind: &str, text: &str)
    requires
        valid_keys(key_views(old(keys)@)),
        is_word(kind@, 64),
        trimmed(kind@) == kind@,
    ensures
        valid_keys(key_views(final(keys)@)),
        key_views(final(keys)@) == with_key(key_views(old(keys)@), kind@, text@),
{
    let ghost before = key_views(keys@);
    let key = session_route_key(kind, text);
    if find_hash(keys, &key.key_hash).is_none() {
        keys.push(key);
        proof {
            let now = key_views(keys@);
            assert(now =~= before.push(key@));
            assert forall|i: int, j: int| 0 <= i < j < now.len() implies (#[trigger] now[i]).hash != (
            #[trigger] now[j]).hash by {
                if j == before.len() {
                    assert(!hash_at(before, key@.hash, i));
                } else {
                    assert(before[i].hash != before[j].hash);
                }
            }
            assert forall|i: int| 0 <= i < now.len() implies is_affinity_hash(
                (#[trigger] now[i]).hash,
            ) && is_word(now[i].kind, 64) && trimmed(now[i].kind) == now[i].kind by {
                if i < before.len() {
                    assert(now[i] == before[i]);
                }
            }
        }
    }
}

proof fn alias_kinds_are_words()
    ensures
        is_word("session_id"@, 64) && trimmed("session_id"@) == "session_id"@,
        is_word("thread_id"@, 64) && trimmed("thread_id"@) == "thread_id"@,
        is_word("conversation_id"@, 64) && trimmed("conversation_id"@) == "conversation_id"@,
        is_word("prompt_cache_key"@, 64) && trimmed("prompt_cache_key"@) == "prompt_cache_key"@,
{
    reveal_strlit("session_id");
    reveal_strlit("thread_id");
    reveal_strlit("conversation_id");
    reveal_strlit("prompt_cache_key");
}

/// The hash by which a session is known.
pub fn root_session_key_hash(root_id: u128) -> (r: String)
    ensures
        r@ == key_hash("session_id"@, text_of_uuid(root_id)),
        is_affinity_hash(r@),
{
    affinity_hash("session_id", &uuid_text(root_id))
}

fn ordered_members(tree: &SessionTree) -> (r: Vec<u128>)
    ensures
        key_order(*tree, r@),
{
    let mut others: Vec<u128> = Vec::new();
    let mut i: usize = 0;
    while i < tree.member_ids.len()
        invariant
            i <= tree.member_ids.len(),
            sorted_ids(others@),
            forall|x: u128| #[trigger]
                others@.contains(x) <==> tree.member_ids@.take(i as int).contains(x) && x
                    != tree.root_id,
        decreases tree.member_ids.len() - i,
    {
        let id = tree.member_ids[i];
        let ghost p = tree.member_ids@.take(i as int);
        let ghost q = tree.member_ids@.take(i as int + 1);
        proof {
            assert(q =~= p.push(id));
            assert forall|x: u128| q.contains(x) <==> p.contains(x) || x == id by {
                if p.contains(x) {
                    let k = p.index_of(x);
                    assert(q[k] == x);
                }
                if x == id {
                    assert(q[i as int] == x);
                }
            }
        }
        if id != tree.root_id {
            insert_id(&mut others, id);
        }
        i += 1;
    }
    assert(tree.member_ids@.take(tree.member_ids@.len() as int) =~= tree.member_ids@);
    let ghost sorted = others@;
    others.insert(0, tree.root_id);
    assert(others@.skip(1) =~= sorted);
    others
}

fn add_keys(keys: &mut Vec<SessionRouteKey>, id: u128)
    requires
        valid_keys(key_views(old(keys)@)),
    ensures
        valid_keys(key_views(final(keys)@)),
        key_views(final(keys)@) == with_rollout(key_views(old(keys)@), id),
{
    proof {
        alias_kinds_are_words();
    }
    let text = uuid_text(id);
    push_key(keys, "session_id", &text);
    push_key(keys, "thread_id", &text);
    push_key(keys, "conversation_id", &text);
    push_key(keys, "prompt_cache_key", &text);
}

/// The first key stays; with no key before, it is that of the session.
proof fn first_key(keys: Seq<RouteKeyView>, id: u128)
    ensures
        with_rollout(keys, id).len() > 0,
        keys.len() > 0 ==> with_rollout(keys, id)[0] == keys[0],
        keys.len() == 0 ==> with_rollout(keys, id)[0] == route_key("session_id"@, text_of_uuid(id)),
{
    let text = text_of_uuid(id);
    let a = with_key(keys, "session_id"@, text);
    if keys.len() == 0 {
        assert(!has_hash(keys, key_hash("session_id"@, text)));
        assert(a[0] == route_key("session_id"@, text));
    } else {
        assert(a[0] == keys[0]);
    }
    let b = with_key(a, "thread_id"@, text);
    assert(b[0] == a[0]);
    let c = with_key(b, "conversation_id"@, text);
    assert(c[0] == b[0]);
}

/// The route keys of a tree, that of its session first; refused where there are more than one
/// command can have. They are keys that routes accept as they are.
pub fn session_tree_aliases(tree: &SessionTree) -> (r: Result<Vec<SessionRouteKey>, SessionError>)
    ensures
        exists|ids: Seq<u128>| #[trigger]
            key_order(*tree, ids) && ({
                let keys = keys_of(ids, ids.len() as int);
                match r {
                    Ok(out) => keys.len() <= 500 && key_views(out@) == keys && valid_keys(keys)
                        && keys[0] == route_key("session_id"@, text_of_uuid(tree.root_id)),
                    Err(e) => keys.len() > 500 && e@ == SessionErrorView::TooManyKeys,
                }
            }),
{
    let ids = ordered_members(tree);
    let mut keys: Vec<SessionRouteKey> = Vec::new();
    let mut i: usize = 0;
    assert(key_views(keys@) =~= Seq::empty());
    while i < ids.len()
        invariant
            i <= ids.len(),
            key_order(*tree, ids@),
            valid_keys(key_views(keys@)),
            key_views(keys@) == keys_of(ids@, i as int),
            keys.len() <= 500,
            i > 0 ==> keys.len() > 0 && key_views(keys@)[0] == route_key(
                "session_id"@,
                text_of_uuid(tree.root_id),
            ),
        decreases ids.len() - i,
    {
        let ghost before = key_views(keys@);
        add_keys(&mut keys, ids[i]);
        proof {
            first_key(before, ids@[i as int]);
        }
        if keys.len() > MAX_SESSION_ACTION_KEYS {
            proof {
                keys_grow(ids@, i as int + 1, ids@.len() as int);
            }
            return Err(SessionError::TooManyKeys);
        }
        i += 1;
    }
    Ok(keys)
}

pub open spec fn key_json(key: RouteKeyView) -> JsonView {
    JsonView::Object(
        seq![("kind"@, JsonView::Str(key.kind)), ("keyHash"@, JsonView::Str(key.hash))],
    )
}

pub open spec fn key_jsons(keys: Seq<RouteKeyView>) -> Seq<JsonView> {
    Seq::new(keys.len(), |i: int| key_json(keys[i]))
}

/// A route command as it is sent to the daemon.
pub open spec fn action_json(
    root_hash: Seq<char>,
    keys: Seq<RouteKeyView>,
    action: Seq<char>,
    target: Option<Seq<char>>,
    dry_run: bool,
) -> JsonView {
    JsonView::Object(
        seq![
            ("action"@, JsonView::Str(action)),
            ("rootKeyHash"@, JsonView::Str(root_hash)),
            ("keys"@, JsonView::Array(key_jsons(keys))),
            (
                "target"@,
                match target {
                    Some(text) => JsonView::Str(text),
                    None => JsonView::Null,
                },
            ),
            ("dryRun"@, JsonView::Bool(dry_run)),
        ],
    )
}

fn key_object(key: &SessionRouteKey) -> (r: Json)
    ensures
        r@ == key_json(key@),
{
    let mut entries: Vec<(String, Json)> = Vec::new();
    entries.push(("kind".to_owned(), Json::of_text(&key.kind)));
    entries.push(("keyHash".to_owned(), Json::of_text(&key.key_hash)));
    let r = Json::Object(entries);
    assert(r@->Object_0 =~= key_json(key@)->Object_0);
    r
}

/// The route command for a tree. It holds hashes only: no session is named in it.
pub fn session_action_payload(
    tree: &SessionTree,
    action: &str,
    target: Option<&str>,
    dry_run: bool,
) -> (r: Result<Json, SessionError>)
    ensures
        exists|ids: Seq<u128>| #[trigger]
            key_order(*tree, ids) && ({
                let keys = keys_of(ids, ids.len() as int);
                match r {
                    Ok(v) => keys.len() <= 500 && v@ == action_json(
                        key_hash("session_id"@, text_of_uuid(tree.root_id)),
                        keys,
                        action@,
                        crate::json::opt_text(target),
                        dry_run,
                    ),
                    Err(e) => keys.len() > 500 && e@ == SessionErrorView::TooManyKeys,
                }
            }),
{
    let keys = match session_tree_aliases(tree) {
        Ok(keys) => keys,
        Err(error) => return Err(error),
    };
    let ghost all = key_views(keys@);
    let mut list: Vec<Json> = Vec::new();
    let mut i: usize = 0;
    while i < keys.len()
        invariant
            i <= keys.len(),
            all == key_views(keys@),
            list.len() == i,
            forall|k: int| 0 <= k < i ==> (#[trigger] list@[k])@ == key_json(all[k]),
        decreases keys.len() - i,
    {
        list.push(key_object(&keys[i]));
        i += 1;
    }
    let keys_value = Json::Array(list);
    assert(keys_value@->Array_0 =~= key_jsons(all));
    let root_hash = root_session_key_hash(tree.root_id);
    let target_value = match target {
        Some(text) => Json::of_text(text),
        None => Json::Null,
    };
    let mut entries: Vec<(String, Json)> = Vec::new();
    entries.push(("action".to_owned(), Json::of_text(action)));
    entries.push(("rootKeyHash".to_owned(), Json::of_text(&root_hash)));
    entries.push(("keys".to_owned(), keys_value));
    entries.push(("target".to_owned(), target_value));
    let flag = Json::Bool(dry_run);
    assert(flag@ == JsonView::Bool(dry_run));
    entries.push(("dryRun".to_owned(), flag));
    let ghost wanted = action_json(
        root_hash@,
        all,
        action@,
        crate::json::opt_text(target),
        dry_run,
    );
    let r = Json::Object(entries);
    proof {
        let made = r@->Object_0;
        assert(made.len() == 5);
        assert(made[0] == wanted->Object_0[0]);
        assert(made[1] == wanted->Object_0[1]);
        assert(made[2] == wanted->Object_0[2]);
        assert(made[3] == wanted->Object_0[3]);
        assert(made[4] == wanted->Object_0[4]);
        assert(made =~= wanted->Object_0);
    }
    Ok(r)
}

/// A rollout came from the thread that it names as its parent, else from the one that it was forked
/// from.
pub proof fn parents_come_before_forks(n: RolloutNode)
    ensures
        n.parent_thread_id is Some ==> parent_of(n) == n.parent_thread_id,
        n.parent_thread_id is None ==> parent_of(n) == n.forked_from_id,
{
}

/// A rollout is read from its metadata, each identifier under its own name.
pub proof fn rollouts_are_read_by_name(
    meta: JsonView,
    payload: JsonView,
    modified: i64,
    node: RolloutNode,
    text: Seq<char>,
)
    requires
        meta.get("payload"@) == Some(payload),
        node_from_meta(meta, modified) == Ok::<RolloutNode, Seq<char>>(node),
    ensures
        payload.get("id"@) == Some(JsonView::Str(text)) ==> uuid_of_text(text) == Some(node.id),
        payload.get("session_id"@) == Some(JsonView::Str(text)) && trimmed(text).len() > 0
            ==> uuid_of_text(text) == node.session_id && node.session_id is Some,
        payload.get("session_id"@) is None ==> node.session_id is None,
        payload.get("parent_thread_id"@) == Some(JsonView::Str(text)) && trimmed(text).len() > 0
            ==> uuid_of_text(text) == node.parent_thread_id && node.parent_thread_id is Some,
        payload.get("parent_thread_id"@) is None ==> node.parent_thread_id is None,
        payload.get("forked_from_id"@) == Some(JsonView::Str(text)) && trimmed(text).len() > 0
            ==> uuid_of_text(text) == node.forked_from_id && node.forked_from_id is Some,
        payload.get("forked_from_id"@) is None ==> node.forked_from_id is None,
        node.modified == modified,
        payload is Object,
        payload.get("id"@) matches Some(v) && v is Str,
{
}

/// Metadata without an identifier, or with one that is none, are refused.
pub proof fn rollouts_need_an_identifier(meta: JsonView, payload: JsonView, modified: i64, text: Seq<char>)
    requires
        meta.get("payload"@) == Some(payload),
    ensures
        payload.get("id"@) is None ==> node_from_meta(meta, modified) is Err,
        payload.get("id"@) == Some(JsonView::Str(text)) && uuid_of_text(text) is None
            ==> node_from_meta(meta, modified) is Err,
        payload.get("session_id"@) == Some(JsonView::Str(text)) && trimmed(text).len() > 0
            && uuid_of_text(text) is None ==> node_from_meta(meta, modified) is Err,
        !(payload is Object) ==> node_from_meta(meta, modified) is Err,
{
}

/// A rollout that is added is in the catalog. One that was there keeps what it said and becomes as new as
/// the newer of the two; where the two contradict each other, that is noted.
pub proof fn added_rollouts_are_kept(c: CatalogView, node: RolloutNode, i: int)
    requires
        distinct_ids(c.nodes),
    ensures
        has_node(with_node(c, node).nodes, node.id),
        !has_node(c.nodes, node.id) ==> with_node(c, node).nodes == c.nodes.push(node) && with_node(
            c,
            node,
        ).issues == c.issues,
        0 <= i < c.nodes.len() && c.nodes[i].id != node.id ==> with_node(c, node).nodes[i]
            == c.nodes[i],
        0 <= i < c.nodes.len() && c.nodes[i].id == node.id ==> {
            let after = with_node(c, node);
            &&& after.nodes.len() == c.nodes.len()
            &&& after.nodes[i].session_id == c.nodes[i].session_id
            &&& after.nodes[i].parent_thread_id == c.nodes[i].parent_thread_id
            &&& after.nodes[i].forked_from_id == c.nodes[i].forked_from_id
            &&& node.modified >= c.nodes[i].modified ==> after.nodes[i].modified == node.modified
            &&& node.modified < c.nodes[i].modified ==> after.nodes[i].modified
                == c.nodes[i].modified
            &&& c.nodes[i].session_id != node.session_id || c.nodes[i].parent_thread_id
                != node.parent_thread_id || c.nodes[i].forked_from_id != node.forked_from_id
                ==> after.issues.contains_key(node.id)
            &&& c.nodes[i].session_id == node.session_id && c.nodes[i].parent_thread_id
                == node.parent_thread_id && c.nodes[i].forked_from_id == node.forked_from_id
                ==> after.issues == c.issues
        },
{
    let after = with_node(c, node);
    if has_node(c.nodes, node.id) {
        let k = choose|k: int| node_at(c.nodes, node.id, k);
        assert(node_at(after.nodes, node.id, k));
        if 0 <= i < c.nodes.len() && c.nodes[i].id == node.id {
            if i < k {
                assert(c.nodes[i].id != c.nodes[k].id);
            } else if k < i {
                assert(c.nodes[k].id != c.nodes[i].id);
            }
        }
    } else {
        assert(node_at(after.nodes, node.id, c.nodes.len() as int));
        if 0 <= i < c.nodes.len() && c.nodes[i].id == node.id {
            assert(node_at(c.nodes, node.id, i));
        }
    }
}

/// A file whose metadata name another rollout than its name is at fault for both, and one that names two
/// threads that it came from is too; a file without metadata is a rollout of its name.
pub proof fn contradicting_files_are_noted(
    c: CatalogView,
    path: Seq<char>,
    name: Seq<char>,
    modified: i64,
    meta: JsonView,
    id: u128,
    node: RolloutNode,
)
    requires
        id_in_name(name) == Some(id),
    ensures
        node_from_meta(meta, modified) == Ok::<RolloutNode, Seq<char>>(node) && node.id != id ==> {
            let after = with_file(c, path, name, modified, Some(meta));
            after.issues.contains_key(id) && after.issues.contains_key(node.id)
        },
        node_from_meta(meta, modified) == Ok::<RolloutNode, Seq<char>>(node)
            && node.parent_thread_id is Some && node.forked_from_id is Some
            && node.parent_thread_id != node.forked_from_id ==> with_file(
            c,
            path,
            name,
            modified,
            Some(meta),
        ).issues.contains_key(node.id),
        node_from_meta(meta, modified) == Ok::<RolloutNode, Seq<char>>(node) && node.id == id && (
        node.parent_thread_id is None || node.forked_from_id is None || node.parent_thread_id
            == node.forked_from_id) ==> with_file(c, path, name, modified, Some(meta)) == with_node(
            c,
            node,
        ),
        node_from_meta(meta, modified) is Err ==> with_file(
            c,
            path,
            name,
            modified,
            Some(meta),
        ).issues.contains_key(id) && with_file(c, path, name, modified, Some(meta)).nodes
            == c.nodes,
        with_file(c, path, name, modified, None) == with_node(
            c,
            RolloutNode {
                id,
                session_id: None,
                parent_thread_id: None,
                forked_from_id: None,
                modified,
            },
        ),
{
}

/// The identifier in the name of a rollout is the last 36 characters before its ending.
pub proof fn names_end_with_the_identifier(start: Seq<char>, tail: Seq<char>)
    requires
        tail.len() == 36,
        forall|i: int| 0 <= i < tail.len() ==> #[trigger] tail[i] <= '\u{7f}',
    ensures
        id_in_name(start + tail + ".jsonl"@) == uuid_of_text(tail),
{
    reveal_strlit(".jsonl");
    assert(".jsonl"@.len() == 6);
    let name = start + tail + ".jsonl"@;
    assert(name.skip(name.len() - 6) =~= ".jsonl"@);
    let stem = name.take(name.len() - 6);
    assert(stem =~= start + tail);
    assert(stem.skip(stem.len() - 36) =~= tail);
}

/// The metadata of a rollout are the first of its lines that says so, among the first 64.
pub proof fn metadata_are_the_first(lines: Seq<Seq<char>>, i: int, seen: int)
    requires
        0 <= i < lines.len(),
        0 <= seen,
    ensures
        i >= 64 ==> meta_from(lines, i, seen) is None,
        i < 64 && seen + vstd::utf8::encode_utf8(lines[i]).len() <= 1048576 ==> {
            &&& json_of_text(lines[i]) matches Some(v) ==> (v.get("type"@) == Some(
                JsonView::Str("session_meta"@),
            ) ==> meta_from(lines, i, seen) == Some(v))
            &&& json_of_text(lines[i]) is None ==> meta_from(lines, i, seen) == meta_from(
                lines,
                i + 1,
                seen + vstd::utf8::encode_utf8(lines[i]).len(),
            )
        },
        meta_from(lines, i, seen) matches Some(v) ==> v.get("type"@) == Some(
            JsonView::Str("session_meta"@),
        ),
    decreases lines.len() - i,
{
    let total = seen + vstd::utf8::encode_utf8(lines[i]).len();
    if i + 1 < lines.len() {
        metadata_are_the_first(lines, i + 1, total);
    }
}

proof fn key_is_added(keys: Seq<RouteKeyView>, kind: Seq<char>, text: Seq<char>, hash: Seq<char>)
    ensures
        has_hash(keys, hash) ==> has_hash(with_key(keys, kind, text), hash),
        has_hash(with_key(keys, kind, text), key_hash(kind, text)),
{
    let out = with_key(keys, kind, text);
    if has_hash(keys, hash) {
        let i = choose|i: int| hash_at(keys, hash, i);
        assert(hash_at(out, hash, i));
    }
    if !has_hash(keys, key_hash(kind, text)) {
        assert(hash_at(out, key_hash(kind, text), keys.len() as int));
    }
}

/// Each rollout of a tree has four keys: as a session, as a thread, as a conversation and as the key of a
/// cache.
pub proof fn rollouts_have_four_keys(ids: Seq<u128>, n: int, k: int)
    requires
        0 <= k < n <= ids.len(),
    ensures
        has_hash(keys_of(ids, n), key_hash("session_id"@, text_of_uuid(ids[k]))),
        has_hash(keys_of(ids, n), key_hash("thread_id"@, text_of_uuid(ids[k]))),
        has_hash(keys_of(ids, n), key_hash("conversation_id"@, text_of_uuid(ids[k]))),
        has_hash(keys_of(ids, n), key_hash("prompt_cache_key"@, text_of_uuid(ids[k]))),
    decreases n,
{
    let before = keys_of(ids, n - 1);
    let last = text_of_uuid(ids[n - 1]);
    let a = with_key(before, "session_id"@, last);
    let b = with_key(a, "thread_id"@, last);
    let c = with_key(b, "conversation_id"@, last);
    assert forall|h: Seq<char>|
        #![trigger has_hash(keys_of(ids, n), h)]
        has_hash(before, h) || h == key_hash("session_id"@, last) || h == key_hash(
            "thread_id"@,
            last,
        ) || h == key_hash("conversation_id"@, last) || h == key_hash(
            "prompt_cache_key"@,
            last,
        ) implies has_hash(keys_of(ids, n), h) by {
        key_is_added(before, "session_id"@, last, h);
        key_is_added(a, "thread_id"@, last, h);
        key_is_added(b, "conversation_id"@, last, h);
        key_is_added(c, "prompt_cache_key"@, last, h);
    }
    if k < n - 1 {
        rollouts_have_four_keys(ids, n - 1, k);
    }
}

/// The keys of a tree are those of its root first, and then of all its other members.
pub proof fn keys_are_of_all_members(tree: SessionTree, ids: Seq<u128>, x: u128)
    requires
        key_order(tree, ids),
        tree.member_ids@.contains(x) || x == tree.root_id,
    ensures
        ids[0] == tree.root_id,
        ids.contains(x),
{
    if x != tree.root_id {
        assert(ids.skip(1).contains(x));
        let k = ids.skip(1).index_of(x);
        assert(ids[k + 1] == x);
    } else {
        assert(ids[0] == x);
    }
}

/// The request for an action names the action, the root, the keys and the target, and whether it is only
/// tried.
pub proof fn actions_are_named(
    root_hash: Seq<char>,
    keys: Seq<RouteKeyView>,
    action: Seq<char>,
    target: Option<Seq<char>>,
    dry_run: bool,
)
    ensures
        ({
            let v = action_json(root_hash, keys, action, target, dry_run);
            &&& v.get("action"@) == Some(JsonView::Str(action))
            &&& v.get("rootKeyHash"@) == Some(JsonView::Str(root_hash))
            &&& v.get("keys"@) == Some(JsonView::Array(key_jsons(keys)))
            &&& v.get("dryRun"@) == Some(JsonView::Bool(dry_run))
            &&& target matches Some(text) ==> v.get("target"@) == Some(JsonView::Str(text))
            &&& target is None ==> v.get("target"@) == Some(JsonView::Null)
        }),
{
    let v = action_json(root_hash, keys, action, target, dry_run);
    reveal_strlit("action");
    reveal_strlit("rootKeyHash");
    reveal_strlit("keys");
    reveal_strlit("target");
    reveal_strlit("dryRun");
    assert("action"@.len() == 6 && "action"@[0] == 'a');
    assert("rootKeyHash"@.len() == 11);
    assert("keys"@.len() == 4);
    assert("target"@.len() == 6 && "target"@[0] == 't');
    assert("dryRun"@.len() == 6 && "dryRun"@[0] == 'd');
    let e = v->Object_0;
    assert(e[0].0 == "action"@ && e[1].0 == "rootKeyHash"@ && e[2].0 == "keys"@ && e[3].0
        == "target"@ && e[4].0 == "dryRun"@);
    members_are_first_entries(v, "action"@);
    members_are_first_entries(v, "rootKeyHash"@);
    members_are_first_entries(v, "keys"@);
    members_are_first_entries(v, "target"@);
    members_are_first_entries(v, "dryRun"@);
}

/// A key is written by its kind and its hash.
pub proof fn keys_are_written_by_name(key: RouteKeyView)
    ensures
        key_json(key).get("kind"@) == Some(JsonView::Str(key.kind)),
        key_json(key).get("keyHash"@) == Some(JsonView::Str(key.hash)),
{
    let v = key_json(key);
    reveal_strlit("kind");
    reveal_strlit("keyHash");
    assert("kind"@.len() == 4 && "keyHash"@.len() == 7);
    let e = v->Object_0;
    assert(e[0].0 == "kind"@ && e[1].0 == "keyHash"@);
    members_are_first_entries(v, "kind"@);
    members_are_first_entries(v, "keyHash"@);
}

} // verus!
