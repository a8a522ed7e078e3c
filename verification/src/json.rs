//! JSON values as the daemon reads and writes them.
use vstd::prelude::*;
use crate::text::{same, take_chars};

verus! {

/// A JSON number as `serde_json` keeps it: a natural number, a negative integer, or a double by
/// the bits of its IEEE 754 form.
#[derive(Debug, Clone, Copy, PartialEq, Eq, Structural)]
pub enum JsonNumber {
    PosInt(u64),
    NegInt(i64),
    Float(u64),
}

#[derive(Debug, PartialEq)]
pub enum Json {
    Null,
    Bool(bool),
    Number(JsonNumber),
    Str(String),
    Array(Vec<Json>),
    Object(Vec<(String, Json)>),
}

pub enum JsonView {
    Null,
    Bool(bool),
    Number(JsonNumber),
    Str(Seq<char>),
    Array(Seq<JsonView>),
    Object(Seq<(Seq<char>, JsonView)>),
}

/// What a value holds.
pub open spec fn holds(json: Json) -> JsonView
    decreases json,
{
    match json {
        Json::Null => JsonView::Null,
        Json::Bool(flag) => JsonView::Bool(flag),
        Json::Number(number) => JsonView::Number(number),
        Json::Str(text) => JsonView::Str(text@),
        Json::Array(items) => JsonView::Array(
            Seq::new(
                items@.len(),
                |i: int|
                    if 0 <= i < items@.len() {
                        holds(items@[i])
                    } else {
                        JsonView::Null
                    },
            ),
        ),
        Json::Object(entries) => JsonView::Object(
            Seq::new(
                entries@.len(),
                |i: int|
                    if 0 <= i < entries@.len() {
                        (entries@[i].0@, holds(entries@[i].1))
                    } else {
                        (Seq::empty(), JsonView::Null)
                    },
            ),
        ),
    }
}

impl View for Json {
    type V = JsonView;

    open spec fn view(&self) -> JsonView {
        holds(*self)
    }
}

/// The value of the first entry with the given key.
pub open spec fn entry(entries: Seq<(Seq<char>, JsonView)>, key: Seq<char>) -> Option<JsonView>
    decreases entries.len(),
{
    if entries.len() == 0 {
        None
    } else if entries[0].0 == key {
        Some(entries[0].1)
    } else {
        entry(entries.drop_first(), key)
    }
}

impl JsonView {
    /// The member of an object with the given key.
    pub open spec fn get(self, key: Seq<char>) -> Option<JsonView> {
        match self {
            JsonView::Object(entries) => entry(entries, key),
            _ => None,
        }
    }

    pub open spec fn text(self) -> Option<Seq<char>> {
        match self {
            JsonView::Str(text) => Some(text),
            _ => None,
        }
    }

    pub open spec fn integer(self) -> Option<i64> {
        match self {
            JsonView::Number(JsonNumber::PosInt(n)) => if n <= i64::MAX {
                Some(n as i64)
            } else {
                None
            },
            JsonView::Number(JsonNumber::NegInt(n)) => Some(n),
            _ => None,
        }
    }

    pub open spec fn flag(self) -> Option<bool> {
        match self {
            JsonView::Bool(flag) => Some(flag),
            _ => None,
        }
    }

    pub open spec fn items(self) -> Seq<JsonView> {
        match self {
            JsonView::Array(items) => items,
            _ => Seq::empty(),
        }
    }
}

/// A member of a member.
pub open spec fn member2(v: JsonView, a: Seq<char>, b: Seq<char>) -> Option<JsonView> {
    match v.get(a) {
        Some(inner) => inner.get(b),
        None => None,
    }
}

/// The text of a member.
pub open spec fn member_text(v: JsonView, key: Seq<char>) -> Option<Seq<char>> {
    match v.get(key) {
        Some(inner) => inner.text(),
        None => None,
    }
}

/// The integer of a member.
pub open spec fn member_int(v: JsonView, key: Seq<char>) -> Option<i64> {
    match v.get(key) {
        Some(inner) => inner.integer(),
        None => None,
    }
}

pub open spec fn opt_view(v: Option<&Json>) -> Option<JsonView> {
    match v {
        Some(inner) => Some(inner@),
        None => None,
    }
}

pub open spec fn opt_text(v: Option<&str>) -> Option<Seq<char>> {
    match v {
        Some(text) => Some(text@),
        None => None,
    }
}

impl Json {
    pub fn get<'a>(&'a self, key: &str) -> (r: Option<&'a Json>)
        ensures
            opt_view(r) == self@.get(key@),
    {
        match self {
            Json::Object(entries) => {
                let ghost all = Seq::new(
                    entries@.len(),
                    |k: int| (entries@[k].0@, entries@[k].1@),
                );
                assert(self@->Object_0 =~= all);
                let mut i: usize = 0;
                assert(all.skip(0) =~= all);
                while i < entries.len()
                    invariant
                        i <= entries.len(),
                        all.len() == entries@.len(),
                        forall|k: int|
                            0 <= k < all.len() ==> #[trigger] all[k] == (
                                entries@[k].0@,
                                entries@[k].1@,
                            ),
                        self@.get(key@) == entry(all.skip(i as int), key@),
                    decreases entries.len() - i,
                {
                    assert(all.skip(i as int).drop_first() =~= all.skip(i as int + 1));
                    if same(&entries[i].0, key) {
                        return Some(&entries[i].1);
                    }
                    i += 1;
                }
                None
            },
            _ => None,
        }
    }

    pub fn as_str(&self) -> (r: Option<&str>)
        ensures
            opt_text(r) == self@.text(),
    {
        match self {
            Json::Str(text) => Some(text),
            _ => None,
        }
    }

    pub fn as_i64(&self) -> (r: Option<i64>)
        ensures
            r == self@.integer(),
    {
        match self {
            Json::Number(JsonNumber::PosInt(n)) => if *n <= 9223372036854775807 {
                Some(*n as i64)
            } else {
                None
            },
            Json::Number(JsonNumber::NegInt(n)) => Some(*n),
            _ => None,
        }
    }

    pub fn as_bool(&self) -> (r: Option<bool>)
        ensures
            r == self@.flag(),
    {
        match self {
            Json::Bool(flag) => Some(*flag),
            _ => None,
        }
    }

    pub fn is_object(&self) -> (r: bool)
        ensures
            r == (self@ is Object),
    {
        matches!(self, Json::Object(_))
    }

    /// The text of a member.
    pub fn get_str(&self, key: &str) -> (r: Option<&str>)
        ensures
            opt_text(r) == member_text(self@, key@),
    {
        match self.get(key) {
            Some(value) => value.as_str(),
            None => None,
        }
    }

    /// The integer of a member.
    pub fn get_i64(&self, key: &str) -> (r: Option<i64>)
        ensures
            r == member_int(self@, key@),
    {
        match self.get(key) {
            Some(value) => value.as_i64(),
            None => None,
        }
    }

    /// A member of a member.
    pub fn get2(&self, a: &str, b: &str) -> (r: Option<&Json>)
        ensures
            opt_view(r) == member2(self@, a@, b@),
    {
        match self.get(a) {
            Some(inner) => inner.get(b),
            None => None,
        }
    }

    /// A text value.
    pub fn of_text(text: &str) -> (r: Json)
        ensures
            r@ == JsonView::Str(text@),
    {
        Json::Str(text.to_owned())
    }

    /// A text value, or null.
    pub fn of_opt(text: &Option<String>) -> (r: Json)
        ensures
            r@ == opt_json(text.deep_view()),
    {
        match text {
            Some(t) => Json::of_text(t),
            None => Json::Null,
        }
    }
}

pub open spec fn opt_json(text: Option<Seq<char>>) -> JsonView {
    match text {
        Some(t) => JsonView::Str(t),
        None => JsonView::Null,
    }
}

/// `serde_json::Value`, the parser's own form of a JSON value.
#[verifier::external_type_specification]
#[verifier::external_body]
pub struct ExValue(serde_json::Value);

/// What a `serde_json::Value` holds.
pub uninterp spec fn value_holds(value: serde_json::Value) -> JsonView;

/// The value of a JSON text, as `serde_json::from_str` reads it; `None` where it is refused.
pub uninterp spec fn json_of_text(text: Seq<char>) -> Option<JsonView>;

/// The value of a JSON text given as bytes, as `serde_json::from_slice` reads it; `None` where it
/// is refused.
pub uninterp spec fn json_of_bytes(bytes: Seq<u8>) -> Option<JsonView>;

pub open spec fn value_opt(value: Option<serde_json::Value>) -> Option<JsonView> {
    match value {
        Some(v) => Some(value_holds(v)),
        None => None,
    }
}

/// Calls `serde_json::from_str`. Which texts it accepts, and what they hold, is named, not spelled
/// out.
#[verifier::external_body]
fn read_text(text: &str) -> (r: Option<serde_json::Value>)
    ensures
        value_opt(r) == json_of_text(text@),
{
    serde_json::from_str(text).ok()
}

/// Calls `serde_json::from_slice`. Which bytes it accepts, and what they hold, is named, not spelled
/// out.
#[verifier::external_body]
fn read_bytes(bytes: &[u8]) -> (r: Option<serde_json::Value>)
    ensures
        value_opt(r) == json_of_bytes(bytes@),
{
    serde_json::from_slice(bytes).ok()
}

/// The text of a value, as the `Display` of `serde_json::Value` writes it.
pub uninterp spec fn written(value: JsonView) -> Seq<char>;

/// Writes a `serde_json::Value` with its `Display`: compact JSON, which depends on what the value
/// holds alone. The text is named, not spelled out.
#[verifier::external_body]
fn write_value(value: &serde_json::Value) -> (r: String)
    ensures
        r@ == written(value_holds(*value)),
{
    value.to_string()
}

/// Makes a `serde_json::Value::String`, which holds the text.
#[verifier::external_body]
fn text_value(text: &str) -> (r: serde_json::Value)
    ensures
        value_holds(r) == JsonView::Str(text@),
{
    serde_json::Value::String(text.to_owned())
}

/// One level of a `serde_json::Value`.
enum Opened {
    Null,
    Bool(bool),
    Number(JsonNumber),
    Str(String),
    Items(Vec<serde_json::Value>),
    Entries(Vec<(String, serde_json::Value)>),
}

spec fn opened(o: Opened) -> JsonView {
    match o {
        Opened::Null => JsonView::Null,
        Opened::Bool(flag) => JsonView::Bool(flag),
        Opened::Number(number) => JsonView::Number(number),
        Opened::Str(text) => JsonView::Str(text@),
        Opened::Items(items) => JsonView::Array(
            Seq::new(items@.len(), |i: int| value_holds(items@[i])),
        ),
        Opened::Entries(entries) => JsonView::Object(
            Seq::new(entries@.len(), |i: int| (entries@[i].0@, value_holds(entries@[i].1))),
        ),
    }
}

/// Takes a `serde_json::Value` apart by one level, with the accessors of its numbers and the
/// iteration of its map: the parts hold what the value holds.
#[verifier::external_body]
fn open_value(value: serde_json::Value) -> (r: Opened)
    ensures
        opened(r) == value_holds(value),
{
    match value {
        serde_json::Value::Null => Opened::Null,
        serde_json::Value::Bool(flag) => Opened::Bool(flag),
        serde_json::Value::Number(number) => Opened::Number(
            match (number.as_u64(), number.as_i64()) {
                (Some(n), _) => JsonNumber::PosInt(n),
                (None, Some(n)) => JsonNumber::NegInt(n),
                (None, None) => JsonNumber::Float(number.as_f64().unwrap_or_default().to_bits()),
            },
        ),
        serde_json::Value::String(text) => Opened::Str(text),
        serde_json::Value::Array(items) => Opened::Items(items),
        serde_json::Value::Object(map) => Opened::Entries(map.into_iter().collect()),
    }
}

/// The library's form of a parsed value.
fn json_of_value(value: serde_json::Value) -> (r: Json)
    ensures
        r@ == value_holds(value),
    decreases value_holds(value),
{
    match open_value(value) {
        Opened::Null => Json::Null,
        Opened::Bool(flag) => Json::Bool(flag),
        Opened::Number(number) => Json::Number(number),
        Opened::Str(text) => Json::Str(text),
        Opened::Items(items) => {
            let ghost all = value_holds(value)->Array_0;
            let mut rest = items;
            let mut out: Vec<Json> = Vec::new();
            let ghost total = items@.len();
            while rest.len() > 0
                invariant
                    value_holds(value) is Array,
                    all == value_holds(value)->Array_0,
                    all.len() == total,
                    rest.len() + out.len() == total,
                    forall|i: int|
                        0 <= i < rest.len() ==> value_holds(#[trigger] rest@[i]) == all[out.len()
                            + i],
                    forall|i: int| 0 <= i < out.len() ==> (#[trigger] out@[i])@ == all[i],
                decreases rest.len(),
            {
                let ghost before = rest@;
                let item = rest.remove(0);
                proof {
                    assert(value_holds(item) == all[out.len() as int]);
                    assert(decreases_to!(value_holds(value) => all[out.len() as int]));
                }
                let done = json_of_value(item);
                out.push(done);
                proof {
                    assert forall|i: int| 0 <= i < rest.len() implies value_holds(
                        #[trigger] rest@[i],
                    ) == all[out.len() + i] by {
                        assert(rest@[i] == before[i + 1]);
                    }
                }
            }
            let r = Json::Array(out);
            assert(r@->Array_0 =~= all);
            r
        },
        Opened::Entries(entries) => {
            let ghost all = value_holds(value)->Object_0;
            let mut rest = entries;
            let mut out: Vec<(String, Json)> = Vec::new();
            let ghost total = entries@.len();
            while rest.len() > 0
                invariant
                    value_holds(value) is Object,
                    all == value_holds(value)->Object_0,
                    all.len() == total,
                    rest.len() + out.len() == total,
                    forall|i: int|
                        0 <= i < rest.len() ==> ((#[trigger] rest@[i]).0@, value_holds(
                            rest@[i].1,
                        )) == all[out.len() + i],
                    forall|i: int|
                        0 <= i < out.len() ==> ((#[trigger] out@[i]).0@, out@[i].1@) == all[i],
                decreases rest.len(),
            {
                let ghost before = rest@;
                let (key, item) = rest.remove(0);
                proof {
                    assert((key@, value_holds(item)) == all[out.len() as int]);
                    assert(decreases_to!(value_holds(value) => all[out.len() as int]));
                    assert(decreases_to!(all[out.len() as int] => all[out.len() as int].1));
                }
                let done = json_of_value(item);
                out.push((key, done));
                proof {
                    assert forall|i: int| 0 <= i < rest.len() implies ((#[trigger] rest@[i]).0@, value_holds(
                        rest@[i].1,
                    )) == all[out.len() + i] by {
                        assert(rest@[i] == before[i + 1]);
                    }
                }
            }
            let r = Json::Object(out);
            assert(r@->Object_0 =~= all);
            r
        },
    }
}

pub open spec fn json_opt(value: Option<Json>) -> Option<JsonView> {
    match value {
        Some(v) => Some(v@),
        None => None,
    }
}

/// The value of a JSON text, where it is one.
pub fn parse_text(text: &str) -> (r: Option<Json>)
    ensures
        json_opt(r) == json_of_text(text@),
{
    match read_text(text) {
        Some(value) => Some(json_of_value(value)),
        None => None,
    }
}

/// The first characters of a text.
pub open spec fn cut_text(text: Seq<char>, limit: nat) -> Seq<char> {
    text.take(
        if text.len() < limit {
            text.len() as int
        } else {
            limit as int
        },
    )
}

/// The value of an answer: JSON where it is that, else the start of its text.
pub open spec fn answer_value(text: Seq<char>, limit: nat) -> JsonView {
    match json_of_text(text) {
        Some(v) => v,
        None => JsonView::Str(cut_text(text, limit)),
    }
}

/// The value of an answer, with the text that it is written as.
pub fn read_answer_text(text: &str, limit: usize) -> (r: (Json, String))
    ensures
        r.0@ == answer_value(text@, limit as nat),
        r.1@ == written(answer_value(text@, limit as nat)),
{
    let value = match read_text(text) {
        Some(value) => value,
        None => text_value(&take_chars(text, limit)),
    };
    let shown = write_value(&value);
    (json_of_value(value), shown)
}

/// The value of a JSON text given as bytes, where they are one.
pub fn parse_bytes(bytes: &[u8]) -> (r: Option<Json>)
    ensures
        json_opt(r) == json_of_bytes(bytes@),
{
    match read_bytes(bytes) {
        Some(value) => Some(json_of_value(value)),
        None => None,
    }
}

pub open spec fn entry_views(entries: Seq<(String, Json)>) -> Seq<(Seq<char>, JsonView)> {
    Seq::new(entries.len(), |i: int| (entries[i].0@, entries[i].1@))
}

pub open spec fn item_views(items: Seq<Json>) -> Seq<JsonView> {
    Seq::new(items.len(), |i: int| items[i]@)
}

/// Adds a member to those of an object.
pub fn put(entries: &mut Vec<(String, Json)>, key: &str, value: Json)
    ensures
        entry_views(final(entries)@) == entry_views(old(entries)@).push((key@, value@)),
{
    let ghost before = entries@;
    entries.push((key.to_owned(), value));
    assert(entry_views(entries@) =~= entry_views(before).push((key@, value@)));
}

impl Json {
    pub fn object(entries: Vec<(String, Json)>) -> (r: Json)
        ensures
            r@ == JsonView::Object(entry_views(entries@)),
    {
        let r = Json::Object(entries);
        assert(r@->Object_0 =~= entry_views(entries@));
        r
    }

    pub fn array(items: Vec<Json>) -> (r: Json)
        ensures
            r@ == JsonView::Array(item_views(items@)),
    {
        let r = Json::Array(items);
        assert(r@->Array_0 =~= item_views(items@));
        r
    }

    /// The items of an array; none where it is no array.
    pub fn items(&self) -> (r: Option<&Vec<Json>>)
        ensures
            match r {
                Some(items) => self@ == JsonView::Array(item_views(items@)),
                None => !(self@ is Array),
            },
    {
        match self {
            Json::Array(items) => {
                assert(self@->Array_0 =~= item_views(items@));
                Some(items)
            },
            _ => None,
        }
    }

    /// The same value once more.
    pub fn copied(&self) -> (r: Json)
        ensures
            r@ == self@,
        decreases *self,
    {
        match self {
            Json::Null => Json::Null,
            Json::Bool(flag) => Json::Bool(*flag),
            Json::Number(number) => Json::Number(*number),
            Json::Str(text) => Json::Str(text.clone()),
            Json::Array(items) => {
                let mut out: Vec<Json> = Vec::new();
                let mut i: usize = 0;
                while i < items.len()
                    invariant
                        i <= items.len(),
                        out.len() == i,
                        *self == Json::Array(*items),
                        forall|k: int| 0 <= k < i ==> (#[trigger] out@[k])@ == items@[k]@,
                    decreases items.len() - i,
                {
                    assert(decreases_to!(*self => self->Array_0));
                    assert(decreases_to!(*items => items@[i as int]));
                    out.push(items[i].copied());
                    i += 1;
                }
                let r = Json::Array(out);
                assert(r@->Array_0 =~= self@->Array_0);
                r
            },
            Json::Object(entries) => {
                let mut out: Vec<(String, Json)> = Vec::new();
                let mut i: usize = 0;
                while i < entries.len()
                    invariant
                        i <= entries.len(),
                        out.len() == i,
                        *self == Json::Object(*entries),
                        forall|k: int|
                            0 <= k < i ==> (#[trigger] out@[k]).0@ == entries@[k].0@ && out@[k].1@
                                == entries@[k].1@,
                    decreases entries.len() - i,
                {
                    assert(decreases_to!(*self => self->Object_0));
                    assert(decreases_to!(*entries => entries@[i as int]));
                    assert(decreases_to!(entries@[i as int] => entries@[i as int].1));
                    out.push((entries[i].0.clone(), entries[i].1.copied()));
                    i += 1;
                }
                let r = Json::Object(out);
                assert(r@->Object_0 =~= self@->Object_0);
                r
            },
        }
    }
}

/// A member of a value is the first entry of that name, and only objects have members.
pub proof fn members_are_first_entries(v: JsonView, key: Seq<char>)
    ensures
        match v.get(key) {
            Some(found) => v is Object && exists|i: int|
                0 <= i < v->Object_0.len() && #[trigger] v->Object_0[i] == (key, found) && forall|
                    j: int,
                |
                    0 <= j < i ==> (#[trigger] v->Object_0[j]).0 != key,
            None => v is Object ==> forall|i: int|
                0 <= i < v->Object_0.len() ==> (#[trigger] v->Object_0[i]).0 != key,
        },
{
    if v is Object {
        entry_is_first(v->Object_0, key);
    }
}

proof fn entry_is_first(entries: Seq<(Seq<char>, JsonView)>, key: Seq<char>)
    ensures
        match entry(entries, key) {
            Some(found) => exists|i: int|
                0 <= i < entries.len() && #[trigger] entries[i] == (key, found) && forall|j: int|
                    0 <= j < i ==> (#[trigger] entries[j]).0 != key,
            None => forall|i: int| 0 <= i < entries.len() ==> (#[trigger] entries[i]).0 != key,
        },
    decreases entries.len(),
{
    if entries.len() > 0 {
        let rest = entries.drop_first();
        entry_is_first(rest, key);
        if entries[0].0 == key {
            assert(entries[0] == (key, entries[0].1));
        } else {
            match entry(rest, key) {
                Some(found) => {
                    let i = choose|i: int|
                        0 <= i < rest.len() && #[trigger] rest[i] == (key, found) && forall|j: int|
                            0 <= j < i ==> (#[trigger] rest[j]).0 != key;
                    assert(entries[i + 1] == (key, found));
                    assert forall|j: int| 0 <= j < i + 1 implies (#[trigger] entries[j]).0 != key by {
                        if j > 0 {
                            assert(rest[j - 1] == entries[j]);
                        }
                    }
                },
                None => {
                    assert forall|i: int| 0 <= i < entries.len() implies (
                    #[trigger] entries[i]).0 != key by {
                        if i > 0 {
                            assert(rest[i - 1] == entries[i]);
                        }
                    }
                },
            }
        }
    }
}

/// A value is a text, a flag, a list or an integer only where it is written as one.
pub proof fn values_are_what_they_are_written_as(v: JsonView, n: u64, m: i64, text: Seq<char>)
    ensures
        v.text() == Some(text) <==> v == JsonView::Str(text),
        v.text() is None <==> !(v is Str),
        v.flag() == Some(true) <==> v == JsonView::Bool(true),
        v.flag() == Some(false) <==> v == JsonView::Bool(false),
        v is Array ==> v.items() == v->Array_0,
        !(v is Array) ==> v.items().len() == 0,
        n <= i64::MAX ==> JsonView::Number(JsonNumber::PosInt(n)).integer() == Some(n as i64),
        n > i64::MAX ==> JsonView::Number(JsonNumber::PosInt(n)).integer() is None,
        JsonView::Number(JsonNumber::NegInt(m)).integer() == Some(m),
        JsonView::Number(JsonNumber::Float(n)).integer() is None,
        !(v is Number) ==> v.integer() is None,
{
}

/// A member of a member, and the text or the integer of a member, by the members themselves.
pub proof fn members_are_reached_by_name(v: JsonView, a: Seq<char>, b: Seq<char>, inner: JsonView)
    ensures
        v.get(a) == Some(inner) ==> member2(v, a, b) == inner.get(b),
        v.get(a) == Some(inner) ==> member_text(v, a) == inner.text(),
        v.get(a) == Some(inner) ==> member_int(v, a) == inner.integer(),
        v.get(a) is None ==> member2(v, a, b) is None && member_text(v, a) is None && member_int(
            v,
            a,
        ) is None,
{
}

/// An answer is read as the value that it writes, and kept as a text, cut at a limit, where it writes
/// none.
pub proof fn answers_are_read_or_kept(text: Seq<char>, limit: nat, v: JsonView)
    ensures
        json_of_text(text) == Some(v) ==> answer_value(text, limit) == v,
        json_of_text(text) is None && text.len() <= limit ==> answer_value(text, limit)
            == JsonView::Str(text),
        json_of_text(text) is None && text.len() > limit ==> answer_value(text, limit)
            == JsonView::Str(text.take(limit as int)),
        cut_text(text, limit).len() <= limit,
{
    assert(text.take(text.len() as int) =~= text);
}

/// A value holds what it is made of.
pub proof fn values_hold_what_they_are_made_of(flag: bool, number: JsonNumber, text: String)
    ensures
        Json::Null@ == JsonView::Null,
        Json::Bool(flag)@ == JsonView::Bool(flag),
        Json::Number(number)@ == JsonView::Number(number),
        Json::Str(text)@ == JsonView::Str(text@),
        opt_json(Some(text@)) == JsonView::Str(text@),
        opt_json(None) == JsonView::Null,
{
}

} // verus!
