//! What is sent to the upstream, and what its answers tell.
use vstd::prelude::*;
use vstd::string::StringExecFns;
use vstd::utf8::encode_utf8;
use crate::auth_file::{AuthTokens, TokensView, first_of};
use crate::config::{Config, no_slashes};
use crate::error::{AppError, AppErrorKind};
use crate::json::{
    Json, JsonNumber, JsonView, json_of_bytes, json_of_text, member2, member_int, member_text,
    opt_view, parse_bytes, parse_text,
};
use crate::models::{UsageData, UsageView, no_usage};
use crate::text::{
    chars_of, clone_opt, concat, contains, occurs, occurs_at, same, slice_of, starts_with, strip_prefix, trim,
    trimmed,
};
use crate::time::{NANOS, date_of_seconds, epoch, is_time, seconds_of, span, whole_seconds};

verus! {

/// The model that a request asks for.
pub open spec fn body_model(body: Seq<u8>) -> Option<Seq<char>> {
    match json_of_bytes(body) {
        Some(v) => member_text(v, "model"@),
        None => None,
    }
}

pub fn model_from_body(body: &[u8]) -> (r: Option<String>)
    ensures
        r.deep_view() == body_model(body@),
{
    match parse_bytes(body) {
        Some(value) => model_from_value(&value),
        None => None,
    }
}

/// The model that a request asks for, given its JSON.
pub fn model_from_value(value: &Json) -> (r: Option<String>)
    ensures
        r.deep_view() == member_text(value@, "model"@),
{
    match value.get_str("model") {
        Some(text) => Some(text.to_owned()),
        None => None,
    }
}

/// Counters with those that a usage object gives put in their place.
pub open spec fn with_fields(u: UsageView, c: JsonView) -> UsageView {
    UsageView {
        input: first_of(member_int(c, "input_tokens"@), u.input),
        output: first_of(member_int(c, "output_tokens"@), u.output),
        cached: first_of(detail(c, "input_tokens_details"@, "cached_tokens"@), u.cached),
        cache_write: first_of(
            detail(c, "input_tokens_details"@, "cache_write_tokens"@),
            u.cache_write,
        ),
        reasoning: first_of(
            detail(c, "output_tokens_details"@, "reasoning_tokens"@),
            u.reasoning,
        ),
        model: u.model,
        tier: u.tier,
    }
}

pub open spec fn detail(c: JsonView, group: Seq<char>, name: Seq<char>) -> Option<i64> {
    match member2(c, group, name) {
        Some(v) => v.integer(),
        None => None,
    }
}

fn detail_of(c: &Json, group: &str, name: &str) -> (r: Option<i64>)
    ensures
        r == detail(c@, group@, name@),
{
    match c.get2(group, name) {
        Some(v) => v.as_i64(),
        None => None,
    }
}

fn merge_usage_fields(usage: &mut UsageData, candidate: &Json)
    ensures
        final(usage)@ == with_fields(old(usage)@, candidate@),
{
    if let Some(n) = candidate.get_i64("input_tokens") {
        usage.input_tokens = Some(n);
    }
    if let Some(n) = candidate.get_i64("output_tokens") {
        usage.output_tokens = Some(n);
    }
    if let Some(n) = detail_of(candidate, "input_tokens_details", "cached_tokens") {
        usage.cached_input_tokens = Some(n);
    }
    if let Some(n) = detail_of(candidate, "input_tokens_details", "cache_write_tokens") {
        usage.cache_write_input_tokens = Some(n);
    }
    if let Some(n) = detail_of(candidate, "output_tokens_details", "reasoning_tokens") {
        usage.reasoning_tokens = Some(n);
    }
}

/// What an object with a usage tells: its counters, and the model and tier that served it.
pub open spec fn with_holder(u: UsageView, holder: Option<JsonView>) -> UsageView {
    match holder {
        Some(v) => match v.get("usage"@) {
            Some(c) => {
                let counted = with_fields(u, c);
                UsageView {
                    model: first_of(member_text(v, "model"@), counted.model),
                    tier: first_of(member_text(v, "service_tier"@), counted.tier),
                    ..counted
                }
            },
            None => u,
        },
        None => u,
    }
}

fn merge_holder(usage: &mut UsageData, holder: Option<&Json>)
    ensures
        final(usage)@ == with_holder(old(usage)@, opt_view(holder)),
{
    if let Some(v) = holder {
        if let Some(c) = v.get("usage") {
            merge_usage_fields(usage, c);
            if let Some(model) = v.get_str("model") {
                usage.effective_model = Some(model.to_owned());
            }
            if let Some(tier) = v.get_str("service_tier") {
                usage.effective_service_tier = Some(tier.to_owned());
            }
        }
    }
}

/// What an event or an answer tells of usage: at its top, in its response, in its item.
pub open spec fn with_value(u: UsageView, v: JsonView) -> UsageView {
    with_holder(with_holder(with_holder(u, Some(v)), v.get("response"@)), v.get("item"@))
}

fn merge_usage(usage: &mut UsageData, value: &Json)
    ensures
        final(usage)@ == with_value(old(usage)@, value@),
{
    merge_holder(usage, Some(value));
    merge_holder(usage, value.get("response"));
    merge_holder(usage, value.get("item"));
}

pub fn extract_usage_from_json(value: &Json) -> (r: UsageData)
    ensures
        r@ == with_value(no_usage(), value@),
{
    let mut usage = UsageData::none();
    merge_usage(&mut usage, value);
    usage
}

/// The lines of a text from the place `from` on.
pub open spec fn lines_from(s: Seq<char>, from: int) -> Seq<Seq<char>>
    decreases s.len() - from,
{
    let i = find_char(s, '\n', from);
    if i < from || i >= s.len() {
        seq![s.skip(from)]
    } else {
        seq![s.subrange(from, i)] + lines_from(s, i + 1)
    }
}

/// The pieces of a text between its line feeds. The last one is empty where the text ends with a line
/// feed; a carriage return stays, as white space at the end of its piece.
pub open spec fn split_lines(s: Seq<char>) -> Seq<Seq<char>> {
    lines_from(s, 0)
}

pub fn lines_of(text: &str) -> (r: Vec<String>)
    ensures
        crate::text::views(r@) == split_lines(text@),
{
    let chars = chars_of(text);
    let mut out: Vec<String> = Vec::new();
    let mut from: usize = 0;
    assert(crate::text::views(out@) + lines_from(text@, 0) =~= lines_from(text@, 0));
    let mut i: usize = seek(&chars, '\n', 0);
    while i < chars.len()
        invariant
            from <= i <= chars.len(),
            chars@ == text@,
            i == find_char(text@, '\n', from as int),
            crate::text::views(out@) + lines_from(text@, from as int) == lines_from(text@, 0),
        decreases chars.len() - from,
    {
        let ghost before = crate::text::views(out@);
        let line = slice_of(&chars, from, i);
        out.push(line);
        proof {
            assert(crate::text::views(out@) =~= before.push(line@));
            assert(before.push(line@) + lines_from(text@, i as int + 1) =~= before + (seq![line@]
                + lines_from(text@, i as int + 1)));
        }
        from = i + 1;
        i = seek(&chars, '\n', from);
    }
    let ghost before = crate::text::views(out@);
    let last = slice_of(&chars, from, chars.len());
    out.push(last);
    proof {
        assert(last@ =~= text@.skip(from as int));
        assert(crate::text::views(out@) =~= before + seq![last@]);
    }
    out
}

/// The JSON of a line of an event stream, where it holds any.
pub open spec fn event_of(line: Seq<char>) -> Option<JsonView> {
    if starts_with(line, "data:"@) {
        let data = trimmed(line.skip("data:"@.len() as int));
        if data.len() == 0 || data == "[DONE]"@ {
            None
        } else {
            json_of_text(data)
        }
    } else {
        None
    }
}

fn event_value(line: &str) -> (r: Option<Json>)
    ensures
        crate::json::json_opt(r) == event_of(line@),
{
    match strip_prefix(line, "data:") {
        Some(rest) => {
            let data = trim(&rest);
            if data.as_str().is_empty() || same(&data, "[DONE]") {
                None
            } else {
                parse_text(&data)
            }
        },
        None => None,
    }
}

/// What the first `n` lines of an event stream tell of usage.
pub open spec fn lines_usage(lines: Seq<Seq<char>>, n: int) -> UsageView
    decreases n,
{
    if n <= 0 {
        no_usage()
    } else {
        match event_of(lines[n - 1]) {
            Some(v) => with_value(lines_usage(lines, n - 1), v),
            None => lines_usage(lines, n - 1),
        }
    }
}

/// What an event stream tells of usage. Where no event tells it, because the start of the last
/// one was cut off, its last usage object does.
pub open spec fn sse_usage(buffer: Seq<char>) -> UsageView {
    let lines = split_lines(buffer);
    let u = lines_usage(lines, lines.len() as int);
    if u.input is None && u.output is None {
        match last_object(buffer, "\"usage\""@, buffer.len() as int) {
            Some(v) => with_fields(u, v),
            None => u,
        }
    } else {
        u
    }
}

pub fn extract_usage_from_sse(buffer: &str) -> (r: UsageData)
    ensures
        r@ == sse_usage(buffer@),
{
    let lines = lines_of(buffer);
    let ghost all = split_lines(buffer@);
    let mut usage = UsageData::none();
    let mut i: usize = 0;
    while i < lines.len()
        invariant
            i <= lines.len(),
            crate::text::views(lines@) == all,
            usage@ == lines_usage(all, i as int),
        decreases lines.len() - i,
    {
        assert(all[i as int] == lines@[i as int]@);
        if let Some(value) = event_value(&lines[i]) {
            merge_usage(&mut usage, &value);
        }
        i += 1;
    }
    if usage.input_tokens.is_none() && usage.output_tokens.is_none() {
        if let Some(value) = last_named_json_object(buffer, "usage") {
            merge_usage_fields(&mut usage, &value);
        }
    }
    usage
}

/// The first place from `i` on where `c` stands; the length where there is none.
pub open spec fn find_char(s: Seq<char>, c: char, i: int) -> int
    decreases s.len() - i,
{
    if i < 0 || i >= s.len() {
        s.len() as int
    } else if s[i] == c {
        i
    } else {
        find_char(s, c, i + 1)
    }
}

fn seek(chars: &Vec<char>, c: char, from: usize) -> (r: usize)
    requires
        from <= chars.len(),
    ensures
        r == find_char(chars@, c, from as int),
        from <= r <= chars.len(),
{
    let mut i: usize = from;
    while i < chars.len() && chars[i] != c
        invariant
            from <= i <= chars.len(),
            find_char(chars@, c, from as int) == find_char(chars@, c, i as int),
        decreases chars.len() - i,
    {
        i += 1;
    }
    i
}

/// Where a reader of JSON stands: in a string or not, after a backslash or not.
pub open spec fn closing(s: Seq<char>, i: int, depth: int, in_string: bool, escaped: bool) -> Option<
    int,
>
    decreases s.len() - i,
{
    if i < 0 || i >= s.len() {
        None
    } else if in_string {
        if escaped {
            closing(s, i + 1, depth, true, false)
        } else if s[i] == '\\' {
            closing(s, i + 1, depth, true, true)
        } else if s[i] == '"' {
            closing(s, i + 1, depth, false, false)
        } else {
            closing(s, i + 1, depth, true, false)
        }
    } else if s[i] == '"' {
        closing(s, i + 1, depth, true, false)
    } else if s[i] == '{' {
        closing(s, i + 1, depth + 1, false, false)
    } else if s[i] == '}' {
        if depth <= 1 {
            Some(i)
        } else {
            closing(s, i + 1, depth - 1, false, false)
        }
    } else {
        closing(s, i + 1, depth, false, false)
    }
}

/// The place of the brace that closes the object which starts at `from`.
fn find_closing(chars: &Vec<char>, from: usize) -> (r: Option<usize>)
    requires
        from <= chars.len(),
    ensures
        match r {
            Some(i) => closing(chars@, from as int, 0, false, false) == Some(i as int) && from <= i
                < chars.len(),
            None => closing(chars@, from as int, 0, false, false) is None,
        },
{
    let mut depth: usize = 0;
    let mut in_string = false;
    let mut escaped = false;
    let mut i: usize = from;
    while i < chars.len()
        invariant
            from <= i <= chars.len(),
            depth <= i - from,
            escaped ==> in_string,
            closing(chars@, from as int, 0, false, false) == closing(
                chars@,
                i as int,
                depth as int,
                in_string,
                escaped,
            ),
        decreases chars.len() - i,
    {
        let c = chars[i];
        if in_string {
            if escaped {
                escaped = false;
            } else if c == '\\' {
                escaped = true;
            } else if c == '"' {
                in_string = false;
            }
        } else if c == '"' {
            in_string = true;
        } else if c == '{' {
            depth = depth + 1;
        } else if c == '}' {
            if depth <= 1 {
                return Some(i);
            }
            depth = depth - 1;
        }
        i += 1;
    }
    None
}

/// The object that is the value of the key which ends at `i`, where it can be read.
pub open spec fn object_after(s: Seq<char>, i: int) -> Option<JsonView> {
    let colon = find_char(s, ':', i);
    let brace = find_char(s, '{', colon + 1);
    if colon >= s.len() || brace >= s.len() {
        None
    } else {
        match closing(s, brace, 0, false, false) {
            Some(end) => json_of_bytes(encode_utf8(s.subrange(brace, end + 1))),
            None => None,
        }
    }
}

fn read_object_after(chars: &Vec<char>, from: usize) -> (r: Option<Json>)
    requires
        from <= chars.len(),
    ensures
        crate::json::json_opt(r) == object_after(chars@, from as int),
{
    let colon = seek(chars, ':', from);
    if colon == chars.len() {
        return None;
    }
    let brace = seek(chars, '{', colon + 1);
    if brace == chars.len() {
        return None;
    }
    match find_closing(chars, brace) {
        Some(end) => {
            let object = slice_of(chars, brace, end + 1);
            parse_bytes(object.as_str().as_bytes())
        },
        None => None,
    }
}

/// The last place before `end` where `part` stands, all of it before `end`.
pub open spec fn last_place(s: Seq<char>, part: Seq<char>, end: int) -> Option<int>
    decreases end,
{
    let i = end - part.len();
    if i < 0 || end <= 0 {
        None
    } else if occurs_at(s, part, i) {
        Some(i)
    } else {
        last_place(s, part, end - 1)
    }
}

/// The value of the last key `needle` before `end` that has an object which can be read.
pub open spec fn last_object(s: Seq<char>, needle: Seq<char>, end: int) -> Option<JsonView>
    decreases end,
    when needle.len() > 0
{
    match last_place(s, needle, end) {
        Some(i) => if i >= end || i < 0 {
            None
        } else {
            match object_after(s, i + needle.len()) {
                Some(v) => Some(v),
                None => last_object(s, needle, i),
            }
        },
        None => None,
    }
}

fn find_last(chars: &Vec<char>, part: &Vec<char>, end: usize) -> (r: Option<usize>)
    requires
        end <= chars.len(),
        part.len() > 0,
    ensures
        match r {
            Some(i) => last_place(chars@, part@, end as int) == Some(i as int) && i + part.len()
                <= end,
            None => last_place(chars@, part@, end as int) is None,
        },
{
    let mut e: usize = end;
    while e >= part.len()
        invariant
            e <= end <= chars.len(),
            part.len() > 0,
            last_place(chars@, part@, end as int) == last_place(chars@, part@, e as int),
        decreases e,
    {
        let i: usize = e - part.len();
        if slice_is(chars, part, i) {
            return Some(i);
        }
        e -= 1;
    }
    None
}

fn slice_is(chars: &Vec<char>, part: &Vec<char>, i: usize) -> (r: bool)
    requires
        i + part.len() <= chars.len(),
    ensures
        r == occurs_at(chars@, part@, i as int),
{
    let ghost found = chars@.subrange(i as int, i + part@.len());
    let mut k: usize = 0;
    while k < part.len()
        invariant
            k <= part.len(),
            i + part.len() <= chars.len(),
            found == chars@.subrange(i as int, i + part@.len()),
            forall|j: int| 0 <= j < k ==> found[j] == part@[j],
        decreases part.len() - k,
    {
        if chars[i + k] != part[k] {
            assert(found[k as int] != part@[k as int]);
            return false;
        }
        k += 1;
    }
    assert(found =~= part@);
    true
}

/// The object that is the value of the last key with the given name, where one can be read.
pub fn last_named_json_object(buffer: &str, name: &str) -> (r: Option<Json>)
    ensures
        crate::json::json_opt(r) == last_object(
            buffer@,
            seq!['"'] + name@ + seq!['"'],
            buffer@.len() as int,
        ),
        name@ == "usage"@ ==> crate::json::json_opt(r) == last_object(
            buffer@,
            "\"usage\""@,
            buffer@.len() as int,
        ),
{
    let chars = chars_of(buffer);
    let mut quoted = String::new();
    quoted.push('"');
    quoted.append(name);
    quoted.push('"');
    let needle = chars_of(&quoted);
    proof {
        assert(needle@ =~= seq!['"'] + name@ + seq!['"']);
        reveal_strlit("\"usage\"");
        reveal_strlit("usage");
        if name@ == "usage"@ {
            assert(needle@ =~= "\"usage\""@);
        }
    }
    let mut end: usize = chars.len();
    loop
        invariant
            end <= chars.len(),
            needle.len() > 0,
            chars@ == buffer@,
            needle@ == seq!['"'] + name@ + seq!['"'],
            name@ == "usage"@ ==> needle@ == "\"usage\""@,
            last_object(chars@, needle@, chars@.len() as int) == last_object(
                chars@,
                needle@,
                end as int,
            ),
        ensures
            last_object(chars@, needle@, chars@.len() as int) is None,
        decreases end,
    {
        let i = match find_last(&chars, &needle, end) {
            Some(i) => i,
            None => break,
        };
        if let Some(value) = read_object_after(&chars, i + needle.len()) {
            return Some(value);
        }
        end = i;
    }
    None
}

/// The identifier of the response that an event or an answer belongs to.
pub open spec fn response_id_of(v: JsonView) -> Option<Seq<char>> {
    first_of(
        member_text(v, "id"@),
        match member2(v, "response"@, "id"@) {
            Some(id) => id.text(),
            None => None,
        },
    )
}

pub fn response_id_from_value(value: &Json) -> (r: Option<String>)
    ensures
        r.deep_view() == response_id_of(value@),
{
    if let Some(text) = value.get_str("id") {
        return Some(text.to_owned());
    }
    match value.get2("response", "id") {
        Some(id) => match id.as_str() {
            Some(text) => Some(text.to_owned()),
            None => None,
        },
        None => None,
    }
}

/// The identifier that the last of the first `n` lines with one gives.
pub open spec fn lines_response_id(lines: Seq<Seq<char>>, n: int) -> Option<Seq<char>>
    decreases n,
{
    if n <= 0 {
        None
    } else {
        let found = match event_of(lines[n - 1]) {
            Some(v) => response_id_of(v),
            None => None,
        };
        match found {
            Some(id) => Some(id),
            None => lines_response_id(lines, n - 1),
        }
    }
}

pub open spec fn sse_response_id(buffer: Seq<char>) -> Option<Seq<char>> {
    lines_response_id(split_lines(buffer), split_lines(buffer).len() as int)
}

pub fn response_id_from_sse(buffer: &str) -> (r: Option<String>)
    ensures
        r.deep_view() == sse_response_id(buffer@),
{
    let lines = lines_of(buffer);
    let ghost all = split_lines(buffer@);
    let mut n: usize = lines.len();
    while n > 0
        invariant
            n <= lines.len(),
            crate::text::views(lines@) == all,
            sse_response_id(buffer@) == lines_response_id(all, n as int),
        decreases n,
    {
        assert(all[n as int - 1] == lines@[n as int - 1]@);
        if let Some(value) = event_value(&lines[n - 1]) {
            if let Some(id) = response_id_from_value(&value) {
                return Some(id);
            }
        }
        n -= 1;
    }
    None
}

/// Headers of a request that are passed on to the upstream.
pub open spec fn forwards_request_header(name: Seq<char>) -> bool {
    ||| name == "user-agent"@
    ||| name == "originator"@
    ||| name == "openai-beta"@
    ||| name == "accept-language"@
    ||| name == "session_id"@
    ||| name == "x-session-id"@
    ||| name == "x-request-id"@
    ||| name == "x-codex-session-id"@
    ||| name == "x-codex-conversation-id"@
    ||| name == "x-codex-turn-state"@
    ||| name == "x-codex-turn-metadata"@
    ||| name == "x-codex-client-version"@
    ||| name == "x-codex-service-tier"@
    ||| name == "x-openai-client-user-agent"@
    ||| starts_with(name, "x-stainless-"@)
}

pub fn should_forward_request_header(name: &str) -> (r: bool)
    ensures
        r == forwards_request_header(name@),
{
    same(name, "user-agent") || same(name, "originator") || same(name, "openai-beta") || same(
        name,
        "accept-language",
    ) || same(name, "session_id") || same(name, "x-session-id") || same(name, "x-request-id")
        || same(name, "x-codex-session-id") || same(name, "x-codex-conversation-id") || same(
        name,
        "x-codex-turn-state",
    ) || same(name, "x-codex-turn-metadata") || same(name, "x-codex-client-version") || same(
        name,
        "x-codex-service-tier",
    ) || same(name, "x-openai-client-user-agent") || strip_prefix(name, "x-stainless-").is_some()
}

/// A header: its name in lower case, and the bytes of its value.
#[derive(Debug)]
pub struct Header {
    pub name: String,
    pub value: Vec<u8>,
}

pub struct HeaderView {
    pub name: Seq<char>,
    pub value: Seq<u8>,
}

impl View for Header {
    type V = HeaderView;

    open spec fn view(&self) -> HeaderView {
        HeaderView { name: self.name@, value: self.value@ }
    }
}

pub open spec fn header_views(headers: Seq<Header>) -> Seq<HeaderView> {
    Seq::new(headers.len(), |i: int| headers[i]@)
}

/// The first `n` headers that are passed on.
pub open spec fn forwarded(headers: Seq<HeaderView>, n: int) -> Seq<HeaderView>
    decreases n,
{
    if n <= 0 {
        Seq::empty()
    } else if forwards_request_header(headers[n - 1].name) {
        forwarded(headers, n - 1).push(headers[n - 1])
    } else {
        forwarded(headers, n - 1)
    }
}

/// A request to the upstream.
#[derive(Debug)]
pub struct UpstreamRequest {
    pub url: String,
    pub headers: Vec<Header>,
}

pub open spec fn text_header(name: Seq<char>, value: Seq<char>) -> HeaderView {
    HeaderView { name, value: encode_utf8(value) }
}

pub(crate) fn make_header(name: &str, value: &str) -> (r: Header)
    ensures
        r@ == text_header(name@, value@),
{
    let bytes = value.as_bytes();
    Header { name: name.to_owned(), value: copy_bytes(bytes) }
}

pub(crate) fn copy_bytes(bytes: &[u8]) -> (r: Vec<u8>)
    ensures
        r@ == bytes@,
{
    let mut r: Vec<u8> = Vec::new();
    let mut i: usize = 0;
    while i < bytes.len()
        invariant
            i <= bytes.len(),
            r@ == bytes@.take(i as int),
        decreases bytes.len() - i,
    {
        r.push(bytes[i]);
        i += 1;
    }
    r
}

/// The headers of a request: its own, those passed on, and the account.
pub open spec fn request_headers(
    own: Seq<HeaderView>,
    incoming: Seq<HeaderView>,
    account_id: Option<Seq<char>>,
) -> Seq<HeaderView> {
    let passed = own + forwarded(incoming, incoming.len() as int);
    match account_id {
        Some(id) => passed.push(text_header("chatgpt-account-id"@, id)),
        None => passed,
    }
}

fn complete_headers(
    own: Vec<Header>,
    incoming: &Vec<Header>,
    account_id: &Option<String>,
) -> (r: Vec<Header>)
    ensures
        header_views(r@) == request_headers(
            header_views(own@),
            header_views(incoming@),
            account_id.deep_view(),
        ),
{
    let ghost first = header_views(own@);
    let ghost all = header_views(incoming@);
    let mut out = own;
    let mut i: usize = 0;
    assert(first + forwarded(all, 0) =~= first);
    while i < incoming.len()
        invariant
            i <= incoming.len(),
            all == header_views(incoming@),
            header_views(out@) == first + forwarded(all, i as int),
        decreases incoming.len() - i,
    {
        let header = &incoming[i];
        assert(all[i as int] == header@);
        if should_forward_request_header(&header.name) {
            let ghost before = header_views(out@);
            out.push(Header { name: header.name.clone(), value: copy_bytes(&header.value) });
            proof {
                assert(header_views(out@) =~= before.push(header@));
                assert(before.push(header@) =~= first + forwarded(all, i as int).push(header@));
            }
        }
        i += 1;
    }
    if let Some(id) = account_id {
        let ghost before = header_views(out@);
        out.push(make_header("chatgpt-account-id", id));
        assert(header_views(out@) =~= before.push(text_header("chatgpt-account-id"@, id@)));
    }
    out
}

/// Where a request for a response is sent.
pub open spec fn responses_url(base: Seq<char>, compact: bool) -> Seq<char> {
    no_slashes(base) + if compact {
        "/codex/responses/compact"@
    } else {
        "/codex/responses"@
    }
}

/// The headers of a request for a response that are not the client's.
pub open spec fn responses_headers(token: Seq<char>, request_id: Seq<char>, compact: bool) -> Seq<
    HeaderView,
> {
    seq![
        text_header("authorization"@, "Bearer "@ + token),
        text_header(
            "accept"@,
            if compact {
                "application/json"@
            } else {
                "text/event-stream"@
            },
        ),
        text_header("content-type"@, "application/json"@),
        text_header("x-request-id"@, request_id),
    ]
}

/// The request that asks the upstream for a response.
pub fn build_upstream_responses_request(
    config: &Config,
    access_token: &str,
    account_id: &Option<String>,
    request_id: &str,
    incoming: &Vec<Header>,
    compact: bool,
) -> (r: UpstreamRequest)
    ensures
        r.url@ == responses_url(config.upstream_base_url@, compact),
        header_views(r.headers@) == request_headers(
            responses_headers(access_token@, request_id@, compact),
            header_views(incoming@),
            account_id.deep_view(),
        ),
        r.url@ == no_slashes(config.upstream_base_url@) + if compact {
            "/codex/responses/compact"@
        } else {
            "/codex/responses"@
        },
        header_views(r.headers@) == request_headers(
            seq![
                text_header("authorization"@, "Bearer "@ + access_token@),
                text_header(
                    "accept"@,
                    if compact {
                        "application/json"@
                    } else {
                        "text/event-stream"@
                    },
                ),
                text_header("content-type"@, "application/json"@),
                text_header("x-request-id"@, request_id@),
            ],
            header_views(incoming@),
            account_id.deep_view(),
        ),
{
    let url = if compact {
        config.upstream_codex_compact_url()
    } else {
        config.upstream_codex_responses_url()
    };
    let accept = if compact { "application/json" } else { "text/event-stream" };
    let mut own: Vec<Header> = Vec::new();
    own.push(make_header("authorization", &concat("Bearer ", access_token)));
    own.push(make_header("accept", accept));
    own.push(make_header("content-type", "application/json"));
    own.push(make_header("x-request-id", request_id));
    assert(header_views(own@) =~= seq![
        text_header("authorization"@, "Bearer "@ + access_token@),
        text_header("accept"@, accept@),
        text_header("content-type"@, "application/json"@),
        text_header("x-request-id"@, request_id@),
    ]);
    UpstreamRequest { url, headers: complete_headers(own, incoming, account_id) }
}

/// Where a request for the list of models is sent.
pub open spec fn models_url(base: Seq<char>, query: Option<Seq<char>>) -> Seq<char> {
    no_slashes(base) + "/codex/models"@ + match query {
        Some(text) => if text.len() > 0 {
            seq!['?'] + text
        } else {
            Seq::empty()
        },
        None => Seq::empty(),
    }
}

/// The request that asks the upstream for its models.
pub fn build_upstream_models_request(
    config: &Config,
    access_token: &str,
    account_id: &Option<String>,
    request_id: &str,
    incoming: &Vec<Header>,
    raw_query: Option<&str>,
) -> (r: UpstreamRequest)
    ensures
        r.url@ == models_url(
            config.upstream_base_url@,
            match raw_query {
                Some(query) => Some(query@),
                None => None,
            },
        ),
        r.url@ == no_slashes(config.upstream_base_url@) + "/codex/models"@ + match raw_query {
            Some(query) => if query@.len() > 0 {
                seq!['?'] + query@
            } else {
                Seq::empty()
            },
            None => Seq::empty(),
        },
        header_views(r.headers@) == request_headers(
            seq![
                text_header("authorization"@, "Bearer "@ + access_token@),
                text_header("accept"@, "application/json"@),
                text_header("x-request-id"@, request_id@),
            ],
            header_views(incoming@),
            account_id.deep_view(),
        ),
{
    let mut url = config.upstream_codex_models_url();
    if let Some(query) = raw_query {
        if !query.is_empty() {
            url.push('?');
            url.append(query);
        }
    }
    let mut own: Vec<Header> = Vec::new();
    own.push(make_header("authorization", &concat("Bearer ", access_token)));
    own.push(make_header("accept", "application/json"));
    own.push(make_header("x-request-id", request_id));
    assert(header_views(own@) =~= seq![
        text_header("authorization"@, "Bearer "@ + access_token@),
        text_header("accept"@, "application/json"@),
        text_header("x-request-id"@, request_id@),
    ]);
    UpstreamRequest { url, headers: complete_headers(own, incoming, account_id) }
}

/// Headers that carry what a client should not learn, or should not send, are not passed on: its
/// own authorization, cookies, origin and host.
pub proof fn credentials_are_not_passed_on(name: Seq<char>)
    requires
        name == "authorization"@ || name == "cookie"@ || name == "origin"@ || name == "host"@,
    ensures
        !forwards_request_header(name),
{
    reveal_strlit("authorization");
    reveal_strlit("cookie");
    reveal_strlit("origin");
    reveal_strlit("host");
    reveal_strlit("user-agent");
    reveal_strlit("originator");
    reveal_strlit("openai-beta");
    reveal_strlit("accept-language");
    reveal_strlit("session_id");
    reveal_strlit("x-session-id");
    reveal_strlit("x-request-id");
    reveal_strlit("x-codex-session-id");
    reveal_strlit("x-codex-conversation-id");
    reveal_strlit("x-codex-turn-state");
    reveal_strlit("x-codex-turn-metadata");
    reveal_strlit("x-codex-client-version");
    reveal_strlit("x-codex-service-tier");
    reveal_strlit("x-openai-client-user-agent");
    reveal_strlit("x-stainless-");
    assert("user-agent"@.len() == 10 && "originator"@.len() == 10 && "openai-beta"@.len() == 11
        && "accept-language"@.len() == 15 && "session_id"@.len() == 10 && "x-session-id"@.len()
        == 12 && "x-request-id"@.len() == 12 && "x-codex-session-id"@.len() == 18
        && "x-codex-conversation-id"@.len() == 23 && "x-codex-turn-state"@.len() == 18
        && "x-codex-turn-metadata"@.len() == 21 && "x-codex-client-version"@.len() == 22
        && "x-codex-service-tier"@.len() == 20 && "x-openai-client-user-agent"@.len() == 26);
    assert("authorization"@.len() == 13 && "cookie"@.len() == 6 && "origin"@.len() == 6
        && "host"@.len() == 4);
    if starts_with(name, "x-stainless-"@) {
        assert(name.take("x-stainless-"@.len() as int)[0] == 'x');
        assert(name[0] == 'x');
    }
}

/// Whether an error says that the upstream refused the tokens.
pub open spec fn refuses_tokens(error: (AppErrorKind, Seq<char>)) -> bool {
    error.0 == AppErrorKind::Upstream && (occurs(error.1, "401"@) || occurs(error.1, "403"@))
}

/// Whether a failure is one of authorization.
pub fn is_auth_error(error: &AppError) -> (r: bool)
    ensures
        r == refuses_tokens(error@),
        r == (error@.0 == AppErrorKind::Upstream && (occurs(error@.1, "401"@) || occurs(
            error@.1,
            "403"@,
        ))),
{
    match error {
        AppError::Upstream(message) => contains(message, "401") || contains(message, "403"),
        _ => false,
    }
}

/// The use of the first window of a report, and the second of its reset.
pub open spec fn primary_window(raw: JsonView) -> (Option<JsonNumber>, Option<i64>) {
    match member2(raw, "rate_limit"@, "primary_window"@) {
        Some(w) => (
            match w.get("used_percent"@) {
                Some(JsonView::Number(n)) => Some(n),
                _ => None,
            },
            match member_int(w, "reset_at"@) {
                Some(n) => epoch(n),
                None => None,
            },
        ),
        None => (None, None),
    }
}

/// The use and the reset of the primary window, as a usage report gives them.
pub fn parse_primary_usage_window(raw: &Json) -> (r: (Option<JsonNumber>, Option<i64>))
    ensures
        r == primary_window(raw@),
        ({
            let window = member2(raw@, "rate_limit"@, "primary_window"@);
            &&& r.0 == match window {
                Some(w) => match w.get("used_percent"@) {
                    Some(JsonView::Number(n)) => Some(n),
                    _ => None,
                },
                None => None,
            }
            &&& r.1 == match window {
                Some(w) => match member_int(w, "reset_at"@) {
                    Some(n) => epoch(n),
                    None => None,
                },
                None => None,
            }
        }),
{
    match raw.get2("rate_limit", "primary_window") {
        Some(window) => {
            let used = match window.get("used_percent") {
                Some(Json::Number(n)) => Some(*n),
                _ => None,
            };
            let reset = match window.get_i64("reset_at") {
                Some(n) => date_of_seconds(n),
                None => None,
            };
            (used, reset)
        },
        None => (None, None),
    }
}

/// The plan that a report names.
pub open spec fn reported_plan(raw: JsonView) -> Option<Seq<char>> {
    match raw.get("plan_type"@) {
        Some(v) => v.text(),
        None => member_text(raw, "plan"@),
    }
}

/// The plan that a usage report names.
pub fn plan_type_of(raw: &Json) -> (r: Option<String>)
    ensures
        r.deep_view() == reported_plan(raw@),
        r.deep_view() == match raw@.get("plan_type"@) {
            Some(v) => v.text(),
            None => member_text(raw@, "plan"@),
        },
{
    let found = match raw.get("plan_type") {
        Some(v) => v.as_str(),
        None => raw.get_str("plan"),
    };
    match found {
        Some(text) => Some(text.to_owned()),
        None => None,
    }
}

/// What the answer to a refresh of tokens says.
pub struct OAuthTokenPayload {
    pub access_token: Option<String>,
    pub refresh_token: Option<String>,
    pub id_token: Option<String>,
    pub error: Option<Json>,
    pub error_description: Option<String>,
    pub message: Option<String>,
    pub code: Option<String>,
}

pub struct RefreshView {
    pub access: Option<Seq<char>>,
    pub refresh: Option<Seq<char>>,
    pub id: Option<Seq<char>>,
    pub error: Option<JsonView>,
    pub description: Option<Seq<char>>,
    pub message: Option<Seq<char>>,
    pub code: Option<Seq<char>>,
}

impl View for OAuthTokenPayload {
    type V = RefreshView;

    open spec fn view(&self) -> RefreshView {
        RefreshView {
            access: self.access_token.deep_view(),
            refresh: self.refresh_token.deep_view(),
            id: self.id_token.deep_view(),
            error: match self.error {
                Some(v) => Some(v@),
                None => None,
            },
            description: self.error_description.deep_view(),
            message: self.message.deep_view(),
            code: self.code.deep_view(),
        }
    }
}

/// Why a refresh failed, as its answer tells.
pub open spec fn refresh_error(p: RefreshView) -> Option<Seq<char>> {
    if p.message is Some {
        p.message
    } else if p.description is Some {
        p.description
    } else if p.code is Some {
        p.code
    } else {
        match p.error {
            Some(JsonView::Str(text)) => Some(text),
            Some(JsonView::Object(entries)) => {
                let v = JsonView::Object(entries);
                match first_of(
                    v.get("message"@),
                    first_of(v.get("error_description"@), v.get("code"@)),
                ) {
                    Some(found) => found.text(),
                    None => None,
                }
            },
            _ => None,
        }
    }
}

/// The new tokens that the answer to a refresh gives, or why there are none.
pub open spec fn refreshed(success: bool, status: Seq<char>, p: RefreshView) -> Result<
    TokensView,
    Seq<char>,
> {
    if !success {
        Err(
            match refresh_error(p) {
                Some(text) => text,
                None => "token refresh failed ("@ + status + ")"@,
            },
        )
    } else if p.access is None {
        Err("refresh response missing access_token"@)
    } else if p.refresh is None {
        Err("refresh response missing refresh_token"@)
    } else if p.id is None {
        Err("refresh response missing id_token"@)
    } else {
        Ok(
            TokensView {
                id: p.id->0,
                access: p.access->0,
                refresh: p.refresh->0,
                account: None,
            },
        )
    }
}

fn oauth_error_message(payload: &OAuthTokenPayload) -> (r: Option<String>)
    ensures
        r.deep_view() == refresh_error(payload@),
{
    if payload.message.is_some() {
        return clone_opt(&payload.message);
    }
    if payload.error_description.is_some() {
        return clone_opt(&payload.error_description);
    }
    if payload.code.is_some() {
        return clone_opt(&payload.code);
    }
    match &payload.error {
        Some(Json::Str(text)) => Some(text.clone()),
        Some(v) => {
            if !v.is_object() {
                return None;
            }
            let found = match v.get("message") {
                Some(inner) => Some(inner),
                None => match v.get("error_description") {
                    Some(inner) => Some(inner),
                    None => v.get("code"),
                },
            };
            match found {
                Some(inner) => match inner.as_str() {
                    Some(text) => Some(text.to_owned()),
                    None => None,
                },
                None => None,
            }
        },
        None => None,
    }
}

/// The new tokens that the answer to a refresh gives. `status` is its status in words.
pub fn read_refresh_response(success: bool, status: &str, payload: OAuthTokenPayload) -> (r: Result<
    AuthTokens,
    AppError,
>)
    ensures
        match r {
            Ok(tokens) => refreshed(success, status@, payload@) == Ok::<TokensView, Seq<char>>(
                tokens@,
            ),
            Err(e) => e@.0 == AppErrorKind::Upstream && refreshed(success, status@, payload@)
                == Err::<TokensView, Seq<char>>(e@.1),
        },
{
    if !success {
        let text = match oauth_error_message(&payload) {
            Some(text) => text,
            None => {
                let start = concat("token refresh failed (", status);
                concat(&start, ")")
            },
        };
        return Err(AppError::Upstream(text));
    }
    let access_token = match payload.access_token {
        Some(token) => token,
        None => return Err(AppError::Upstream("refresh response missing access_token".to_owned())),
    };
    let refresh_token = match payload.refresh_token {
        Some(token) => token,
        None => return Err(AppError::Upstream("refresh response missing refresh_token".to_owned())),
    };
    let id_token = match payload.id_token {
        Some(token) => token,
        None => return Err(AppError::Upstream("refresh response missing id_token".to_owned())),
    };
    Ok(AuthTokens { id_token, access_token, refresh_token, account_id: None })
}

/// Whole days between two points in time, the fraction cut off.
pub open spec fn days_between(from: int, to: int) -> int {
    let seconds = whole_seconds(to - from);
    if seconds < 0 {
        -((-seconds) / 86400)
    } else {
        seconds / 86400
    }
}

/// Whether tokens are old enough to be refreshed.
pub open spec fn refresh_is_due(last_refresh_at: int, interval_days: int, now: int) -> bool {
    days_between(last_refresh_at, now) >= interval_days
}

/// Whether tokens are due for a refresh by their age.
pub fn should_refresh(last_refresh_at: i128, interval_days: i64, now: i128) -> (r: bool)
    requires
        is_time(last_refresh_at as int),
        is_time(now as int),
    ensures
        r == refresh_is_due(last_refresh_at as int, interval_days as int, now as int),
        r == (days_between(last_refresh_at as int, now as int) >= interval_days),
{
    let seconds = seconds_of(span(last_refresh_at, now));
    let days: i128 = if seconds < 0 {
        -((-seconds) / 86400)
    } else {
        seconds / 86400
    };
    days >= interval_days as i128
}

/// Whether tokens are refreshed before they are used: they expire within a quarter of an hour, or are
/// old enough.
pub open spec fn refresh_is_needed(
    expires_at: Option<int>,
    last_refresh_at: int,
    interval_days: int,
    now: int,
) -> bool {
    (expires_at is Some && expires_at->0 <= now + 900 * NANOS) || refresh_is_due(
        last_refresh_at,
        interval_days,
        now,
    )
}

/// Whether tokens should be refreshed before a request: they expire within a quarter of an hour, or
/// are due by their age.
pub fn needs_refresh(
    access_token_expires_at: Option<i128>,
    last_refresh_at: i128,
    interval_days: i64,
    now: i128,
) -> (r: bool)
    requires
        is_time(last_refresh_at as int),
        is_time(now as int),
    ensures
        r == refresh_is_needed(
            match access_token_expires_at {
                Some(at) => Some(at as int),
                None => None,
            },
            last_refresh_at as int,
            interval_days as int,
            now as int,
        ),
        r == ((access_token_expires_at is Some && access_token_expires_at->0 <= now + 900 * NANOS)
            || days_between(last_refresh_at as int, now as int) >= interval_days),
{
    let soon = match access_token_expires_at {
        Some(at) => at <= now + 900 * NANOS,
        None => false,
    };
    soon || should_refresh(last_refresh_at, interval_days, now)
}

/// A usage report that was read, or why it is none: an answer that is no success, or no JSON.
pub fn read_usage_report(success: bool, status: &str, shown: &str, value: Option<Json>) -> (r: Result<
    Json,
    AppError,
>)
    ensures
        match r {
            Ok(v) => success && value is Some && v@ == value->0@ && !(v@ is Str),
            Err(e) => e@.0 == AppErrorKind::Upstream && if !success {
                e@.1 == "usage request failed ("@ + status@ + "): "@ + shown@
            } else {
                (value is None || value->0@ is Str) && e@.1 == "usage response was not valid JSON"@
            },
        },
{
    if !success {
        let start = concat("usage request failed (", status);
        let middle = concat(&start, "): ");
        return Err(AppError::Upstream(concat(&middle, shown)));
    }
    match value {
        Some(v) => {
            if let Json::Str(_) = &v {
                return Err(AppError::Upstream("usage response was not valid JSON".to_owned()));
            }
            Ok(v)
        },
        None => Err(AppError::Upstream("usage response was not valid JSON".to_owned())),
    }
}

/// Each counter of a usage is the number under its own name, and what is not there stays as it was.
pub proof fn counters_are_read_by_name(u: UsageView, c: JsonView, details: JsonView, n: u64)
    requires
        n <= i64::MAX,
    ensures
        c.get("input_tokens"@) == Some(JsonView::Number(JsonNumber::PosInt(n))) ==> with_fields(
            u,
            c,
        ).input == Some(n as i64),
        c.get("output_tokens"@) == Some(JsonView::Number(JsonNumber::PosInt(n))) ==> with_fields(
            u,
            c,
        ).output == Some(n as i64),
        c.get("input_tokens_details"@) == Some(details) && details.get("cached_tokens"@) == Some(
            JsonView::Number(JsonNumber::PosInt(n)),
        ) ==> with_fields(u, c).cached == Some(n as i64),
        c.get("input_tokens_details"@) == Some(details) && details.get("cache_write_tokens"@)
            == Some(JsonView::Number(JsonNumber::PosInt(n))) ==> with_fields(u, c).cache_write
            == Some(n as i64),
        c.get("output_tokens_details"@) == Some(details) && details.get("reasoning_tokens"@)
            == Some(JsonView::Number(JsonNumber::PosInt(n))) ==> with_fields(u, c).reasoning
            == Some(n as i64),
        c.get("input_tokens"@) is None ==> with_fields(u, c).input == u.input,
        c.get("output_tokens"@) is None ==> with_fields(u, c).output == u.output,
        c.get("input_tokens_details"@) is None ==> with_fields(u, c).cached == u.cached
            && with_fields(u, c).cache_write == u.cache_write,
        c.get("output_tokens_details"@) is None ==> with_fields(u, c).reasoning == u.reasoning,
        with_fields(u, c).model == u.model,
        with_fields(u, c).tier == u.tier,
{
}

/// The usage of a value is its own, or that of the response in it, or that of the item in it; the
/// model and the tier are those that stand beside the usage.
pub proof fn usage_is_found_in_the_response(v: JsonView, response: JsonView, c: JsonView, text: Seq<char>)
    requires
        response.get("usage"@) == Some(c),
    ensures
        v.get("usage"@) is None && v.get("response"@) == Some(response) && v.get("item"@) is None
            ==> {
            let u = with_value(no_usage(), v);
            let f = with_fields(no_usage(), c);
            &&& u.input == f.input
            &&& u.output == f.output
            &&& u.cached == f.cached
            &&& u.cache_write == f.cache_write
            &&& u.reasoning == f.reasoning
            &&& response.get("model"@) == Some(JsonView::Str(text)) ==> u.model == Some(text)
            &&& response.get("service_tier"@) == Some(JsonView::Str(text)) ==> u.tier == Some(text)
        },
        response.get("response"@) is None && response.get("item"@) is None ==> {
            let u = with_value(no_usage(), response);
            let f = with_fields(no_usage(), c);
            &&& u.input == f.input
            &&& u.output == f.output
            &&& u.cached == f.cached
            &&& u.cache_write == f.cache_write
            &&& u.reasoning == f.reasoning
            &&& response.get("model"@) == Some(JsonView::Str(text)) ==> u.model == Some(text)
            &&& response.get("service_tier"@) == Some(JsonView::Str(text)) ==> u.tier == Some(text)
        },
        v.get("usage"@) is None && v.get("response"@) is None && v.get("item"@) == Some(response)
            ==> with_value(no_usage(), v).input == with_fields(no_usage(), c).input && with_value(
            no_usage(),
            v,
        ).output == with_fields(no_usage(), c).output,
        v.get("usage"@) is None && v.get("response"@) is None && v.get("item"@) is None
            ==> with_value(no_usage(), v) == no_usage(),
{
}

/// Of the events of a stream, the later ones tell what the earlier ones did not, and what they tell
/// anew counts; lines that are no events tell nothing.
pub proof fn later_events_count(lines: Seq<Seq<char>>, n: int, v: JsonView)
    requires
        0 <= n < lines.len(),
    ensures
        event_of(lines[n]) == Some(v) ==> lines_usage(lines, n + 1) == with_value(
            lines_usage(lines, n),
            v,
        ),
        event_of(lines[n]) is None ==> lines_usage(lines, n + 1) == lines_usage(lines, n),
        lines_usage(lines, 0) == no_usage(),
        event_of(lines[n]) == Some(v) && response_id_of(v) is Some ==> lines_response_id(
            lines,
            n + 1,
        ) == response_id_of(v),
        event_of(lines[n]) is None ==> lines_response_id(lines, n + 1) == lines_response_id(
            lines,
            n,
        ),
        lines_response_id(lines, 0) is None,
{
}

/// A line is an event where it starts as data and holds a value; the mark of the end is none.
pub proof fn events_are_lines_of_data(line: Seq<char>)
    ensures
        !starts_with(line, "data:"@) ==> event_of(line) is None,
        starts_with(line, "data:"@) && trimmed(line.skip(5)) == "[DONE]"@ ==> event_of(
            line,
        ) is None,
        starts_with(line, "data:"@) && trimmed(line.skip(5)).len() > 0 && trimmed(line.skip(5))
            != "[DONE]"@ ==> event_of(line) == json_of_text(trimmed(line.skip(5))),
{
    reveal_strlit("data:");
    assert("data:"@.len() == 5);
}

proof fn found_char(s: Seq<char>, c: char, i: int)
    requires
        0 <= i <= s.len(),
    ensures
        i <= find_char(s, c, i) <= s.len(),
        find_char(s, c, i) < s.len() ==> s[find_char(s, c, i)] == c,
        forall|k: int| i <= k < find_char(s, c, i) ==> s[k] != c,
    decreases s.len() - i,
{
    if i < s.len() && s[i] != c {
        found_char(s, c, i + 1);
    }
}

/// The lines of a text have no line break in them, and there is one more of them than there are line
/// breaks: without one, the text is its only line.
pub proof fn lines_have_no_breaks(s: Seq<char>, from: int, i: int)
    requires
        0 <= from <= s.len(),
        0 <= i < lines_from(s, from).len(),
    ensures
        !lines_from(s, from)[i].contains('\n'),
        (forall|k: int| from <= k < s.len() ==> s[k] != '\n') ==> lines_from(s, from) == seq![
            s.skip(from),
        ],
    decreases s.len() - from,
{
    let at = find_char(s, '\n', from);
    found_char(s, '\n', from);
    if at >= s.len() {
        let line = s.skip(from);
        assert forall|k: int| 0 <= k < line.len() implies line[k] != '\n' by {
            assert(line[k] == s[from + k]);
        }
    } else {
        let line = s.subrange(from, at);
        assert forall|k: int| 0 <= k < line.len() implies line[k] != '\n' by {
            assert(line[k] == s[from + k]);
        }
        let rest = lines_from(s, at + 1);
        assert(lines_from(s, from) =~= seq![line] + rest);
        if i > 0 {
            assert(lines_from(s, from)[i] == rest[i - 1]);
            lines_have_no_breaks(s, at + 1, i - 1);
        }
    }
}

/// A response is named by its own identifier, else by that of the response in it.
pub proof fn responses_are_named(v: JsonView, response: JsonView, text: Seq<char>)
    ensures
        v.get("id"@) == Some(JsonView::Str(text)) ==> response_id_of(v) == Some(text),
        v.get("id"@) is None && v.get("response"@) == Some(response) && response.get("id"@) == Some(
            JsonView::Str(text),
        ) ==> response_id_of(v) == Some(text),
        v.get("id"@) is None && v.get("response"@) is None ==> response_id_of(v) is None,
{
}

/// The model of a request is the text under its name.
pub proof fn requests_name_their_model(body: Seq<u8>, v: JsonView, text: Seq<char>)
    ensures
        json_of_bytes(body) == Some(v) && v.get("model"@) == Some(JsonView::Str(text))
            ==> body_model(body) == Some(text),
        json_of_bytes(body) == Some(v) && v.get("model"@) is None ==> body_model(body) is None,
        json_of_bytes(body) is None ==> body_model(body) is None,
{
}

/// Of the client's headers a request carries exactly those that may be passed on, as they are.
pub proof fn requests_keep_their_headers(headers: Seq<HeaderView>, n: int, h: HeaderView)
    requires
        0 <= n <= headers.len(),
    ensures
        forwarded(headers, n).contains(h) <==> (exists|i: int|
            0 <= i < n && #[trigger] headers[i] == h) && forwards_request_header(h.name),
    decreases n,
{
    if n > 0 {
        let before = forwarded(headers, n - 1);
        let all = forwarded(headers, n);
        requests_keep_their_headers(headers, n - 1, h);
        if all.contains(h) {
            let k = all.index_of(h);
            if k < before.len() {
                assert(before[k] == h);
            } else {
                assert(headers[n - 1] == h);
            }
        }
        if (exists|i: int| 0 <= i < n && #[trigger] headers[i] == h) && forwards_request_header(
            h.name,
        ) {
            let i = choose|i: int| 0 <= i < n && #[trigger] headers[i] == h;
            if i < n - 1 {
                let k = before.index_of(h);
                assert(all[k] == h);
            } else {
                assert(all[before.len() as int] == h);
            }
        }
    }
}

/// The headers of a client that may be passed on, by name; neither its authorization nor a cookie is
/// one of them, nor the account that it names.
pub proof fn request_headers_by_name(name: Seq<char>)
    ensures
        forwards_request_header(name) <==> name == "user-agent"@ || name == "originator"@ || name
            == "openai-beta"@ || name == "accept-language"@ || name == "session_id"@ || name
            == "x-session-id"@ || name == "x-request-id"@ || name == "x-codex-session-id"@ || name
            == "x-codex-conversation-id"@ || name == "x-codex-turn-state"@ || name
            == "x-codex-turn-metadata"@ || name == "x-codex-client-version"@ || name
            == "x-codex-service-tier"@ || name == "x-openai-client-user-agent"@ || starts_with(
            name,
            "x-stainless-"@,
        ),
        !forwards_request_header("authorization"@),
        !forwards_request_header("cookie"@),
        !forwards_request_header("chatgpt-account-id"@),
{
    reveal_strlit("user-agent");
    reveal_strlit("originator");
    reveal_strlit("openai-beta");
    reveal_strlit("accept-language");
    reveal_strlit("session_id");
    reveal_strlit("x-session-id");
    reveal_strlit("x-request-id");
    reveal_strlit("x-codex-session-id");
    reveal_strlit("x-codex-conversation-id");
    reveal_strlit("x-codex-turn-state");
    reveal_strlit("x-codex-turn-metadata");
    reveal_strlit("x-codex-client-version");
    reveal_strlit("x-codex-service-tier");
    reveal_strlit("x-openai-client-user-agent");
    reveal_strlit("x-stainless-");
    reveal_strlit("authorization");
    reveal_strlit("cookie");
    reveal_strlit("chatgpt-account-id");
    assert("authorization"@.len() == 13 && "authorization"@[0] == 'a');
    assert("cookie"@.len() == 6 && "cookie"@[0] == 'c');
    assert("chatgpt-account-id"@.len() == 18 && "chatgpt-account-id"@[0] == 'c');
    assert("x-codex-session-id"@[0] == 'x' && "x-codex-turn-state"@[0] == 'x');
    assert("x-stainless-"@[0] == 'x');
    assert("authorization"@.take(12)[0] == 'a');
    assert("chatgpt-account-id"@.take(12)[0] == 'c');
}

/// A request to the upstream is signed with the account's token, carries its own headers, and names
/// the account where it is known.
pub proof fn requests_are_signed(
    token: Seq<char>,
    request_id: Seq<char>,
    compact: bool,
    incoming: Seq<HeaderView>,
    account: Option<Seq<char>>,
)
    ensures
        ({
            let r = request_headers(
                responses_headers(token, request_id, compact),
                incoming,
                account,
            );
            &&& r.contains(text_header("authorization"@, "Bearer "@ + token))
            &&& r.contains(text_header("content-type"@, "application/json"@))
            &&& r.contains(text_header("x-request-id"@, request_id))
            &&& compact ==> r.contains(text_header("accept"@, "application/json"@))
            &&& !compact ==> r.contains(text_header("accept"@, "text/event-stream"@))
            &&& account matches Some(id) ==> r.contains(text_header("chatgpt-account-id"@, id))
        }),
{
    let own = responses_headers(token, request_id, compact);
    let passed = own + forwarded(incoming, incoming.len() as int);
    let r = request_headers(own, incoming, account);
    assert(r[0] == own[0] && r[1] == own[1] && r[2] == own[2] && r[3] == own[3]);
    if let Some(id) = account {
        assert(r[passed.len() as int] == text_header("chatgpt-account-id"@, id));
    }
}

/// Every header of a request is one of its own, one of the client's that may be passed on, or the
/// account's.
pub proof fn requests_carry_nothing_else(
    own: Seq<HeaderView>,
    incoming: Seq<HeaderView>,
    account: Option<Seq<char>>,
    h: HeaderView,
)
    requires
        request_headers(own, incoming, account).contains(h),
    ensures
        own.contains(h) || (incoming.contains(h) && forwards_request_header(h.name)) || (
        account is Some && h == text_header("chatgpt-account-id"@, account->0)),
{
    let list = forwarded(incoming, incoming.len() as int);
    let passed = own + list;
    let r = request_headers(own, incoming, account);
    let k = r.index_of(h);
    if k < own.len() {
        assert(own[k] == h);
    } else if k < passed.len() {
        assert(list[k - own.len()] == h);
        requests_keep_their_headers(incoming, incoming.len() as int, h);
    }
}

/// Where requests are sent: below the configured address, to the path of what is asked for.
pub proof fn requests_go_to_their_path(base: Seq<char>, query: Seq<char>)
    ensures
        responses_url(base, false) == no_slashes(base) + "/codex/responses"@,
        responses_url(base, true) == no_slashes(base) + "/codex/responses/compact"@,
        models_url(base, None) == no_slashes(base) + "/codex/models"@,
        query.len() > 0 ==> models_url(base, Some(query)) == no_slashes(base) + "/codex/models?"@
            + query,
{
    reveal_strlit("/codex/models?");
    reveal_strlit("/codex/models");
    assert("/codex/models?"@ =~= "/codex/models"@ + seq!['?']);
    assert(models_url(base, None) =~= no_slashes(base) + "/codex/models"@);
    if query.len() > 0 {
        assert(models_url(base, Some(query)) =~= no_slashes(base) + "/codex/models?"@ + query);
    }
}

/// New tokens are those of the answer, each under its own name; an answer that lacks one, or that is
/// no success, gives none.
pub proof fn new_tokens_are_those_of_the_answer(
    status: Seq<char>,
    p: RefreshView,
)
    ensures
        refreshed(true, status, p) matches Ok(t) ==> p.access == Some(t.access) && p.refresh == Some(
            t.refresh,
        ) && p.id == Some(t.id) && t.account is None,
        p.access is Some && p.refresh is Some && p.id is Some <==> refreshed(true, status, p) is Ok,
        refreshed(false, status, p) is Err,
        p.access is None ==> refreshed(true, status, p) == Err::<TokensView, Seq<char>>(
            "refresh response missing access_token"@,
        ),
        p.access is Some && p.refresh is None ==> refreshed(true, status, p) == Err::<
            TokensView,
            Seq<char>,
        >("refresh response missing refresh_token"@),
        p.access is Some && p.refresh is Some && p.id is None ==> refreshed(true, status, p)
            == Err::<TokensView, Seq<char>>("refresh response missing id_token"@),
{
}

/// A refused refresh says why: by its message, else its description, else its code, else by the error
/// itself or what that says; and by the status where it says nothing.
pub proof fn refused_refreshes_say_why(status: Seq<char>, p: RefreshView, text: Seq<char>)
    ensures
        p.message == Some(text) ==> refreshed(false, status, p) == Err::<TokensView, Seq<char>>(
            text,
        ),
        p.message is None && p.description == Some(text) ==> refreshed(false, status, p) == Err::<
            TokensView,
            Seq<char>,
        >(text),
        p.message is None && p.description is None && p.code == Some(text) ==> refreshed(
            false,
            status,
            p,
        ) == Err::<TokensView, Seq<char>>(text),
        p.message is None && p.description is None && p.code is None && p.error == Some(
            JsonView::Str(text),
        ) ==> refreshed(false, status, p) == Err::<TokensView, Seq<char>>(text),
        p.message is None && p.description is None && p.code is None ==> (p.error matches Some(
            e,
        ) && e is Object && e.get("message"@) == Some(JsonView::Str(text)) ==> refreshed(
            false,
            status,
            p,
        ) == Err::<TokensView, Seq<char>>(text)),
        p.message is None && p.description is None && p.code is None && p.error is None
            ==> refreshed(false, status, p) == Err::<TokensView, Seq<char>>(
            "token refresh failed ("@ + status + ")"@,
        ),
{
}

/// Tokens are refreshed once they are as many whole days old as is set, and before that where they
/// expire within a quarter of an hour; never sooner.
pub proof fn tokens_are_refreshed_in_time(last: int, days: int, now: int, expires: int)
    requires
        days >= 1,
    ensures
        now - last >= days * 86400 * 1_000_000_000 ==> refresh_is_due(last, days, now),
        now - last < days * 86400 * 1_000_000_000 ==> !refresh_is_due(last, days, now),
        expires - now <= 900 * 1_000_000_000 ==> refresh_is_needed(Some(expires), last, days, now),
        expires - now > 900 * 1_000_000_000 ==> (refresh_is_needed(Some(expires), last, days, now)
            <==> refresh_is_due(last, days, now)),
        refresh_is_needed(None, last, days, now) <==> refresh_is_due(last, days, now),
{
    let span = now - last;
    if span >= days * 86400 * 1_000_000_000 {
        assert(span / 1_000_000_000 >= days * 86400) by (nonlinear_arith)
            requires
                span >= days * 86400 * 1_000_000_000,
        ;
        assert((span / 1_000_000_000) / 86400 >= days) by (nonlinear_arith)
            requires
                span / 1_000_000_000 >= days * 86400,
        ;
    } else if span >= 0 {
        assert(span / 1_000_000_000 < days * 86400) by (nonlinear_arith)
            requires
                0 <= span < days * 86400 * 1_000_000_000,
        ;
        assert((span / 1_000_000_000) / 86400 < days) by (nonlinear_arith)
            requires
                0 <= span / 1_000_000_000 < days * 86400,
        ;
    }
}

/// An error tells of refused tokens where it is the upstream's and names either status.
pub proof fn refusals_name_a_status(error: (AppErrorKind, Seq<char>))
    ensures
        refuses_tokens(error) ==> error.0 is Upstream,
        error.0 is Upstream && occurs(error.1, "401"@) ==> refuses_tokens(error),
        error.0 is Upstream && occurs(error.1, "403"@) ==> refuses_tokens(error),
        !occurs(error.1, "401"@) && !occurs(error.1, "403"@) ==> !refuses_tokens(error),
{
}

/// The plan of a report is the type that it names, else the plan.
pub proof fn plans_are_read_by_name(raw: JsonView, text: Seq<char>)
    ensures
        raw.get("plan_type"@) == Some(JsonView::Str(text)) ==> reported_plan(raw) == Some(text),
        raw.get("plan_type"@) is None && raw.get("plan"@) == Some(JsonView::Str(text))
            ==> reported_plan(raw) == Some(text),
        raw.get("plan_type"@) is None && raw.get("plan"@) is None ==> reported_plan(raw) is None,
{
}

/// The first window of a report is that of its limit, with the use and the reset that it gives.
pub proof fn primary_windows_are_read_by_name(
    raw: JsonView,
    limit: JsonView,
    window: JsonView,
    n: JsonNumber,
    at: u64,
)
    requires
        raw.get("rate_limit"@) == Some(limit),
        limit.get("primary_window"@) == Some(window),
    ensures
        window.get("used_percent"@) == Some(JsonView::Number(n)) ==> primary_window(raw).0 == Some(
            n,
        ),
        window.get("used_percent"@) is None ==> primary_window(raw).0 is None,
        at <= i64::MAX && window.get("reset_at"@) == Some(
            JsonView::Number(JsonNumber::PosInt(at)),
        ) ==> primary_window(raw).1 == epoch(at as i64),
        window.get("reset_at"@) is None ==> primary_window(raw).1 is None,
{
}

/// The tokens of an answer are seen under their own names.
pub proof fn answers_are_seen_by_name(p: OAuthTokenPayload)
    ensures
        p.access_token matches Some(t) ==> p@.access == Some(t@),
        p.refresh_token matches Some(t) ==> p@.refresh == Some(t@),
        p.id_token matches Some(t) ==> p@.id == Some(t@),
        p.message matches Some(t) ==> p@.message == Some(t@),
        p.error_description matches Some(t) ==> p@.description == Some(t@),
        p.code matches Some(t) ==> p@.code == Some(t@),
        p.access_token is None ==> p@.access is None,
        p.refresh_token is None ==> p@.refresh is None,
        p.id_token is None ==> p@.id is None,
{
}

/// A character is found where it first stands.
pub proof fn characters_are_found_first(s: Seq<char>, c: char, from: int, i: int)
    requires
        0 <= from <= s.len(),
    ensures
        from <= find_char(s, c, from) <= s.len(),
        find_char(s, c, from) < s.len() ==> s[find_char(s, c, from)] == c,
        from <= i < find_char(s, c, from) ==> s[i] != c,
    decreases s.len() - from,
{
    if from < s.len() && s[from] != c {
        characters_are_found_first(s, c, from + 1, i);
    }
}

/// Outside strings only quotes and braces matter to where an object ends.
pub proof fn plain_characters_do_not_close(s: Seq<char>, i: int, j: int, depth: int)
    requires
        0 <= i <= j <= s.len(),
        forall|k: int| i <= k < j ==> #[trigger] s[k] != '"' && s[k] != '{' && s[k] != '}',
    ensures
        closing(s, i, depth, false, false) == closing(s, j, depth, false, false),
    decreases j - i,
{
    if i < j {
        assert(s[i] != '"' && s[i] != '{' && s[i] != '}');
        plain_characters_do_not_close(s, i + 1, j, depth);
    }
}

proof fn strings_run_on(s: Seq<char>, i: int, j: int, depth: int)
    requires
        0 <= i <= j < s.len(),
        forall|k: int| i <= k < j ==> #[trigger] s[k] != '"' && s[k] != '\\',
        s[j] == '"',
    ensures
        closing(s, i, depth, true, false) == closing(s, j + 1, depth, false, false),
    decreases j - i,
{
    if i < j {
        assert(s[i] != '"' && s[i] != '\\');
        strings_run_on(s, i + 1, j, depth);
    }
}

/// Braces in a string do not matter to where an object ends, nor does a quote after a backslash.
pub proof fn strings_do_not_close(s: Seq<char>, i: int, j: int, depth: int)
    requires
        0 <= i < j < s.len(),
        s[i] == '"',
        s[j] == '"',
        forall|k: int| i < k < j ==> #[trigger] s[k] != '"' && s[k] != '\\',
    ensures
        closing(s, i, depth, false, false) == closing(s, j + 1, depth, false, false),
        closing(s, i, depth, true, true) == closing(s, i + 1, depth, true, false),
{
    strings_run_on(s, i + 1, j, depth);
}

/// Every brace that opens within an object is closed before the object is.
pub proof fn objects_end_with_their_brace(s: Seq<char>, i: int, depth: int)
    requires
        0 <= i < s.len(),
    ensures
        s[i] == '{' ==> closing(s, i, depth, false, false) == closing(s, i + 1, depth + 1, false, false),
        s[i] == '}' && depth > 1 ==> closing(s, i, depth, false, false) == closing(
            s,
            i + 1,
            depth - 1,
            false,
            false,
        ),
        s[i] == '}' && depth == 1 ==> closing(s, i, depth, false, false) == Some(i),
{
}

/// What closes an object is a brace after it began.
pub proof fn objects_close_with_a_brace(
    s: Seq<char>,
    i: int,
    depth: int,
    in_string: bool,
    escaped: bool,
)
    ensures
        closing(s, i, depth, in_string, escaped) matches Some(end) ==> 0 <= i <= end < s.len()
            && s[end] == '}',
    decreases s.len() - i,
{
    if 0 <= i < s.len() {
        if in_string {
            if escaped {
                objects_close_with_a_brace(s, i + 1, depth, true, false);
            } else if s[i] == '\\' {
                objects_close_with_a_brace(s, i + 1, depth, true, true);
            } else if s[i] == '"' {
                objects_close_with_a_brace(s, i + 1, depth, false, false);
            } else {
                objects_close_with_a_brace(s, i + 1, depth, true, false);
            }
        } else if s[i] == '"' {
            objects_close_with_a_brace(s, i + 1, depth, true, false);
        } else if s[i] == '{' {
            objects_close_with_a_brace(s, i + 1, depth + 1, false, false);
        } else if s[i] == '}' {
            if depth > 1 {
                objects_close_with_a_brace(s, i + 1, depth - 1, false, false);
            }
        } else {
            objects_close_with_a_brace(s, i + 1, depth, false, false);
        }
    }
}

proof fn last_places_are_last(s: Seq<char>, part: Seq<char>, end: int, i: int)
    requires
        part.len() > 0,
        0 <= end <= s.len(),
        occurs_at(s, part, i),
        i + part.len() <= end,
        forall|k: int| i < k && k + part.len() <= end ==> !#[trigger] occurs_at(s, part, k),
    ensures
        last_place(s, part, end) == Some(i),
    decreases end,
{
    if i + part.len() != end {
        assert(!occurs_at(s, part, end - part.len()));
        last_places_are_last(s, part, end - 1, i);
    }
}

/// Of the objects under a name in a text the last that can be read counts: the last place where the
/// name stands gives it, or, where nothing can be read there, the text before.
pub proof fn last_objects_count(s: Seq<char>, part: Seq<char>, end: int, i: int)
    requires
        part.len() > 0,
        0 <= end <= s.len(),
        occurs_at(s, part, i),
        i + part.len() <= end,
        forall|k: int| i < k && k + part.len() <= end ==> !#[trigger] occurs_at(s, part, k),
    ensures
        object_after(s, i + part.len()) is Some ==> last_object(s, part, end) == object_after(
            s,
            i + part.len(),
        ),
        object_after(s, i + part.len()) is None ==> last_object(s, part, end) == last_object(s, part, i),
{
    last_places_are_last(s, part, end, i);
}

/// Of the events that name a response the last counts.
pub proof fn later_responses_count(lines: Seq<Seq<char>>, n: int, v: JsonView)
    requires
        0 < n <= lines.len(),
    ensures
        event_of(lines[n - 1]) == Some(v) && response_id_of(v) is Some ==> lines_response_id(lines, n)
            == response_id_of(v),
        event_of(lines[n - 1]) is None ==> lines_response_id(lines, n) == lines_response_id(
            lines,
            n - 1,
        ),
        event_of(lines[n - 1]) == Some(v) && response_id_of(v) is None ==> lines_response_id(lines, n)
            == lines_response_id(lines, n - 1),
{
}

/// Where no event tells of tokens, those of the last usage in the text count; otherwise the text does
/// not matter.
pub proof fn usage_outside_events_counts(buffer: Seq<char>, c: JsonView, n: i64)
    ensures
        ({
            let lines = split_lines(buffer);
            let u = lines_usage(lines, lines.len() as int);
            let found = last_object(buffer, "\"usage\""@, buffer.len() as int);
            &&& u.input is Some || u.output is Some ==> sse_usage(buffer) == u
            &&& u.input is None && u.output is None && found is None ==> sse_usage(buffer) == u
            &&& u.input is None && u.output is None && found == Some(c) && member_int(
                c,
                "input_tokens"@,
            ) == Some(n) ==> sse_usage(buffer).input == Some(n)
            &&& u.input is None && u.output is None && found == Some(c) && member_int(
                c,
                "output_tokens"@,
            ) == Some(n) ==> sse_usage(buffer).output == Some(n)
        }),
{
}

} // verus!
