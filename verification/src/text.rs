//! Text as a sequence of characters: trimming, ASCII case, decimal numbers, searching.
use vstd::prelude::*;
use vstd::string::StringExecFns;

verus! {

/// Adding one character at the end of a string, as `String::push` documents it.
pub assume_specification[ String::push ](s: &mut String, c: char)
    ensures
        final(s)@ == old(s)@.push(c),
;

/// A text in quotes and with escapes, as the `Debug` of `str` writes it.
pub uninterp spec fn quoted(text: Seq<char>) -> Seq<char>;

/// Writes a text with the `Debug` of `str`. Which characters it escapes is named, not spelled out.
#[verifier::external_body]
pub(crate) fn quote(text: &str) -> (r: String)
    ensures
        r@ == quoted(text@),
{
    format!("{text:?}")
}

/// The characters of a string.
pub fn chars_of(s: &str) -> (r: Vec<char>)
    ensures
        r@ == s@,
{
    let mut r: Vec<char> = Vec::new();
    for c in it: s.chars()
        invariant
            it.seq() == s@,
            r@ == s@.take(it.index() as int),
    {
        r.push(c);
    }
    r
}

/// The string made of the given characters.
pub fn string_of(chars: &Vec<char>) -> (r: String)
    ensures
        r@ == chars@,
{
    slice_of(chars, 0, chars.len())
}

/// The string made of the characters from `from` up to `to`.
pub fn slice_of(chars: &Vec<char>, from: usize, to: usize) -> (r: String)
    requires
        from <= to <= chars.len(),
    ensures
        r@ == chars@.subrange(from as int, to as int),
{
    let mut r = String::new();
    let mut i: usize = from;
    while i < to
        invariant
            from <= i <= to <= chars.len(),
            r@ == chars@.subrange(from as int, i as int),
        decreases to - i,
    {
        r.push(chars[i]);
        i += 1;
    }
    r
}

/// Whether two strings hold the same characters.
pub fn same(a: &str, b: &str) -> (r: bool)
    ensures
        r == (a@ == b@),
{
    a.to_owned() == b.to_owned()
}

/// Whether two optional strings are both absent, or both present with the same characters.
pub fn same_opt(a: &Option<String>, b: &Option<String>) -> (r: bool)
    ensures
        r == (a.deep_view() == b.deep_view()),
{
    match (a, b) {
        (Some(x), Some(y)) => same(x, y),
        (None, None) => true,
        _ => false,
    }
}

pub fn clone_opt(a: &Option<String>) -> (r: Option<String>)
    ensures
        r.deep_view() == a.deep_view(),
{
    match a {
        Some(x) => Some(x.clone()),
        None => None,
    }
}

/// The text `a` followed by the text `b`.
pub fn concat(a: &str, b: &str) -> (r: String)
    ensures
        r@ == a@ + b@,
{
    let mut r = a.to_owned();
    r.append(b);
    r
}

/// The Unicode characters with the property White_Space.
pub open spec fn is_white(c: char) -> bool {
    ||| '\u{9}' <= c <= '\u{d}'
    ||| c == '\u{20}'
    ||| c == '\u{85}'
    ||| c == '\u{a0}'
    ||| c == '\u{1680}'
    ||| '\u{2000}' <= c <= '\u{200a}'
    ||| c == '\u{2028}'
    ||| c == '\u{2029}'
    ||| c == '\u{202f}'
    ||| c == '\u{205f}'
    ||| c == '\u{3000}'
}

pub fn white(c: char) -> (r: bool)
    ensures
        r == is_white(c),
{
    ('\u{9}' <= c && c <= '\u{d}') || c == '\u{20}' || c == '\u{85}' || c == '\u{a0}' || c
        == '\u{1680}' || ('\u{2000}' <= c && c <= '\u{200a}') || c == '\u{2028}' || c
        == '\u{2029}' || c == '\u{202f}' || c == '\u{205f}' || c == '\u{3000}'
}

/// `s` without the white space at its start.
pub open spec fn trimmed_start(s: Seq<char>) -> Seq<char>
    decreases s.len(),
{
    if s.len() > 0 && is_white(s[0]) {
        trimmed_start(s.drop_first())
    } else {
        s
    }
}

/// `s` without the white space at its end.
pub open spec fn trimmed_end(s: Seq<char>) -> Seq<char>
    decreases s.len(),
{
    if s.len() > 0 && is_white(s.last()) {
        trimmed_end(s.drop_last())
    } else {
        s
    }
}

/// `s` without the white space at either end.
pub open spec fn trimmed(s: Seq<char>) -> Seq<char> {
    trimmed_end(trimmed_start(s))
}

pub fn trim(s: &str) -> (r: String)
    ensures
        r@ == trimmed(s@),
{
    let chars = chars_of(s);
    let mut from: usize = 0;
    assert(s@.skip(0) =~= s@);
    while from < chars.len() && white(chars[from])
        invariant
            from <= chars.len(),
            chars@ == s@,
            trimmed_start(s@) == trimmed_start(s@.skip(from as int)),
        decreases chars.len() - from,
    {
        proof {
            assert(s@.skip(from as int).drop_first() =~= s@.skip(from as int + 1));
        }
        from += 1;
    }
    let mut to: usize = chars.len();
    while to > from && white(chars[to - 1])
        invariant
            from <= to <= chars.len(),
            chars@ == s@,
            trimmed_start(s@) == s@.skip(from as int),
            trimmed_end(s@.skip(from as int)) == trimmed_end(s@.subrange(from as int, to as int)),
        decreases to,
    {
        proof {
            assert(s@.subrange(from as int, to as int).drop_last() =~= s@.subrange(
                from as int,
                to as int - 1,
            ));
        }
        to -= 1;
    }
    slice_of(&chars, from, to)
}

pub proof fn trimmed_end_keeps_start(s: Seq<char>)
    ensures
        trimmed_end(s).len() <= s.len(),
        trimmed_end(s).len() > 0 ==> !is_white(trimmed_end(s).last()) && trimmed_end(s)[0] == s[0],
        trimmed_end(trimmed_end(s)) == trimmed_end(s),
    decreases s.len(),
{
    if s.len() > 0 && is_white(s.last()) {
        trimmed_end_keeps_start(s.drop_last());
    }
}

pub proof fn trimmed_start_ends(s: Seq<char>)
    ensures
        trimmed_start(s).len() > 0 ==> !is_white(trimmed_start(s)[0]),
    decreases s.len(),
{
    if s.len() > 0 && is_white(s[0]) {
        trimmed_start_ends(s.drop_first());
    }
}

/// Trimming a trimmed text changes nothing.
pub proof fn trimmed_is_stable(s: Seq<char>)
    ensures
        trimmed(trimmed(s)) == trimmed(s),
        trimmed(s).len() > 0 ==> !is_white(trimmed(s)[0]) && !is_white(trimmed(s).last()),
{
    trimmed_start_ends(s);
    trimmed_end_keeps_start(trimmed_start(s));
}

/// An upper-case ASCII letter as its lower-case one, any other character as it is.
pub open spec fn lower_char(c: char) -> char {
    if 'A' <= c <= 'Z' {
        ((c as u8 + 32) as u8) as char
    } else {
        c
    }
}

pub open spec fn lower(s: Seq<char>) -> Seq<char> {
    Seq::new(s.len(), |i: int| lower_char(s[i]))
}

pub fn to_lower(s: &str) -> (r: String)
    ensures
        r@ == lower(s@),
{
    let mut r = String::new();
    for c in it: s.chars()
        invariant
            it.seq() == s@,
            r@ == lower(s@).take(it.index() as int),
    {
        if 'A' <= c && c <= 'Z' {
            r.push((c as u8 + 32) as char);
        } else {
            r.push(c);
        }
    }
    r
}

/// A lower-case ASCII letter as its upper-case one, any other character as it is.
pub open spec fn upper_char(c: char) -> char {
    if 'a' <= c <= 'z' {
        ((c as u8 - 32) as u8) as char
    } else {
        c
    }
}

pub open spec fn upper(s: Seq<char>) -> Seq<char> {
    Seq::new(s.len(), |i: int| upper_char(s[i]))
}

pub fn raise(c: char) -> (r: char)
    ensures
        r == upper_char(c),
{
    if 'a' <= c && c <= 'z' {
        (c as u8 - 32) as char
    } else {
        c
    }
}

pub fn to_upper(s: &str) -> (r: String)
    ensures
        r@ == upper(s@),
{
    let mut r = String::new();
    for c in it: s.chars()
        invariant
            it.seq() == s@,
            r@ == upper(s@).take(it.index() as int),
    {
        r.push(raise(c));
    }
    r
}

/// The text with every `from` written as `to`.
pub open spec fn with_char(s: Seq<char>, from: char, to: char) -> Seq<char> {
    Seq::new(s.len(), |i: int| if s[i] == from { to } else { s[i] })
}

pub fn replace_char(s: &str, from: char, to: char) -> (r: String)
    ensures
        r@ == with_char(s@, from, to),
{
    let mut r = String::new();
    for c in it: s.chars()
        invariant
            it.seq() == s@,
            r@ == with_char(s@, from, to).take(it.index() as int),
    {
        if c == from {
            r.push(to);
        } else {
            r.push(c);
        }
    }
    r
}

/// Whether two strings are equal when the case of ASCII letters is ignored.
pub fn same_ignoring_case(a: &str, b: &str) -> (r: bool)
    ensures
        r == (lower(a@) == lower(b@)),
{
    to_lower(a) == to_lower(b)
}

pub open spec fn starts_with(s: Seq<char>, prefix: Seq<char>) -> bool {
    s.len() >= prefix.len() && s.take(prefix.len() as int) == prefix
}

pub open spec fn ends_with(s: Seq<char>, suffix: Seq<char>) -> bool {
    s.len() >= suffix.len() && s.skip(s.len() - suffix.len()) == suffix
}

/// The rest of `s` after `prefix`, where `s` starts with it.
pub fn strip_prefix(s: &str, prefix: &str) -> (r: Option<String>)
    ensures
        r is Some <==> starts_with(s@, prefix@),
        r matches Some(rest) ==> rest@ == s@.skip(prefix@.len() as int),
{
    let chars = chars_of(s);
    let start = chars_of(prefix);
    if chars.len() < start.len() {
        return None;
    }
    if same(&slice_of(&chars, 0, start.len()), prefix) {
        Some(slice_of(&chars, start.len(), chars.len()))
    } else {
        None
    }
}

/// The start of `s` before `suffix`, where `s` ends with it.
pub fn strip_suffix(s: &str, suffix: &str) -> (r: Option<String>)
    ensures
        r is Some <==> ends_with(s@, suffix@),
        r matches Some(rest) ==> rest@ == s@.take(s@.len() - suffix@.len()),
{
    let chars = chars_of(s);
    let tail = chars_of(suffix);
    if chars.len() < tail.len() {
        return None;
    }
    let at: usize = chars.len() - tail.len();
    if same(&slice_of(&chars, at, chars.len()), suffix) {
        Some(slice_of(&chars, 0, at))
    } else {
        None
    }
}

pub open spec fn occurs_at(s: Seq<char>, part: Seq<char>, i: int) -> bool {
    0 <= i && i + part.len() <= s.len() && s.subrange(i, i + part.len()) == part
}

/// Whether `part` stands somewhere in `s`.
pub open spec fn occurs(s: Seq<char>, part: Seq<char>) -> bool {
    exists|i: int| occurs_at(s, part, i)
}

pub fn contains(s: &str, part: &str) -> (r: bool)
    ensures
        r == occurs(s@, part@),
{
    let chars = chars_of(s);
    let wanted = chars_of(part);
    let mut i: usize = 0;
    while i <= chars.len() && wanted.len() <= chars.len() - i
        invariant
            i <= chars.len() + 1,
            chars@ == s@,
            wanted@ == part@,
            forall|j: int| 0 <= j < i ==> !#[trigger] occurs_at(s@, part@, j),
        decreases chars.len() + 1 - i,
    {
        if same(&slice_of(&chars, i, i + wanted.len()), part) {
            assert(occurs_at(s@, part@, i as int));
            return true;
        }
        if i == chars.len() {
            assert forall|j: int| !#[trigger] occurs_at(s@, part@, j) by {}
            return false;
        }
        i += 1;
    }
    assert forall|j: int| !#[trigger] occurs_at(s@, part@, j) by {}
    false
}

/// The decimal digits of a number, without leading zeros.
pub open spec fn digits(n: nat) -> Seq<char>
    decreases n,
{
    if n < 10 {
        seq![digit_char(n)]
    } else {
        digits(n / 10).push(digit_char(n % 10))
    }
}

pub open spec fn digit_char(d: nat) -> char {
    ((48 + d) as u8) as char
}

/// A number in decimal, with a minus sign where it is negative.
pub open spec fn decimal(n: int) -> Seq<char> {
    if n < 0 {
        seq!['-'] + digits((-n) as nat)
    } else {
        digits(n as nat)
    }
}

fn digits_text(n: u128) -> (r: String)
    ensures
        r@ == digits(n as nat),
    decreases n,
{
    let mut r = if n < 10 {
        String::new()
    } else {
        digits_text(n / 10)
    };
    r.push((48u8 + (n % 10) as u8) as char);
    r
}

pub fn decimal_text(n: i128) -> (r: String)
    ensures
        r@ == decimal(n as int),
{
    if n < 0 {
        let magnitude: u128 = if n == i128::MIN {
            170141183460469231731687303715884105728
        } else {
            (-n) as u128
        };
        proof {
            reveal_strlit("-");
            assert("-"@ =~= seq!['-']);
        }
        concat("-", &digits_text(magnitude))
    } else {
        digits_text(n as u128)
    }
}

pub open spec fn is_digit(c: char) -> bool {
    '0' <= c <= '9'
}

/// The number that a sequence of decimal digits denotes.
pub open spec fn digits_value(s: Seq<char>) -> int
    decreases s.len(),
{
    if s.len() == 0 {
        0
    } else {
        digits_value(s.drop_last()) * 10 + (s.last() as int - 48)
    }
}

/// One or more characters, all of them digits.
pub open spec fn all_digits(s: Seq<char>) -> bool {
    s.len() > 0 && forall|i: int| 0 <= i < s.len() ==> is_digit(#[trigger] s[i])
}

/// What a signed decimal number denotes: an optional sign, then one or more digits.
pub open spec fn decimal_value(s: Seq<char>) -> Option<int> {
    let body = if s.len() > 0 && (s[0] == '-' || s[0] == '+') {
        s.drop_first()
    } else {
        s
    };
    if !all_digits(body) {
        None
    } else if s[0] == '-' {
        Some(-digits_value(body))
    } else {
        Some(digits_value(body))
    }
}

pub proof fn digits_value_grows(s: Seq<char>, i: int)
    requires
        0 <= i <= s.len(),
        forall|k: int| 0 <= k < s.len() ==> is_digit(#[trigger] s[k]),
    ensures
        0 <= digits_value(s.take(i)) <= digits_value(s),
    decreases s.len(),
{
    if i == s.len() {
        assert(s.take(i) =~= s);
        if s.len() > 0 {
            digits_value_grows(s.drop_last(), i - 1);
            assert(s.drop_last().take(i - 1) =~= s.drop_last());
        }
    } else {
        digits_value_grows(s.drop_last(), i);
        assert(s.drop_last().take(i) =~= s.take(i));
    }
}

/// The value of the digits from `start` on, where there are any, all are digits, and their value
/// is at most `max`.
fn digits_from(chars: &Vec<char>, start: usize, max: u64) -> (r: Option<u64>)
    requires
        start <= chars.len(),
    ensures
        ({
            let body = chars@.skip(start as int);
            r == if all_digits(body) && digits_value(body) <= max {
                Some(digits_value(body) as u64)
            } else {
                None
            }
        }),
{
    if start == chars.len() {
        return None;
    }
    let ghost body = chars@.skip(start as int);
    let mut k: usize = start;
    while k < chars.len()
        invariant
            start <= k <= chars.len(),
            body == chars@.skip(start as int),
            forall|i: int| 0 <= i < k - start ==> is_digit(#[trigger] body[i]),
        decreases chars.len() - k,
    {
        if !('0' <= chars[k] && chars[k] <= '9') {
            assert(!is_digit(body[k as int - start]));
            return None;
        }
        k += 1;
    }
    let mut value: u128 = 0;
    let mut i: usize = start;
    while i < chars.len()
        invariant
            start <= i <= chars.len(),
            body == chars@.skip(start as int),
            forall|j: int| 0 <= j < body.len() ==> is_digit(#[trigger] body[j]),
            value <= max,
            value == digits_value(body.take(i as int - start)),
        decreases chars.len() - i,
    {
        proof {
            assert(is_digit(body[i as int - start]));
            assert(body.take(i as int - start + 1).drop_last() =~= body.take(i as int - start));
            digits_value_grows(body, i as int - start + 1);
        }
        let digit: u128 = (chars[i] as u32 - 48) as u128;
        value = value * 10 + digit;
        if value > max as u128 {
            return None;
        }
        i += 1;
    }
    assert(body.take(body.len() as int) =~= body);
    Some(value as u64)
}

/// The number that a text denotes as a signed decimal, where it lies in the range of `i64`.
pub fn parse_i64(s: &str) -> (r: Option<i64>)
    ensures
        r == match decimal_value(s@) {
            Some(n) => if i64::MIN <= n <= i64::MAX { Some(n as i64) } else { None },
            None => None,
        },
{
    let chars = chars_of(s);
    let negative = chars.len() > 0 && chars[0] == '-';
    let signed = negative || (chars.len() > 0 && chars[0] == '+');
    proof {
        assert(chars@.skip(0) =~= s@);
        if signed {
            assert(chars@.skip(1) =~= s@.drop_first());
            digits_value_is_natural(s@.drop_first());
        } else {
            digits_value_is_natural(s@);
        }
    }
    let start: usize = if signed { 1 } else { 0 };
    let limit: u64 = if negative { 9223372036854775808 } else { 9223372036854775807 };
    match digits_from(&chars, start, limit) {
        Some(value) => if negative {
            Some((-(value as i128)) as i64)
        } else {
            Some(value as i64)
        },
        None => None,
    }
}

proof fn digits_value_is_natural(s: Seq<char>)
    ensures
        all_digits(s) ==> digits_value(s) >= 0,
{
    if all_digits(s) {
        digits_value_grows(s, s.len() as int);
        assert(s.take(s.len() as int) =~= s);
    }
}

/// The number that a text denotes as an unsigned decimal, where it is at most `max`.
pub fn parse_unsigned(s: &str, max: u64) -> (r: Option<u64>)
    ensures
        r == match decimal_value(s@) {
            Some(n) => if s@[0] != '-' && n <= max { Some(n as u64) } else { None },
            None => None,
        },
        r matches Some(v) ==> decimal_value(s@) == Some(v as int),
{
    let chars = chars_of(s);
    if chars.len() > 0 && chars[0] == '-' {
        return None;
    }
    let signed = chars.len() > 0 && chars[0] == '+';
    proof {
        assert(chars@.skip(0) =~= s@);
        if signed {
            assert(chars@.skip(1) =~= s@.drop_first());
            digits_value_is_natural(s@.drop_first());
        } else {
            digits_value_is_natural(s@);
        }
    }
    let start: usize = if signed { 1 } else { 0 };
    digits_from(&chars, start, max)
}

/// The number of characters of a text, as `text.chars().count()` gives it.
pub fn char_count(s: &str) -> (r: usize)
    ensures
        r == s@.len(),
{
    chars_of(s).len()
}

/// The first `limit` characters of a text.
pub fn take_chars(s: &str, limit: usize) -> (r: String)
    ensures
        r@ == s@.take(if s@.len() < limit { s@.len() as int } else { limit as int }),
{
    let chars = chars_of(s);
    let end: usize = if chars.len() < limit { chars.len() } else { limit };
    slice_of(&chars, 0, end)
}

/// Whether `a` comes before `b` in the order of their characters, a prefix before what it starts.
pub open spec fn before(a: Seq<char>, b: Seq<char>) -> bool
    decreases a.len(),
{
    if b.len() == 0 {
        false
    } else if a.len() == 0 {
        true
    } else if a[0] == b[0] {
        before(a.drop_first(), b.drop_first())
    } else {
        a[0] < b[0]
    }
}

pub proof fn before_is_strict(a: Seq<char>, b: Seq<char>)
    ensures
        !(before(a, b) && before(b, a)),
        !before(a, a),
        before(a, b) || before(b, a) || a == b,
    decreases a.len(),
{
    if a.len() > 0 {
        before_is_strict(a.drop_first(), a.drop_first());
    }
    if a.len() > 0 && b.len() > 0 {
        before_is_strict(a.drop_first(), b.drop_first());
        if a[0] == b[0] && a.drop_first() == b.drop_first() {
            assert(a =~= seq![a[0]] + a.drop_first());
            assert(b =~= seq![b[0]] + b.drop_first());
        }
    } else if a.len() == 0 && b.len() == 0 {
        assert(a =~= b);
    }
}

pub proof fn before_is_transitive(a: Seq<char>, b: Seq<char>, c: Seq<char>)
    requires
        before(a, b),
        before(b, c),
    ensures
        before(a, c),
    decreases a.len(),
{
    if a.len() > 0 && b.len() > 0 && c.len() > 0 && a[0] == b[0] && b[0] == c[0] {
        before_is_transitive(a.drop_first(), b.drop_first(), c.drop_first());
    }
}

/// Whether `a` comes before `b`.
pub fn comes_before(a: &str, b: &str) -> (r: bool)
    ensures
        r == before(a@, b@),
{
    let x = chars_of(a);
    let y = chars_of(b);
    let mut i: usize = 0;
    assert(a@.skip(0) =~= a@);
    assert(b@.skip(0) =~= b@);
    while i < x.len() && i < y.len() && x[i] == y[i]
        invariant
            i <= x.len(),
            i <= y.len(),
            x@ == a@,
            y@ == b@,
            before(a@, b@) == before(a@.skip(i as int), b@.skip(i as int)),
        decreases x.len() - i,
    {
        proof {
            assert(a@.skip(i as int).drop_first() =~= a@.skip(i as int + 1));
            assert(b@.skip(i as int).drop_first() =~= b@.skip(i as int + 1));
        }
        i += 1;
    }
    if i == y.len() {
        false
    } else if i == x.len() {
        true
    } else {
        x[i] < y[i]
    }
}

/// Texts in ascending order, none twice.
pub open spec fn ascending(list: Seq<Seq<char>>) -> bool {
    forall|i: int, j: int| 0 <= i < j < list.len() ==> before(#[trigger] list[i], #[trigger] list[j])
}

pub open spec fn views(list: Seq<String>) -> Seq<Seq<char>> {
    Seq::new(list.len(), |i: int| list[i]@)
}

/// Adds a text to an ascending list, in its place, unless it is there already.
pub fn insert_sorted(list: &mut Vec<String>, item: &str)
    requires
        ascending(views(old(list)@)),
    ensures
        ascending(views(final(list)@)),
        views(final(list)@).to_set() == views(old(list)@).to_set().insert(item@),
{
    let ghost old_views = views(list@);
    let mut i: usize = 0;
    while i < list.len() && comes_before(&list[i], item)
        invariant
            i <= list.len(),
            list == old(list),
            old_views == views(list@),
            forall|j: int| 0 <= j < i ==> before(#[trigger] old_views[j], item@),
        decreases list.len() - i,
    {
        assert(before(old_views[i as int], item@));
        i += 1;
    }
    if i < list.len() && same(&list[i], item) {
        proof {
            assert(old_views[i as int] == item@);
            assert(old_views.to_set().insert(item@) =~= old_views.to_set());
        }
        return;
    }
    list.insert(i, item.to_owned());
    proof {
        let now = views(list@);
        assert(now =~= old_views.insert(i as int, item@));
        if i < old_views.len() {
            before_is_strict(old_views[i as int], item@);
        }
        assert forall|a: int, b: int| 0 <= a < b < now.len() implies before(
            #[trigger] now[a],
            #[trigger] now[b],
        ) by {
            if a == i {
                let b0 = b - 1;
                if b0 > i {
                    assert(before(old_views[i as int], old_views[b0]));
                    before_is_transitive(item@, old_views[i as int], old_views[b0]);
                }
            } else if b == i {
                assert(before(old_views[a], item@));
            } else {
                let a0 = if a < i { a } else { a - 1 };
                let b0 = if b < i { b } else { b - 1 };
                assert(before(old_views[a0], old_views[b0]));
            }
        }
        assert forall|x: Seq<char>| now.to_set().contains(x) == old_views.to_set().insert(
            item@,
        ).contains(x) by {
            if now.to_set().contains(x) {
                let k = choose|k: int| 0 <= k < now.len() && now[k] == x;
                if k < i {
                    assert(old_views[k] == x);
                } else if k > i {
                    assert(old_views[k - 1] == x);
                }
            }
            if old_views.to_set().contains(x) {
                let k = choose|k: int| 0 <= k < old_views.len() && old_views[k] == x;
                assert(now[if k < i { k } else { k + 1 }] == x);
            }
            if x == item@ {
                assert(now[i as int] == x);
            }
        }
        assert(now.to_set() =~= old_views.to_set().insert(item@));
    }
}

proof fn trimmed_start_is_tail(s: Seq<char>) -> (i: int)
    ensures
        0 <= i <= s.len(),
        trimmed_start(s) == s.skip(i),
        forall|k: int| 0 <= k < i ==> is_white(#[trigger] s[k]),
    decreases s.len(),
{
    if s.len() > 0 && is_white(s[0]) {
        let j = trimmed_start_is_tail(s.drop_first());
        assert(s.drop_first().skip(j) =~= s.skip(j + 1));
        assert forall|k: int| 0 <= k < j + 1 implies is_white(#[trigger] s[k]) by {
            if k > 0 {
                assert(s.drop_first()[k - 1] == s[k]);
            }
        }
        j + 1
    } else {
        assert(s.skip(0) =~= s);
        0
    }
}

proof fn trimmed_end_is_head(s: Seq<char>) -> (j: int)
    ensures
        0 <= j <= s.len(),
        trimmed_end(s) == s.take(j),
        forall|k: int| j <= k < s.len() ==> is_white(#[trigger] s[k]),
    decreases s.len(),
{
    if s.len() > 0 && is_white(s.last()) {
        let j = trimmed_end_is_head(s.drop_last());
        assert(s.drop_last().take(j) =~= s.take(j));
        assert forall|k: int| j <= k < s.len() implies is_white(#[trigger] s[k]) by {
            if k < s.len() - 1 {
                assert(s.drop_last()[k] == s[k]);
            }
        }
        j
    } else {
        assert(s.take(s.len() as int) =~= s);
        s.len() as int
    }
}

/// Trimming takes white space off both ends, all of it and nothing else.
pub proof fn trimming_takes_white_space_off(s: Seq<char>) -> (r: (int, int))
    ensures
        0 <= r.0 <= r.1 <= s.len(),
        trimmed(s) == s.subrange(r.0, r.1),
        forall|k: int| 0 <= k < s.len() && !(r.0 <= k < r.1) ==> is_white(#[trigger] s[k]),
        r.0 < r.1 ==> !is_white(s[r.0]) && !is_white(s[r.1 - 1]),
{
    let i = trimmed_start_is_tail(s);
    let j = trimmed_end_is_head(s.skip(i));
    assert(s.skip(i).take(j) =~= s.subrange(i, i + j));
    assert forall|k: int| 0 <= k < s.len() && !(i <= k < i + j) implies is_white(
        #[trigger] s[k],
    ) by {
        if k >= i + j {
            assert(s.skip(i)[k - i] == s[k]);
        }
    }
    trimmed_is_stable(s);
    if j > 0 {
        assert(trimmed(s)[0] == s[i]);
        assert(trimmed(s).last() == s[i + j - 1]);
    }
    (i, i + j)
}

proof fn digits_read_back(n: nat)
    ensures
        all_digits(digits(n)),
        digits_value(digits(n)) == n,
    decreases n,
{
    let s = digits(n);
    if n < 10 {
        assert(s.drop_last() =~= Seq::empty());
        assert(digits_value(s.drop_last()) == 0);
    } else {
        digits_read_back(n / 10);
        let head = digits(n / 10);
        assert(s.drop_last() =~= head);
        assert forall|i: int| 0 <= i < s.len() implies is_digit(#[trigger] s[i]) by {
            if i < head.len() {
                assert(is_digit(head[i]));
            }
        }
    }
}

/// A number that is written in decimal reads as itself.
pub proof fn decimals_read_back(n: int)
    ensures
        decimal_value(decimal(n)) == Some(n),
{
    if n < 0 {
        digits_read_back((-n) as nat);
        assert(decimal(n).drop_first() =~= digits((-n) as nat));
    } else {
        digits_read_back(n as nat);
        assert(is_digit(digits(n as nat)[0]));
    }
}

/// Changing case changes ASCII letters only, and there and back again is back.
pub proof fn case_is_changed_of_letters_only(s: Seq<char>, i: int)
    requires
        0 <= i < s.len(),
    ensures
        lower(s).len() == s.len(),
        upper(s).len() == s.len(),
        'A' <= s[i] <= 'Z' ==> lower(s)[i] as int == s[i] as int + 32 && upper(s)[i] == s[i],
        'a' <= s[i] <= 'z' ==> upper(s)[i] as int == s[i] as int - 32 && lower(s)[i] == s[i],
        !('A' <= s[i] <= 'Z') && !('a' <= s[i] <= 'z') ==> lower(s)[i] == s[i] && upper(s)[i]
            == s[i],
{
}

/// A text starts with another where it is that one with something behind it, ends with it where it is
/// that one with something before it, and holds it where it is that one with something on both sides.
pub proof fn parts_of_texts(before_it: Seq<char>, part: Seq<char>, behind: Seq<char>)
    ensures
        starts_with(part + behind, part),
        ends_with(before_it + part, part),
        occurs(before_it + part + behind, part),
{
    assert((part + behind).take(part.len() as int) =~= part);
    let s = before_it + part;
    assert(s.skip(s.len() - part.len()) =~= part);
    let all = before_it + part + behind;
    let i = before_it.len() as int;
    assert(all.subrange(i, i + part.len()) =~= part);
    assert(occurs_at(all, part, i));
}

/// A text that another starts with, ends with or holds is no longer than it, and character for
/// character the same there.
pub proof fn parts_are_the_same(s: Seq<char>, part: Seq<char>, k: int)
    requires
        0 <= k < part.len(),
    ensures
        starts_with(s, part) ==> part.len() <= s.len() && s[k] == part[k],
        ends_with(s, part) ==> part.len() <= s.len() && s[s.len() - part.len() + k] == part[k],
        occurs(s, part) ==> part.len() <= s.len(),
        starts_with(s, part) ==> occurs(s, part),
{
    if starts_with(s, part) {
        assert(s.take(part.len() as int)[k] == part[k]);
        assert(s.subrange(0, part.len() as int) =~= part);
        assert(occurs_at(s, part, 0));
    }
    if ends_with(s, part) {
        assert(s.skip(s.len() - part.len())[k] == part[k]);
    }
}

/// One character takes the place of another, and the rest stays.
pub proof fn characters_are_replaced(s: Seq<char>, from: char, to: char, i: int)
    requires
        0 <= i < s.len(),
    ensures
        with_char(s, from, to).len() == s.len(),
        s[i] == from ==> with_char(s, from, to)[i] == to,
        s[i] != from ==> with_char(s, from, to)[i] == s[i],
{
}

/// Only a text of digits, with or without a sign, writes a number.
pub proof fn numbers_are_written_in_digits(s: Seq<char>, i: int)
    ensures
        s.len() == 0 ==> decimal_value(s) is None,
        1 <= i < s.len() && !('0' <= s[i] <= '9') ==> decimal_value(s) is None,
        s.len() > 0 && s[0] != '-' && s[0] != '+' && !('0' <= s[0] <= '9') ==> decimal_value(
            s,
        ) is None,
{
    if 1 <= i < s.len() && !('0' <= s[i] <= '9') {
        let rest = s.drop_first();
        assert(rest[i - 1] == s[i]);
        assert(!is_digit(rest[i - 1]));
        assert(!is_digit(s[i]));
    }
    if s.len() > 0 && s[0] != '-' && s[0] != '+' && !('0' <= s[0] <= '9') {
        assert(!is_digit(s[0]));
    }
}

/// Texts are ordered by their first characters that differ, and a text comes before those that go on
/// from it.
pub proof fn texts_are_ordered_by_characters(a: Seq<char>, b: Seq<char>, rest: Seq<char>)
    ensures
        a.len() > 0 && b.len() > 0 && a[0] != b[0] ==> (before(a, b) <==> a[0] < b[0]),
        a.len() > 0 && b.len() > 0 && a[0] == b[0] ==> (before(a, b) <==> before(
            a.drop_first(),
            b.drop_first(),
        )),
        rest.len() > 0 ==> before(a, a + rest),
    decreases a.len(),
{
    if rest.len() > 0 && a.len() > 0 {
        texts_are_ordered_by_characters(a.drop_first(), b, rest);
        assert((a + rest).drop_first() =~= a.drop_first() + rest);
    }
}

} // verus!
