//! Account and session identifiers: a UUID as its 128-bit value.
use vstd::prelude::*;
use crate::hashing::hex_digit;

verus! {

/// The identifier that a text denotes, as `uuid::Uuid::parse_str` reads it.
pub uninterp spec fn uuid_of_text(text: Seq<char>) -> Option<u128>;

/// The last digits of a number in hexadecimal, in lower case.
pub open spec fn hex_digits(n: nat, count: nat) -> Seq<char>
    decreases count,
{
    if count == 0 {
        Seq::empty()
    } else {
        hex_digits(n / 16, (count - 1) as nat).push(hex_digit((n % 16) as int))
    }
}

/// The text of an identifier: its 32 hexadecimal digits, with hyphens between the groups.
pub open spec fn text_of_uuid(id: u128) -> Seq<char> {
    let digits = hex_digits(id as nat, 32);
    digits.subrange(0, 8) + "-"@ + digits.subrange(8, 12) + "-"@ + digits.subrange(12, 16) + "-"@
        + digits.subrange(16, 20) + "-"@ + digits.subrange(20, 32)
}

/// Whether a text is the one that an identifier is written as, and is read back from.
pub open spec fn is_uuid_text(text: Seq<char>) -> bool {
    uuid_of_text(text) matches Some(id) && text == text_of_uuid(id)
}

/// Whether a text is that of a random identifier, which says so in two of its digits.
pub open spec fn is_fresh_id(text: Seq<char>) -> bool {
    &&& is_uuid_text(text)
    &&& text.len() == 36
    &&& text[14] == '4'
    &&& text[19] == '8' || text[19] == '9' || text[19] == 'a' || text[19] == 'b'
}

/// Calls `uuid::Uuid::parse_str`, and gives the value of the identifier, `None` where the text is
/// refused. Which texts it takes (hyphenated, simple, braced, URN) is named, not spelled out.
#[verifier::external_body]
pub(crate) fn parse_uuid(text: &str) -> (r: Option<u128>)
    ensures
        r == uuid_of_text(text@),
{
    uuid::Uuid::parse_str(text).ok().map(|id| id.as_u128())
}

/// Writes an identifier with the `Display` of `uuid::Uuid`: hyphenated, in lower case. What it writes
/// `uuid::Uuid::parse_str` reads back as the same identifier.
#[verifier::external_body]
pub(crate) fn uuid_text(id: u128) -> (r: String)
    ensures
        r@ == text_of_uuid(id),
        uuid_of_text(r@) == Some(id),
{
    uuid::Uuid::from_u128(id).to_string()
}

/// Writes a new identifier of `uuid::Uuid::new_v4` with its `Display`: one of version 4 and of the
/// variant of RFC 9562. Its other digits differ from call to call; that no two are alike is not claimed.
#[verifier::external_body]
pub(crate) fn fresh_uuid_text() -> (r: String)
    ensures
        is_fresh_id(r@),
{
    uuid::Uuid::new_v4().to_string()
}

proof fn hex_digits_are_many(n: nat, count: nat, i: int)
    ensures
        hex_digits(n, count).len() == count,
        0 <= i < count ==> ('0' <= hex_digits(n, count)[i] <= '9' || 'a' <= hex_digits(n, count)[i]
            <= 'f'),
    decreases count,
{
    if count > 0 {
        hex_digits_are_many(n / 16, (count - 1) as nat, i);
    }
}

/// An identifier is written in 36 characters: 32 small hexadecimal digits in groups of eight, four, four,
/// four and twelve, with dashes between them.
pub proof fn identifiers_are_written_in_groups(id: u128)
    ensures
        text_of_uuid(id).len() == 36,
        text_of_uuid(id)[8] == '-',
        text_of_uuid(id)[13] == '-',
        text_of_uuid(id)[18] == '-',
        text_of_uuid(id)[23] == '-',
        text_of_uuid(id).take(8) == hex_digits(id as nat, 32).take(8),
        text_of_uuid(id).skip(24) == hex_digits(id as nat, 32).skip(20),
{
    reveal_strlit("-");
    assert("-"@.len() == 1 && "-"@[0] == '-');
    hex_digits_are_many(id as nat, 32, 0);
    let t = text_of_uuid(id);
    let d = hex_digits(id as nat, 32);
    assert(t.take(8) =~= d.take(8));
    assert(t.skip(24) =~= d.skip(20));
}

} // verus!
