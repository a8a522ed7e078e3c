//! Base64 and UTF-8.
use vstd::prelude::*;
use vstd::utf8::{encode_utf8, encode_utf8_decode_utf8, valid_utf8};
use base64::Engine;

verus! {

/// The text of bytes, as `base64::engine::general_purpose::STANDARD_NO_PAD` encodes them.
pub uninterp spec fn base64_text(bytes: Seq<u8>) -> Seq<char>;

/// The bytes of a text, as `base64::engine::general_purpose::STANDARD_NO_PAD` decodes it.
pub uninterp spec fn base64_bytes(text: Seq<char>) -> Option<Seq<u8>>;

/// The bytes of a text, as `base64::engine::general_purpose::STANDARD` decodes it.
pub uninterp spec fn padded_base64_bytes(text: Seq<char>) -> Option<Seq<u8>>;

/// The bytes of a text, as `base64::engine::general_purpose::URL_SAFE_NO_PAD` decodes it.
pub uninterp spec fn url_base64_bytes(text: Seq<char>) -> Option<Seq<u8>>;

/// The bytes of a text, as `base64::engine::general_purpose::URL_SAFE` decodes it.
pub uninterp spec fn padded_url_base64_bytes(text: Seq<char>) -> Option<Seq<u8>>;

/// A character of the standard base64 alphabet.
pub open spec fn is_base64_char(c: char) -> bool {
    'A' <= c <= 'Z' || 'a' <= c <= 'z' || '0' <= c <= '9' || c == '+' || c == '/'
}

pub open spec fn bytes_view(bytes: Option<Vec<u8>>) -> Option<Seq<u8>> {
    match bytes {
        Some(b) => Some(b@),
        None => None,
    }
}

/// Encodes with `base64::engine::general_purpose::STANDARD_NO_PAD`: characters of the standard
/// alphabet only, which the same engine decodes to the bytes that were given.
#[verifier::external_body]
pub(crate) fn encode_base64(bytes: &[u8]) -> (r: String)
    ensures
        r@ == base64_text(bytes@),
        base64_bytes(r@) == Some(bytes@),
        forall|i: int| 0 <= i < r@.len() ==> is_base64_char(#[trigger] r@[i]),
{
    base64::engine::general_purpose::STANDARD_NO_PAD.encode(bytes)
}

/// Decodes with `base64::engine::general_purpose::STANDARD_NO_PAD`; which texts it takes is named,
/// not spelled out.
#[verifier::external_body]
pub(crate) fn decode_base64(text: &str) -> (r: Option<Vec<u8>>)
    ensures
        bytes_view(r) == base64_bytes(text@),
{
    base64::engine::general_purpose::STANDARD_NO_PAD.decode(text).ok()
}

/// Decodes with `base64::engine::general_purpose::STANDARD`; which texts it takes is named, not
/// spelled out.
#[verifier::external_body]
pub(crate) fn decode_padded_base64(text: &str) -> (r: Option<Vec<u8>>)
    ensures
        bytes_view(r) == padded_base64_bytes(text@),
{
    base64::engine::general_purpose::STANDARD.decode(text).ok()
}

/// Decodes with `base64::engine::general_purpose::URL_SAFE_NO_PAD`; which texts it takes is named,
/// not spelled out.
#[verifier::external_body]
pub(crate) fn decode_url_base64(text: &str) -> (r: Option<Vec<u8>>)
    ensures
        bytes_view(r) == url_base64_bytes(text@),
{
    base64::engine::general_purpose::URL_SAFE_NO_PAD.decode(text).ok()
}

/// Decodes with `base64::engine::general_purpose::URL_SAFE`; which texts it takes is named, not
/// spelled out.
#[verifier::external_body]
pub(crate) fn decode_padded_url_base64(text: &str) -> (r: Option<Vec<u8>>)
    ensures
        bytes_view(r) == padded_url_base64_bytes(text@),
{
    base64::engine::general_purpose::URL_SAFE.decode(text).ok()
}

/// The text of bytes that are UTF-8.
pub open spec fn utf8_text(bytes: Seq<u8>) -> Option<Seq<char>> {
    if valid_utf8(bytes) {
        Some(vstd::utf8::decode_utf8(bytes))
    } else {
        None
    }
}

/// Calls `String::from_utf8`: the text of the bytes, where they are UTF-8.
#[verifier::external_body]
pub(crate) fn text_of_utf8(bytes: Vec<u8>) -> (r: Option<String>)
    ensures
        match r {
            Some(text) => utf8_text(bytes@) == Some(text@),
            None => utf8_text(bytes@) is None,
        },
{
    String::from_utf8(bytes).ok()
}

/// The bytes of a text read as a text give that text.
pub proof fn utf8_round_trip(text: Seq<char>)
    ensures
        utf8_text(encode_utf8(text)) == Some(text),
{
    vstd::utf8::encode_utf8_valid_utf8(text);
    encode_utf8_decode_utf8(text);
}

/// The text of bytes with what is no UTF-8 replaced, as `String::from_utf8_lossy` gives it.
pub uninterp spec fn lossy_text(bytes: Seq<u8>) -> Seq<char>;

/// Calls `String::from_utf8_lossy`: bytes that are UTF-8 keep their text. What stands in place of
/// others is named, not spelled out.
#[verifier::external_body]
pub(crate) fn text_of_lossy_utf8(bytes: &[u8]) -> (r: String)
    ensures
        r@ == lossy_text(bytes@),
        valid_utf8(bytes@) ==> r@ == vstd::utf8::decode_utf8(bytes@),
{
    String::from_utf8_lossy(bytes).into_owned()
}

} // verus!
