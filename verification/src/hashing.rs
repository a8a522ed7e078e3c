//! Session aliases as hashes: what a session is called is never stored.
use vstd::prelude::*;
use vstd::utf8::encode_utf8;
use sha2::Digest;
use crate::keys::{RouteKeyView, SessionRouteKey, is_affinity_hash, is_lower_hex};

verus! {

/// The SHA-256 digest of bytes, as `sha2::Sha256` computes it.
pub uninterp spec fn sha256(bytes: Seq<u8>) -> Seq<u8>;

/// Calls `digest` of `sha2::Sha256`: 32 bytes that depend on the given ones alone.
#[verifier::external_body]
fn digest(bytes: &[u8]) -> (r: Vec<u8>)
    ensures
        r@ == sha256(bytes@),
        r@.len() == 32,
{
    sha2::Sha256::digest(bytes).to_vec()
}

pub open spec fn hex_digit(n: int) -> char {
    if n < 10 {
        ((48 + n) as u8) as char
    } else {
        ((87 + n) as u8) as char
    }
}

/// Bytes in hexadecimal, two lower-case digits each.
pub open spec fn hex(bytes: Seq<u8>) -> Seq<char> {
    Seq::new(
        bytes.len() * 2,
        |i: int|
            if i % 2 == 0 {
                hex_digit(bytes[i / 2] as int / 16)
            } else {
                hex_digit(bytes[i / 2] as int % 16)
            },
    )
}

fn hex_char(n: u8) -> (r: char)
    requires
        n < 16,
    ensures
        r == hex_digit(n as int),
        is_lower_hex(r),
{
    if n < 10 {
        (48 + n) as char
    } else {
        (87 + n) as char
    }
}

fn hex_text(bytes: &Vec<u8>) -> (r: String)
    ensures
        r@ == hex(bytes@),
        forall|i: int| 0 <= i < r@.len() ==> is_lower_hex(#[trigger] r@[i]),
{
    let mut r = String::new();
    let mut i: usize = 0;
    while i < bytes.len()
        invariant
            i <= bytes.len(),
            r@.len() == i * 2,
            r@ == hex(bytes@).take(i * 2),
            forall|k: int| 0 <= k < r@.len() ==> is_lower_hex(#[trigger] r@[k]),
        decreases bytes.len() - i,
    {
        let ghost before = r@;
        let high = hex_char(bytes[i] / 16);
        let low = hex_char(bytes[i] % 16);
        r.push(high);
        r.push(low);
        proof {
            assert(hex(bytes@)[i * 2] == high);
            assert(hex(bytes@)[i * 2 + 1] == low);
            assert(r@ =~= hex(bytes@).take(i * 2 + 2));
        }
        i += 1;
    }
    assert(hex(bytes@).take((bytes@.len() * 2) as int) =~= hex(bytes@));
    r
}

/// What is hashed: the kind, a zero byte, and the value.
pub open spec fn hashed_bytes(kind: Seq<char>, value: Seq<char>) -> Seq<u8> {
    encode_utf8(kind) + seq![0u8] + encode_utf8(value)
}

/// The hash of an alias.
pub open spec fn key_hash(kind: Seq<char>, value: Seq<char>) -> Seq<char> {
    hex(sha256(hashed_bytes(kind, value)))
}

fn push_all(out: &mut Vec<u8>, bytes: &[u8])
    ensures
        final(out)@ == old(out)@ + bytes@,
{
    let ghost before = out@;
    let mut i: usize = 0;
    assert(before + bytes@.take(0) =~= before);
    while i < bytes.len()
        invariant
            i <= bytes.len(),
            out@ == before + bytes@.take(i as int),
        decreases bytes.len() - i,
    {
        out.push(bytes[i]);
        assert(before + bytes@.take(i as int + 1) =~= (before + bytes@.take(i as int)).push(
            bytes@[i as int],
        ));
        i += 1;
    }
    assert(bytes@.take(bytes@.len() as int) =~= bytes@);
}

/// The hash of an alias: always one that routes accept.
pub fn affinity_hash(kind: &str, value: &str) -> (r: String)
    ensures
        r@ == key_hash(kind@, value@),
        is_affinity_hash(r@),
{
    let mut bytes: Vec<u8> = Vec::new();
    push_all(&mut bytes, kind.as_bytes());
    bytes.push(0);
    push_all(&mut bytes, value.as_bytes());
    assert(bytes@ =~= hashed_bytes(kind@, value@));
    let sum = digest(&bytes);
    hex_text(&sum)
}

/// An alias as a route key.
pub open spec fn route_key(kind: Seq<char>, value: Seq<char>) -> RouteKeyView {
    RouteKeyView { hash: key_hash(kind, value), kind }
}

pub fn session_route_key(kind: &str, value: &str) -> (r: SessionRouteKey)
    ensures
        r@ == route_key(kind@, value@),
        is_affinity_hash(r@.hash),
{
    SessionRouteKey { key_hash: affinity_hash(kind, value), kind: kind.to_owned() }
}

/// The hash of a key is that of its kind and its value with a zero between them, so that the two cannot
/// run into each other, written in small hexadecimal digits.
pub proof fn hashes_are_of_kind_and_value(kind: Seq<char>, value: Seq<char>)
    ensures
        hashed_bytes(kind, value).len() == encode_utf8(kind).len() + 1 + encode_utf8(value).len(),
        hashed_bytes(kind, value)[encode_utf8(kind).len() as int] == 0,
        hashed_bytes(kind, value).take(encode_utf8(kind).len() as int) == encode_utf8(kind),
        hashed_bytes(kind, value).skip(encode_utf8(kind).len() as int + 1) == encode_utf8(value),
        key_hash(kind, value) == hex(sha256(hashed_bytes(kind, value))),
        route_key(kind, value).hash == key_hash(kind, value),
        route_key(kind, value).kind == kind,
{
    let b = hashed_bytes(kind, value);
    assert(b.take(encode_utf8(kind).len() as int) =~= encode_utf8(kind));
    assert(b.skip(encode_utf8(kind).len() as int + 1) =~= encode_utf8(value));
}

/// Two hexadecimal digits stand for each byte, the higher one first, and different bytes are written
/// differently.
pub proof fn bytes_are_written_in_hexadecimal(bytes: Seq<u8>, other: Seq<u8>, i: int)
    requires
        0 <= i < bytes.len(),
    ensures
        hex(bytes).len() == 2 * bytes.len(),
        hex(bytes)[2 * i] == hex_digit(bytes[i] as int / 16),
        hex(bytes)[2 * i + 1] == hex_digit(bytes[i] as int % 16),
        0 <= bytes[i] < 10 ==> hex_digit(bytes[i] as int) as int == '0' as int + bytes[i],
        10 <= bytes[i] < 16 ==> hex_digit(bytes[i] as int) as int == 'a' as int + bytes[i] - 10,
        hex(bytes) == hex(other) && i < other.len() ==> bytes[i] == other[i],
{
    assert((2 * i) / 2 == i && (2 * i) % 2 == 0 && (2 * i + 1) / 2 == i && (2 * i + 1) % 2 == 1);
    if hex(bytes) == hex(other) && i < other.len() {
        assert(hex(other)[2 * i] == hex_digit(other[i] as int / 16));
        assert(hex(other)[2 * i + 1] == hex_digit(other[i] as int % 16));
        hex_digits_differ(bytes[i] as int / 16, other[i] as int / 16);
        hex_digits_differ(bytes[i] as int % 16, other[i] as int % 16);
    }
}

proof fn hex_digits_differ(a: int, b: int)
    requires
        0 <= a < 16,
        0 <= b < 16,
        hex_digit(a) == hex_digit(b),
    ensures
        a == b,
{
}

} // verus!
