//! Tokens at rest: sealed with AES-256-GCM under one key, each with a nonce of its own.
use vstd::prelude::*;
use vstd::string::StringExecFns;
use vstd::utf8::encode_utf8;
use aes_gcm::aead::{Aead, KeyInit};
use rand::RngCore;
use crate::encoding::{
    base64_bytes, base64_text, decode_base64, decode_padded_base64, encode_base64,
    padded_base64_bytes, text_of_utf8, utf8_round_trip, utf8_text, is_base64_char,
};
use crate::text::{chars_of, same, slice_of, trim, trimmed};

verus! {

/// The longest text that can be sealed, in bytes.
pub const MAX_PLAINTEXT_BYTES: u64 = 68719476736;

#[derive(Debug, Clone, Copy, PartialEq, Eq, Structural)]
pub enum CryptoError {
    MissingNonce,
    MissingCiphertext,
    UnsupportedVersion,
    NonceEncoding,
    CiphertextEncoding,
    NonceLength,
    Encryption,
    Decryption,
    NotUtf8,
    KeyEncoding,
    KeyLength,
}

impl CryptoError {
    pub open spec fn text(self) -> Seq<char> {
        match self {
            CryptoError::MissingNonce => "encrypted token missing nonce"@,
            CryptoError::MissingCiphertext => "encrypted token missing ciphertext"@,
            CryptoError::UnsupportedVersion => "unsupported encrypted token version"@,
            CryptoError::NonceEncoding => "decoding nonce"@,
            CryptoError::CiphertextEncoding => "decoding ciphertext"@,
            CryptoError::NonceLength => "invalid nonce length"@,
            CryptoError::Encryption => "encryption failed"@,
            CryptoError::Decryption => "decryption failed"@,
            CryptoError::NotUtf8 => "decrypted token was not utf-8"@,
            CryptoError::KeyEncoding => "decoding encryption key"@,
            CryptoError::KeyLength => "encryption key must decode to exactly 32 bytes"@,
        }
    }

    pub fn message(self) -> (r: &'static str)
        ensures
            r@ == self.text(),
    {
        match self {
            CryptoError::MissingNonce => "encrypted token missing nonce",
            CryptoError::MissingCiphertext => "encrypted token missing ciphertext",
            CryptoError::UnsupportedVersion => "unsupported encrypted token version",
            CryptoError::NonceEncoding => "decoding nonce",
            CryptoError::CiphertextEncoding => "decoding ciphertext",
            CryptoError::NonceLength => "invalid nonce length",
            CryptoError::Encryption => "encryption failed",
            CryptoError::Decryption => "decryption failed",
            CryptoError::NotUtf8 => "decrypted token was not utf-8",
            CryptoError::KeyEncoding => "decoding encryption key",
            CryptoError::KeyLength => "encryption key must decode to exactly 32 bytes",
        }
    }
}

/// What `aes_gcm::Aes256Gcm` makes of a plaintext under a key and a nonce.
pub uninterp spec fn sealed(key: Seq<u8>, nonce: Seq<u8>, plaintext: Seq<u8>) -> Seq<u8>;

/// What `aes_gcm::Aes256Gcm` makes of a ciphertext under a key and a nonce; `None` where it refuses
/// it.
pub uninterp spec fn unsealed(key: Seq<u8>, nonce: Seq<u8>, ciphertext: Seq<u8>) -> Option<Seq<u8>>;

/// Calls `encrypt` of `aes_gcm::Aes256Gcm`, which fails on longer plaintexts only. What it gives,
/// `decrypt` under the same key and nonce takes back to the plaintext.
#[verifier::external_body]
fn seal(key: &[u8], nonce: &[u8], plaintext: &[u8]) -> (r: Vec<u8>)
    requires
        key@.len() == 32,
        nonce@.len() == 12,
        plaintext@.len() <= MAX_PLAINTEXT_BYTES,
    ensures
        r@ == sealed(key@, nonce@, plaintext@),
        unsealed(key@, nonce@, r@) == Some(plaintext@),
{
    let cipher = aes_gcm::Aes256Gcm::new_from_slice(key).expect("a key of 32 bytes");
    cipher.encrypt(aes_gcm::Nonce::from_slice(nonce), plaintext).expect("a plaintext that fits")
}

/// Calls `decrypt` of `aes_gcm::Aes256Gcm`; which ciphertexts it takes, and to what, is named, not
/// spelled out. That a ciphertext of another key is refused is not claimed: that is so but for a chance
/// of the cipher's tag.
#[verifier::external_body]
fn unseal(key: &[u8], nonce: &[u8], ciphertext: &[u8]) -> (r: Option<Vec<u8>>)
    requires
        key@.len() == 32,
        nonce@.len() == 12,
    ensures
        crate::encoding::bytes_view(r) == unsealed(key@, nonce@, ciphertext@),
{
    let cipher = aes_gcm::Aes256Gcm::new_from_slice(key).expect("a key of 32 bytes");
    cipher.decrypt(aes_gcm::Nonce::from_slice(nonce), ciphertext).ok()
}

/// Fills bytes with `fill_bytes` of `rand::rngs::OsRng`. Nothing is said of the bytes but their
/// number: they differ from call to call.
#[verifier::external_body]
fn random_bytes(count: usize) -> (r: Vec<u8>)
    ensures
        r@.len() == count,
{
    let mut bytes = vec![0u8; count];
    rand::rngs::OsRng.fill_bytes(&mut bytes);
    bytes
}

/// The key of an encoded key file: 32 bytes in base64, with or without padding.
pub open spec fn key_of_text(text: Seq<char>) -> Result<Seq<u8>, CryptoError> {
    let bytes = match base64_bytes(text) {
        Some(b) => Some(b),
        None => padded_base64_bytes(text),
    };
    match bytes {
        Some(b) => if b.len() == 32 {
            Ok(b)
        } else {
            Err(CryptoError::KeyLength)
        },
        None => Err(CryptoError::KeyEncoding),
    }
}

/// What stands before and after the first colon.
pub open spec fn split_colon(s: Seq<char>) -> Option<(Seq<char>, Seq<char>)>
    decreases s.len(),
{
    if s.len() == 0 {
        None
    } else if s[0] == ':' {
        Some((Seq::empty(), s.drop_first()))
    } else {
        match split_colon(s.drop_first()) {
            Some((head, tail)) => Some((seq![s[0]] + head, tail)),
            None => None,
        }
    }
}

proof fn split_colon_at(s: Seq<char>, i: int)
    requires
        0 <= i <= s.len(),
        forall|j: int| 0 <= j < i ==> s[j] != ':',
    ensures
        i < s.len() && s[i] == ':' ==> split_colon(s) == Some((s.take(i), s.skip(i + 1))),
        i == s.len() ==> split_colon(s) is None,
    decreases s.len(),
{
    if s.len() > 0 && i > 0 {
        let rest = s.drop_first();
        assert forall|j: int| 0 <= j < i - 1 implies rest[j] != ':' by {
            assert(rest[j] == s[j + 1]);
        }
        split_colon_at(rest, i - 1);
        if i < s.len() && s[i] == ':' {
            assert(seq![s[0]] + rest.take(i - 1) =~= s.take(i));
            assert(rest.skip(i) =~= s.skip(i + 1));
        }
    } else if s.len() > 0 && s[0] == ':' {
        assert(s.take(0) =~= Seq::empty());
        assert(s.drop_first() =~= s.skip(1));
    }
}

fn split_at_colon(s: &str) -> (r: Option<(String, String)>)
    ensures
        match r {
            Some((head, tail)) => split_colon(s@) == Some((head@, tail@)),
            None => split_colon(s@) is None,
        },
{
    let chars = chars_of(s);
    let mut i: usize = 0;
    while i < chars.len()
        invariant
            i <= chars.len(),
            chars@ == s@,
            forall|j: int| 0 <= j < i ==> s@[j] != ':',
        decreases chars.len() - i,
    {
        if chars[i] == ':' {
            proof {
                split_colon_at(s@, i as int);
                assert(chars@.subrange(0, i as int) =~= s@.take(i as int));
                assert(chars@.subrange(i as int + 1, chars@.len() as int) =~= s@.skip(
                    i as int + 1,
                ));
            }
            return Some((slice_of(&chars, 0, i), slice_of(&chars, i + 1, chars.len())));
        }
        i += 1;
    }
    proof {
        split_colon_at(s@, chars@.len() as int);
    }
    None
}

/// What a sealed token holds, or why it cannot be read.
pub open spec fn decrypted(key: Seq<u8>, encoded: Seq<char>) -> Result<Seq<char>, CryptoError> {
    match split_colon(encoded) {
        None => Err(CryptoError::MissingNonce),
        Some((version, rest)) => match split_colon(rest) {
            None => Err(CryptoError::MissingCiphertext),
            Some((nonce_text, cipher_text)) => {
                if version != "v1"@ {
                    Err(CryptoError::UnsupportedVersion)
                } else if base64_bytes(nonce_text) is None {
                    Err(CryptoError::NonceEncoding)
                } else if base64_bytes(cipher_text) is None {
                    Err(CryptoError::CiphertextEncoding)
                } else if base64_bytes(nonce_text)->0.len() != 12 {
                    Err(CryptoError::NonceLength)
                } else {
                    match unsealed(
                        key,
                        base64_bytes(nonce_text)->0,
                        base64_bytes(cipher_text)->0,
                    ) {
                        None => Err(CryptoError::Decryption),
                        Some(bytes) => match utf8_text(bytes) {
                            Some(text) => Ok(text),
                            None => Err(CryptoError::NotUtf8),
                        },
                    }
                }
            },
        },
    }
}

/// A text of another version is refused under every key.
pub proof fn other_versions_are_refused(key: Seq<u8>, encoded: Seq<char>)
    requires
        split_colon(encoded) matches Some((version, _)) ==> version != "v1"@,
    ensures
        decrypted(key, encoded) is Err,
{
}

/// A sealed token: its version, its nonce and its ciphertext.
pub open spec fn sealed_text(key: Seq<u8>, nonce: Seq<u8>, plaintext: Seq<char>) -> Seq<char> {
    "v1:"@ + base64_text(nonce) + ":"@ + base64_text(sealed(key, nonce, encode_utf8(plaintext)))
}

/// The key that tokens are sealed under.
pub struct TokenCrypto {
    key: Vec<u8>,
}

impl TokenCrypto {
    #[verifier::type_invariant]
    spec fn inv(self) -> bool {
        self.key@.len() == 32
    }

    pub closed spec fn key(self) -> Seq<u8> {
        self.key@
    }

    /// The key that a key file holds.
    pub fn from_key_text(raw: &str) -> (r: Result<TokenCrypto, CryptoError>)
        ensures
            match r {
                Ok(crypto) => key_of_text(trimmed(raw@)) == Ok::<Seq<u8>, CryptoError>(
                    crypto.key(),
                ),
                Err(e) => key_of_text(trimmed(raw@)) == Err::<Seq<u8>, CryptoError>(e),
            },
    {
        match decode_key(&trim(raw)) {
            Ok(key) => Ok(TokenCrypto { key }),
            Err(e) => Err(e),
        }
    }

    /// A new key, and the text to keep it as.
    pub fn create() -> (r: (TokenCrypto, String))
        ensures
            r.1@ == base64_text(r.0.key()),
            key_of_text(r.1@) == Ok::<Seq<u8>, CryptoError>(r.0.key()),
            r.0.key().len() == 32,
    {
        let key = random_bytes(32);
        let text = encode_base64(&key);
        (TokenCrypto { key }, text)
    }

    /// Seals a text with the given nonce.
    pub fn encrypt_with_nonce(&self, nonce: &Vec<u8>, plaintext: &str) -> (r: Result<
        String,
        CryptoError,
    >)
        requires
            nonce@.len() == 12,
        ensures
            match r {
                Ok(text) => {
                    &&& encode_utf8(plaintext@).len() <= MAX_PLAINTEXT_BYTES
                    &&& text@ == sealed_text(self.key(), nonce@, plaintext@)
                    &&& decrypted(self.key(), text@) == Ok::<Seq<char>, CryptoError>(plaintext@)
                },
                Err(e) => encode_utf8(plaintext@).len() > MAX_PLAINTEXT_BYTES && e
                    == CryptoError::Encryption,
            },
    {
        proof {
            use_type_invariant(self);
        }
        let bytes = plaintext.as_bytes();
        if bytes.len() as u64 > MAX_PLAINTEXT_BYTES {
            return Err(CryptoError::Encryption);
        }
        let ciphertext = seal(&self.key, nonce, bytes);
        let nonce_text = encode_base64(nonce);
        let cipher_text = encode_base64(&ciphertext);
        let mut text = "v1:".to_owned();
        text.append(&nonce_text);
        text.append(":");
        text.append(&cipher_text);
        proof {
            reveal_strlit("v1:");
            reveal_strlit("v1");
            reveal_strlit(":");
            let all = text@;
            let n = nonce_text@;
            let c = cipher_text@;
            assert(all =~= seq!['v', '1', ':'] + n + seq![':'] + c);
            split_colon_at(all, 2);
            assert(all.take(2) =~= "v1"@);
            let rest = all.skip(3);
            assert(rest =~= n + seq![':'] + c);
            assert forall|j: int| 0 <= j < n.len() implies rest[j] != ':' by {
                assert(rest[j] == n[j]);
                assert(is_base64_char(n[j]));
            }
            assert(rest[n.len() as int] == ':');
            split_colon_at(rest, n.len() as int);
            assert(rest.take(n.len() as int) =~= n);
            assert(rest.skip(n.len() as int + 1) =~= c);
            utf8_round_trip(plaintext@);
        }
        Ok(text)
    }

    /// Seals a text. What is sealed, `decrypt` gives back.
    pub fn encrypt(&self, plaintext: &str) -> (r: Result<String, CryptoError>)
        ensures
            match r {
                Ok(text) => {
                    &&& encode_utf8(plaintext@).len() <= MAX_PLAINTEXT_BYTES
                    &&& exists|nonce: Seq<u8>|
                        nonce.len() == 12 && text@ == #[trigger] sealed_text(
                            self.key(),
                            nonce,
                            plaintext@,
                        )
                    &&& decrypted(self.key(), text@) == Ok::<Seq<char>, CryptoError>(plaintext@)
                },
                Err(e) => encode_utf8(plaintext@).len() > MAX_PLAINTEXT_BYTES && e
                    == CryptoError::Encryption,
            },
    {
        let nonce = random_bytes(12);
        self.encrypt_with_nonce(&nonce, plaintext)
    }

    /// Reads a sealed text.
    pub fn decrypt(&self, encoded: &str) -> (r: Result<String, CryptoError>)
        ensures
            match r {
                Ok(text) => decrypted(self.key(), encoded@) == Ok::<Seq<char>, CryptoError>(text@),
                Err(e) => decrypted(self.key(), encoded@) == Err::<Seq<char>, CryptoError>(e),
            },
    {
        proof {
            use_type_invariant(self);
        }
        let (version, rest) = match split_at_colon(encoded) {
            Some(parts) => parts,
            None => return Err(CryptoError::MissingNonce),
        };
        let (nonce_text, cipher_text) = match split_at_colon(&rest) {
            Some(parts) => parts,
            None => return Err(CryptoError::MissingCiphertext),
        };
        if !same(&version, "v1") {
            return Err(CryptoError::UnsupportedVersion);
        }
        let nonce = match decode_base64(&nonce_text) {
            Some(bytes) => bytes,
            None => return Err(CryptoError::NonceEncoding),
        };
        let ciphertext = match decode_base64(&cipher_text) {
            Some(bytes) => bytes,
            None => return Err(CryptoError::CiphertextEncoding),
        };
        if nonce.len() != 12 {
            return Err(CryptoError::NonceLength);
        }
        let plaintext = match unseal(&self.key, &nonce, &ciphertext) {
            Some(bytes) => bytes,
            None => return Err(CryptoError::Decryption),
        };
        match text_of_utf8(plaintext) {
            Some(text) => Ok(text),
            None => Err(CryptoError::NotUtf8),
        }
    }
}

/// The 32 bytes of an encoded key.
pub fn decode_key(raw: &str) -> (r: Result<Vec<u8>, CryptoError>)
    ensures
        match r {
            Ok(key) => key_of_text(raw@) == Ok::<Seq<u8>, CryptoError>(key@) && key@.len() == 32,
            Err(e) => key_of_text(raw@) == Err::<Seq<u8>, CryptoError>(e),
        },
{
    let decoded = match decode_base64(raw) {
        Some(bytes) => bytes,
        None => match decode_padded_base64(raw) {
            Some(bytes) => bytes,
            None => return Err(CryptoError::KeyEncoding),
        },
    };
    if decoded.len() == 32 {
        Ok(decoded)
    } else {
        Err(CryptoError::KeyLength)
    }
}

proof fn colon_splits(s: Seq<char>, i: int)
    requires
        0 <= i < s.len(),
        s[i] == ':',
        forall|k: int| 0 <= k < i ==> s[k] != ':',
    ensures
        split_colon(s) == Some((s.take(i), s.skip(i + 1))),
    decreases i,
{
    if i > 0 {
        let rest = s.drop_first();
        assert forall|k: int| 0 <= k < i - 1 implies rest[k] != ':' by {
            assert(rest[k] == s[k + 1]);
        }
        colon_splits(rest, i - 1);
        assert(seq![s[0]] + rest.take(i - 1) =~= s.take(i));
        assert(rest.skip(i) =~= s.skip(i + 1));
    } else {
        assert(s.take(0) =~= Seq::empty());
        assert(s.drop_first() =~= s.skip(1));
    }
}

/// A sealed token is taken apart at its first two colons: the version, the nonce and the ciphertext.
pub proof fn tokens_are_split_at_colons(s: Seq<char>, i: int, j: int)
    requires
        0 <= i < j < s.len(),
        s[i] == ':',
        s[j] == ':',
        forall|k: int| 0 <= k < i ==> s[k] != ':',
        forall|k: int| i < k < j ==> s[k] != ':',
    ensures
        split_colon(s) == Some((s.take(i), s.skip(i + 1))),
        split_colon(s.skip(i + 1)) == Some((s.subrange(i + 1, j), s.skip(j + 1))),
{
    colon_splits(s, i);
    let rest = s.skip(i + 1);
    assert forall|k: int| 0 <= k < j - i - 1 implies rest[k] != ':' by {
        assert(rest[k] == s[i + 1 + k]);
    }
    colon_splits(rest, j - i - 1);
    assert(rest.take(j - i - 1) =~= s.subrange(i + 1, j));
    assert(rest.skip(j - i) =~= s.skip(j + 1));
}

/// A token is opened only where it is of the first version, its nonce has twelve bytes, and the seal is
/// intact; the text is that of the bytes that were sealed.
pub proof fn opened_tokens_were_sealed(key: Seq<u8>, encoded: Seq<char>, text: Seq<char>)
    requires
        decrypted(key, encoded) == Ok::<Seq<char>, CryptoError>(text),
    ensures
        split_colon(encoded) matches Some(parts) && parts.0 == "v1"@ && (split_colon(
            parts.1,
        ) matches Some(rest) && base64_bytes(rest.0) is Some && base64_bytes(rest.0)->0.len() == 12
            && base64_bytes(rest.1) is Some && unsealed(
            key,
            base64_bytes(rest.0)->0,
            base64_bytes(rest.1)->0,
        ) is Some && utf8_text(
            unsealed(key, base64_bytes(rest.0)->0, base64_bytes(rest.1)->0)->0,
        ) == Some(text)),
{
}

/// A key has exactly 32 bytes.
pub proof fn keys_have_thirty_two_bytes(text: Seq<char>, bytes: Seq<u8>)
    ensures
        key_of_text(text) matches Ok(key) ==> key.len() == 32,
        base64_bytes(text) == Some(bytes) && bytes.len() == 32 ==> key_of_text(text) == Ok::<
            Seq<u8>,
            CryptoError,
        >(bytes),
        base64_bytes(text) == Some(bytes) && bytes.len() != 32 ==> key_of_text(text) == Err::<
            Seq<u8>,
            CryptoError,
        >(CryptoError::KeyLength),
        base64_bytes(text) is None && padded_base64_bytes(text) is None ==> key_of_text(text)
            == Err::<Seq<u8>, CryptoError>(CryptoError::KeyEncoding),
        base64_bytes(text) is None && padded_base64_bytes(text) == Some(bytes) && bytes.len() == 32
            ==> key_of_text(text) == Ok::<Seq<u8>, CryptoError>(bytes),
{
}

} // verus!
