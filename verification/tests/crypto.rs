use aes_gcm::aead::{Aead, KeyInit};
use base64::engine::general_purpose::{STANDARD, STANDARD_NO_PAD};
use base64::Engine as _;
use codex_lb_rs::crypto::{decode_key, CryptoError, TokenCrypto};

#[test]
fn sealed_texts_are_read_back() {
    let (crypto, text) = TokenCrypto::create();
    assert_eq!(STANDARD_NO_PAD.encode(STANDARD_NO_PAD.decode(&text).unwrap()), text);
    assert_eq!(text.len(), 43);
    let same = TokenCrypto::from_key_text(&format!(" {text}\n")).ok().unwrap();
    for plain in ["", "token", "emoji ☃ and\nlines"] {
        let sealed = crypto.encrypt(plain).unwrap();
        assert!(sealed.starts_with("v1:"));
        assert!(plain.is_empty() || !sealed.contains(plain));
        assert_eq!(crypto.decrypt(&sealed).unwrap(), plain);
        assert_eq!(same.decrypt(&sealed).unwrap(), plain);
    }
    assert_ne!(crypto.encrypt("token").unwrap(), crypto.encrypt("token").unwrap());
    let (other, _) = TokenCrypto::create();
    assert_eq!(
        other.decrypt(&crypto.encrypt("token").unwrap()),
        Err(CryptoError::Decryption)
    );
}

#[test]
fn sealing_with_a_nonce_is_aes_256_gcm() {
    let crypto = TokenCrypto::from_key_text(&STANDARD.encode([0u8; 32])).ok().unwrap();
    let sealed = crypto.encrypt_with_nonce(&vec![0u8; 12], "").unwrap();
    let tag = [
        0x53, 0x0f, 0x8a, 0xfb, 0xc7, 0x45, 0x36, 0xb9, 0xa9, 0x63, 0xb4, 0xf1, 0xc4, 0xcb, 0x73,
        0x8b,
    ];
    assert_eq!(
        sealed,
        format!("v1:{}:{}", STANDARD_NO_PAD.encode([0u8; 12]), STANDARD_NO_PAD.encode(tag))
    );
}

#[test]
fn broken_texts_are_refused_by_name() {
    let crypto = TokenCrypto::from_key_text(&STANDARD.encode([7u8; 32])).ok().unwrap();
    let nonce = STANDARD_NO_PAD.encode([0u8; 12]);
    for (text, wanted) in [
        ("v1".to_string(), CryptoError::MissingNonce),
        ("v1:abc".to_string(), CryptoError::MissingCiphertext),
        (format!("v2:{nonce}:abcd"), CryptoError::UnsupportedVersion),
        ("v1:%:abcd".to_string(), CryptoError::NonceEncoding),
        (format!("v1:{nonce}:%"), CryptoError::CiphertextEncoding),
        ("v1:YWJj:YWJj".to_string(), CryptoError::NonceLength),
        (format!("v1:{nonce}:YWJj"), CryptoError::Decryption),
    ] {
        assert_eq!(crypto.decrypt(&text), Err(wanted), "{text}");
    }
    assert_eq!(CryptoError::Decryption.message(), "decryption failed");
}

#[test]
fn keys_are_32_bytes_with_or_without_padding() {
    assert_eq!(decode_key(&STANDARD.encode([9u8; 32])).unwrap(), vec![9u8; 32]);
    assert_eq!(decode_key(&STANDARD_NO_PAD.encode([9u8; 32])).unwrap(), vec![9u8; 32]);
    assert_eq!(decode_key(&STANDARD.encode([9u8; 31])), Err(CryptoError::KeyLength));
    assert!(decode_key("no key").is_err());
}

#[test]
fn what_is_sealed_has_to_be_a_text() {
    let key = [3u8; 32];
    let crypto = TokenCrypto::from_key_text(&STANDARD.encode(key)).ok().unwrap();
    let cipher = aes_gcm::Aes256Gcm::new_from_slice(&key).unwrap();
    let nonce = [5u8; 12];
    let sealed = cipher
        .encrypt(aes_gcm::Nonce::from_slice(&nonce), &[0xff, 0xfe][..])
        .unwrap();
    let text = format!(
        "v1:{}:{}",
        STANDARD_NO_PAD.encode(nonce),
        STANDARD_NO_PAD.encode(sealed)
    );
    assert_eq!(crypto.decrypt(&text), Err(CryptoError::NotUtf8));
}

#[test]
fn other_versions_are_refused_under_every_key() {
    let nonce = STANDARD_NO_PAD.encode([0u8; 12]);
    for seed in [0u8, 7, 255] {
        let crypto = TokenCrypto::from_key_text(&STANDARD.encode([seed; 32])).ok().unwrap();
        let sealed = crypto.encrypt("token").ok().unwrap();
        let (_, rest) = sealed.split_once(':').unwrap();
        for version in ["v2", "V1", "", " v1", "v11"] {
            assert_eq!(
                crypto.decrypt(&format!("{version}:{rest}")),
                Err(CryptoError::UnsupportedVersion)
            );
            assert!(crypto.decrypt(&format!("{version}:{nonce}:abcd")).is_err());
        }
    }
}

#[test]
fn a_replaced_key_does_not_open_what_was_sealed() {
    let first = TokenCrypto::from_key_text(&STANDARD.encode([1u8; 32])).ok().unwrap();
    let second = TokenCrypto::from_key_text(&STANDARD.encode([2u8; 32])).ok().unwrap();
    let sealed = first.encrypt("token").ok().unwrap();
    assert_eq!(first.decrypt(&sealed), Ok("token".to_string()));
    assert_eq!(second.decrypt(&sealed), Err(CryptoError::Decryption));
}
