//! The room cipher and join-key derivation.

use base64::Engine;
use sha2::Digest;

use klee_chat::crypto::{CryptoError, RoomCrypto};

#[test]
fn join_key_deterministic() {
    let a = RoomCrypto::generate_join_key("room-1", Some("pw"));
    let b = RoomCrypto::generate_join_key("room-1", Some("pw"));
    assert_eq!(a, b);
    let c = RoomCrypto::generate_join_key("room-1", None);
    let d = RoomCrypto::generate_join_key("room-1", None);
    assert_eq!(c, d);
}

#[test]
fn join_key_separates_passwords() {
    let a = RoomCrypto::generate_join_key("room-1", Some("alpha"));
    let b = RoomCrypto::generate_join_key("room-1", Some("beta"));
    let c = RoomCrypto::generate_join_key("room-1", None);
    assert_ne!(a, b);
    assert_ne!(a, c);
    let other_room = RoomCrypto::generate_join_key("room-2", Some("alpha"));
    assert_ne!(a, other_room);
}

#[test]
fn join_key_matches_reference_derivation() {
    let mut hasher = sha2::Sha256::new();
    hasher.update("some-room-id".as_bytes());
    hasher.update(b":");
    hasher.update("secret".as_bytes());
    let expected = base64::engine::general_purpose::STANDARD.encode(hasher.finalize());
    assert_eq!(RoomCrypto::generate_join_key("some-room-id", Some("secret")), expected);

    let mut hasher = sha2::Sha256::new();
    hasher.update("some-room-id".as_bytes());
    let expected = base64::engine::general_purpose::STANDARD.encode(hasher.finalize());
    assert_eq!(RoomCrypto::generate_join_key("some-room-id", None), expected);
}

#[test]
fn cipher_round_trip() {
    let (cipher, key_b64) = RoomCrypto::new();
    assert_eq!(key_b64.len(), 44);
    let sealed = cipher.encrypt("attack at dawn").expect("encrypt");
    // The text is base64 of nonce(12) || ciphertext || tag(16).
    let decoded = base64::engine::general_purpose::STANDARD
        .decode(sealed.as_bytes())
        .expect("ciphertext text decodes");
    assert_eq!(decoded.len(), 12 + "attack at dawn".len() + 16);
    let opened = cipher.decrypt(&sealed).expect("decrypt");
    assert_eq!(opened, "attack at dawn".to_string());
}

#[test]
fn cipher_round_trip_empty_message() {
    let (cipher, _) = RoomCrypto::new();
    let sealed = cipher.encrypt("").expect("encrypt");
    assert_eq!(cipher.decrypt(&sealed).expect("decrypt"), "".to_string());
}

#[test]
fn cipher_rejects_altered_ciphertext() {
    let (cipher, _) = RoomCrypto::new();
    let sealed = cipher.encrypt("attack at dawn").expect("encrypt");
    let mut bytes = sealed.into_bytes();
    let mid = bytes.len() / 2;
    bytes[mid] = if bytes[mid] == b'A' { b'B' } else { b'A' };
    let altered = String::from_utf8(bytes).unwrap();
    assert_eq!(cipher.decrypt(&altered), Err(CryptoError::DecryptionError));
}

#[test]
fn cipher_rejects_wrong_key() {
    let (cipher_a, _) = RoomCrypto::new();
    let (cipher_b, _) = RoomCrypto::new();
    let sealed = cipher_a.encrypt("hello").expect("encrypt");
    assert_eq!(cipher_b.decrypt(&sealed), Err(CryptoError::DecryptionError));
}

#[test]
fn cipher_rejects_short_input() {
    let (cipher, _) = RoomCrypto::new();
    // Base64 of fewer than twelve bytes: shorter than a nonce.
    let short = base64::engine::general_purpose::STANDARD.encode([1u8, 2, 3]);
    assert_eq!(cipher.decrypt(&short), Err(CryptoError::DecryptionError));
    assert_eq!(cipher.decrypt("@@@"), Err(CryptoError::DecryptionError));
}

#[test]
fn cipher_key_can_be_rebuilt() {
    let (cipher, key_b64) = RoomCrypto::new();
    let sealed = cipher.encrypt("shared secret").expect("encrypt");
    let rebuilt = RoomCrypto::from_key(&key_b64).expect("rebuild");
    assert_eq!(rebuilt.decrypt(&sealed).expect("decrypt"), "shared secret".to_string());
}

#[test]
fn from_key_rejects_bad_text() {
    assert!(matches!(RoomCrypto::from_key("***"), Err(CryptoError::InvalidKeyError)));
    let short_key = base64::engine::general_purpose::STANDARD.encode([7u8; 16]);
    assert!(matches!(RoomCrypto::from_key(&short_key), Err(CryptoError::InvalidKeyError)));
}
