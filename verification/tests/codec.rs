//! Byte-level encoders: hex and SHA-256, and the base64 the library
//! produces, held against the reference crates.

use base64::Engine;
use sha2::Digest;

use klee_chat::encoding::to_hex;
use klee_chat::hashing::sha256_hex;

#[test]
fn hex_renders_lowercase_pairs() {
    assert_eq!(to_hex(&[]), "".to_string());
    assert_eq!(to_hex(&[0u8, 15, 16, 255, 171]), "000f10ffab".to_string());
}

#[test]
fn sha256_known_digest() {
    // The well-known digest of the three bytes "abc".
    assert_eq!(
        sha256_hex(b"abc"),
        "ba7816bf8f01cfea414140de5dae2223b00361a396177a9cb410ff61f20015ad".to_string()
    );
}

#[test]
fn sha256_matches_reference_implementation() {
    let data = b"the quick brown fox";
    let expected = <sha2::Sha256 as Digest>::digest(data).to_vec();
    assert_eq!(sha256_hex(data), to_hex(&expected));
}

#[test]
fn room_key_text_is_reference_base64() {
    // The cipher's key text must be what the reference engine would emit.
    let (_, key_b64) = klee_chat::crypto::RoomCrypto::new();
    let bytes = base64::engine::general_purpose::STANDARD
        .decode(key_b64.as_bytes())
        .expect("key text decodes");
    assert_eq!(bytes.len(), 32);
    assert_eq!(base64::engine::general_purpose::STANDARD.encode(&bytes), key_b64);
}
