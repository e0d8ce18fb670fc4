//! The crypto sidecar's request processing.

use aes_gcm::aead::Aead;
use aes_gcm::KeyInit;

use base64::Engine;

use klee_chat::sidecar::{EncryptRequest, EncryptionService, Request, Response, SidecarError};

fn b64(data: &[u8]) -> String {
    base64::engine::general_purpose::STANDARD.encode(data)
}

#[test]
fn error_texts() {
    assert_eq!(SidecarError::BadKeyEncoding.message(), "Failed to decode AES key");
    assert_eq!(SidecarError::BadIvEncoding.message(), "Failed to decode AES IV");
    assert_eq!(SidecarError::CipherInit.message(), "Failed to create cipher");
    assert_eq!(SidecarError::EncryptFailed.message(), "Failed to encrypt");
    assert_eq!(SidecarError::RsaFailed.message(), "Failed to encrypt with RSA");
}

#[test]
fn service_round_trip() {
    let service = EncryptionService::new().expect("keypair");

    // Password hashing: unsalted SHA-256, lowercase hex, by contract.
    let hashed = service.process_request(Request::HashPassword { password: "abc".to_string() });
    assert_eq!(
        hashed,
        Ok(Response::HashedPassword {
            hash: "ba7816bf8f01cfea414140de5dae2223b00361a396177a9cb410ff61f20015ad".to_string(),
        })
    );

    // Room keys: base64 of 32 random bytes.
    match service.process_request(Request::GenerateRoomKey) {
        Ok(Response::RoomKey { key }) => {
            assert_eq!(key.len(), 44);
            let decoded = base64::engine::general_purpose::STANDARD
                .decode(key.as_bytes())
                .expect("room key decodes");
            assert_eq!(decoded.len(), 32);
        },
        other => panic!("expected room_key, got {:?}", other),
    }

    // Ids: the hyphenated text form.
    match service.process_request(Request::GenerateUuid) {
        Ok(Response::Uuid { uuid }) => assert_eq!(uuid.len(), 36),
        other => panic!("expected uuid, got {:?}", other),
    }

    // Encryption: the sealed value opens under the client's key and nonce.
    let aes_key = vec![7u8; 32];
    let aes_iv = vec![9u8; 12];
    let request = Request::Encrypt(EncryptRequest {
        value: "hello sidecar".to_string(),
        aes_key: b64(&aes_key),
        aes_iv: b64(&aes_iv),
    });
    match service.process_request(request) {
        Ok(Response::Encrypt { encrypted, public_key }) => {
            let sealed = base64::engine::general_purpose::STANDARD
                .decode(encrypted.as_bytes())
                .expect("ciphertext decodes");
            let cipher = aes_gcm::Aes256Gcm::new_from_slice(&aes_key).unwrap();
            let opened = cipher
                .decrypt(aes_gcm::Nonce::from_slice(&aes_iv), sealed.as_slice())
                .expect("tag verifies");
            assert_eq!(opened, b"hello sidecar".to_vec());
            assert!(!public_key.is_empty());
        },
        other => panic!("expected encrypt response, got {:?}", other),
    }

    // Failures surface as the stage that refused them.
    let bad_key = Request::Encrypt(EncryptRequest {
        value: "v".to_string(),
        aes_key: "***".to_string(),
        aes_iv: b64(&aes_iv),
    });
    assert_eq!(service.process_request(bad_key), Err(SidecarError::BadKeyEncoding));
    let bad_iv = Request::Encrypt(EncryptRequest {
        value: "v".to_string(),
        aes_key: b64(&aes_key),
        aes_iv: "***".to_string(),
    });
    assert_eq!(service.process_request(bad_iv), Err(SidecarError::BadIvEncoding));
    let short_key = Request::Encrypt(EncryptRequest {
        value: "v".to_string(),
        aes_key: b64(&[1u8; 16]),
        aes_iv: b64(&aes_iv),
    });
    assert_eq!(service.process_request(short_key), Err(SidecarError::CipherInit));
    let short_iv = Request::Encrypt(EncryptRequest {
        value: "v".to_string(),
        aes_key: b64(&aes_key),
        aes_iv: b64(&[1u8; 4]),
    });
    assert_eq!(service.process_request(short_iv), Err(SidecarError::EncryptFailed));
}
