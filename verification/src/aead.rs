//! AES-256-GCM sealing and opening through the `aes_gcm` crate.

use vstd::prelude::*;

verus! {

/// The longest plaintext AES-256-GCM seals, in bytes.
pub const AES_GCM_P_MAX: u64 = 0x1000000000;

/// What AES-256-GCM encryption returns for a 32-byte key, a 12-byte nonce
/// and a plaintext: the ciphertext followed by the 16-byte tag, a function
/// of those three inputs alone.
pub uninterp spec fn aes_gcm_seal_of(key: Seq<u8>, nonce: Seq<u8>, plaintext: Seq<u8>) -> Seq<u8>;

/// What AES-256-GCM decryption returns for a key, nonce and sealed bytes:
/// the plaintext exactly when the tag verifies.
pub uninterp spec fn aes_gcm_open_of(key: Seq<u8>, nonce: Seq<u8>, sealed: Seq<u8>) -> Option<
    Seq<u8>,
>;

/// Relies on aes_gcm's `Aes256Gcm::new_from_slice` and `Aead::encrypt`: for
/// a fixed key and nonce the sealed bytes are a function of the plaintext,
/// sixteen tag bytes longer than it, and `Aead::decrypt` restores the
/// plaintext from them. With a 32-byte key sealing succeeds exactly when the
/// plaintext is at most `AES_GCM_P_MAX` bytes.
#[verifier::external_body]
pub(crate) fn aes_gcm_seal(key: &[u8], nonce: &[u8], plaintext: &[u8]) -> (r: Option<Vec<u8>>)
    requires
        key@.len() == 32,
        nonce@.len() == 12,
    ensures
        r is Some <==> plaintext@.len() <= AES_GCM_P_MAX,
        match r {
            Some(c) => c@ == aes_gcm_seal_of(key@, nonce@, plaintext@) && c@.len() == plaintext@.len()
                + 16 && aes_gcm_open_of(key@, nonce@, c@) == Some(plaintext@),
            None => true,
        },
{
    let cipher = match <aes_gcm::Aes256Gcm as aes_gcm::KeyInit>::new_from_slice(key) {
        Ok(c) => c,
        Err(_) => {
            return None;
        },
    };
    match aes_gcm::aead::Aead::encrypt(&cipher, aes_gcm::Nonce::from_slice(nonce), plaintext) {
        Ok(sealed) => Some(sealed),
        Err(_) => None,
    }
}

/// Relies on aes_gcm's `Aes256Gcm::new_from_slice` and `Aead::decrypt`:
/// opening succeeds exactly when the tag verifies under the key and nonce,
/// and then yields the bytes that were sealed.
#[verifier::external_body]
pub(crate) fn aes_gcm_open(key: &[u8], nonce: &[u8], sealed: &[u8]) -> (r: Option<Vec<u8>>)
    requires
        key@.len() == 32,
        nonce@.len() == 12,
    ensures
        match r {
            Some(p) => aes_gcm_open_of(key@, nonce@, sealed@) == Some(p@),
            None => aes_gcm_open_of(key@, nonce@, sealed@) is None,
        },
{
    let cipher = match <aes_gcm::Aes256Gcm as aes_gcm::KeyInit>::new_from_slice(key) {
        Ok(c) => c,
        Err(_) => {
            return None;
        },
    };
    match aes_gcm::aead::Aead::decrypt(&cipher, aes_gcm::Nonce::from_slice(nonce), sealed) {
        Ok(plain) => Some(plain),
        Err(_) => None,
    }
}

} // verus!
