//! Join-key derivation and the errors of the room cipher.

use vstd::prelude::*;

verus! {

use vstd::string::StringSliceAdditionalSpecFns;
use vstd::utf8::encode_utf8;
use crate::encoding::{b64_encode, b64_encode_of};
use crate::hashing::{sha256_bytes, sha256_of};

/// Failure of a room-cipher operation.
#[derive(Debug, Clone, Copy, PartialEq, Eq, Structural)]
pub enum CryptoError {
    EncryptionError,
    DecryptionError,
    InvalidKeyError,
}

/// The view of an optional string slice.
pub open spec fn opt_str_view(p: Option<&str>) -> Option<Seq<char>> {
    match p {
        Some(s) => Some(s@),
        None => None,
    }
}

/// The byte string a join key is derived from: the room id's UTF-8 bytes,
/// followed, exactly when a password is set, by a ':' byte and the
/// password's UTF-8 bytes.
pub open spec fn join_key_input(room_id: Seq<char>, password: Option<Seq<char>>) -> Seq<u8> {
    match password {
        Some(p) => encode_utf8(room_id) + seq![58u8] + encode_utf8(p),
        None => encode_utf8(room_id),
    }
}

/// A room's join key: base64 of the SHA-256 digest of `join_key_input`.
pub open spec fn join_key_of(room_id: Seq<char>, password: Option<Seq<char>>) -> Seq<char> {
    b64_encode_of(sha256_of(join_key_input(room_id, password)))
}

/// UTF-8 encoding is injective: equal encodings come from equal texts.
pub proof fn lemma_encode_utf8_injective(a: Seq<char>, b: Seq<char>)
    requires
        encode_utf8(a) == encode_utf8(b),
    ensures
        a == b,
{
    broadcast use vstd::utf8::encode_utf8_decode_utf8;

    assert(decode_utf8(encode_utf8(a)) == a);
    assert(decode_utf8(encode_utf8(b)) == b);
}

/// The derivation input separates passwords: for one room id, two different
/// passwords (or a password against none) never feed the same bytes into
/// SHA-256. Distinct join keys then rest only on the digest's collision
/// resistance.
pub proof fn lemma_join_key_input_injective(
    room_id: Seq<char>,
    pa: Option<Seq<char>>,
    pb: Option<Seq<char>>,
)
    requires
        pa != pb,
    ensures
        join_key_input(room_id, pa) != join_key_input(room_id, pb),
{
    let prefix = encode_utf8(room_id);
    let k = prefix.len() as int;
    if join_key_input(room_id, pa) == join_key_input(room_id, pb) {
        match (pa, pb) {
            (Some(a), Some(b)) => {
                let ia = join_key_input(room_id, Some(a));
                let ib = join_key_input(room_id, Some(b));
                assert(encode_utf8(a) =~= ia.subrange(k + 1, ia.len() as int));
                assert(encode_utf8(b) =~= ib.subrange(k + 1, ib.len() as int));
                lemma_encode_utf8_injective(a, b);
                assert(false);
            },
            (Some(a), None) => {
                assert(join_key_input(room_id, Some(a)).len() >= k + 1);
                assert(join_key_input(room_id, None).len() == k);
                assert(false);
            },
            (None, Some(b)) => {
                assert(join_key_input(room_id, Some(b)).len() >= k + 1);
                assert(join_key_input(room_id, None).len() == k);
                assert(false);
            },
            (None, None) => {
                assert(false);
            },
        }
    }
}

/// The join key is a function of the room id and password alone: deriving it
/// twice from the same pair gives the same key.
pub proof fn lemma_join_key_deterministic(
    room_id: Seq<char>,
    password: Option<Seq<char>>,
)
    ensures
        join_key_of(room_id, password) == join_key_of(room_id, password),
{
}

use vstd::utf8::{decode_utf8, valid_utf8};
use crate::aead::{aes_gcm_open, aes_gcm_open_of, aes_gcm_seal, aes_gcm_seal_of, AES_GCM_P_MAX};
use crate::encoding::{b64_decode, b64_decode_of, bytes_to_string};
use crate::randomness::random_bytes;

/// The text `encrypt` produces for a key, nonce and message:
/// `base64(nonce || ciphertext || tag)`.
pub open spec fn encrypt_model(key: Seq<u8>, nonce: Seq<u8>, message: Seq<char>) -> Seq<char> {
    b64_encode_of(nonce + aes_gcm_seal_of(key, nonce, encode_utf8(message)))
}

/// The message `decrypt` recovers from a piece of text under a key, when the
/// text is base64 of at least a nonce, the tag verifies, and the plaintext
/// is UTF-8.
pub open spec fn decrypt_model(key: Seq<u8>, text: Seq<char>) -> Option<Seq<char>> {
    match b64_decode_of(text) {
        None => None,
        Some(bytes) => if bytes.len() < 12 {
            None
        } else {
            match aes_gcm_open_of(key, bytes.take(12), bytes.skip(12)) {
                None => None,
                Some(plain) => if valid_utf8(plain) {
                    Some(decode_utf8(plain))
                } else {
                    None
                },
            }
        },
    }
}

/// A room's AES-256-GCM cipher. The key is drawn once at room creation and
/// never rotated.
pub struct RoomCrypto {
    key: Vec<u8>,
}

impl RoomCrypto {
    /// Derives the join key presented to clients wishing to enter a room:
    /// `base64(SHA-256(room_id [ ':' password ]))`, the ':' present exactly when
    /// the room has a password. Stable across processes.
    pub fn generate_join_key(room_id: &str, password: Option<&str>) -> (r: String)
        ensures
            r@ == join_key_of(room_id@, opt_str_view(password)),
    {
        let mut input: Vec<u8> = Vec::new();
        input.extend_from_slice(room_id.as_bytes());
        if let Some(pass) = password {
            input.push(58u8);
            input.extend_from_slice(pass.as_bytes());
            proof {
                assert(input@ =~= join_key_input(room_id@, opt_str_view(password)));
            }
        } else {
            proof {
                assert(input@ =~= join_key_input(room_id@, opt_str_view(password)));
            }
        }
        let digest = sha256_bytes(input.as_slice());
        b64_encode(digest.as_slice())
    }

    /// The 32 key bytes the cipher was built from.
    pub closed spec fn key_bytes(&self) -> Seq<u8> {
        self.key@
    }

    /// The key has the size AES-256 asks for.
    pub open spec fn wf(&self) -> bool {
        self.key_bytes().len() == 32
    }

    /// Draws a fresh random 32-byte room key and returns the cipher together
    /// with the key's base64 form, which is handed to every admitted
    /// participant.
    pub fn new() -> (r: (RoomCrypto, String))
        ensures
            r.0.wf(),
            r.1@ == b64_encode_of(r.0.key_bytes()),
            b64_decode_of(r.1@) == Some(r.0.key_bytes()),
    {
        let key = random_bytes(32);
        let key_base64 = b64_encode(key.as_slice());
        (RoomCrypto { key }, key_base64)
    }

    /// Rebuilds a room cipher from the base64 key text; rejects text that is
    /// not base64 or does not decode to exactly 32 bytes.
    pub fn from_key(key_base64: &str) -> (r: Result<RoomCrypto, CryptoError>)
        ensures
            match r {
                Ok(rc) => rc.wf() && b64_decode_of(key_base64@) == Some(rc.key_bytes()),
                Err(e) => e == CryptoError::InvalidKeyError && match b64_decode_of(key_base64@) {
                    Some(bytes) => bytes.len() != 32,
                    None => true,
                },
            },
    {
        let key_bytes = match b64_decode(key_base64) {
            Some(v) => v,
            None => {
                return Err(CryptoError::InvalidKeyError);
            },
        };
        if key_bytes.len() != 32 {
            return Err(CryptoError::InvalidKeyError);
        }
        Ok(RoomCrypto { key: key_bytes })
    }

    /// Encrypts a message under the room key with a fresh random 12-byte
    /// nonce, producing `base64(nonce || ciphertext || tag)`: the text
    /// decodes to exactly 12 + |message bytes| + 16 bytes. Succeeds for
    /// every message up to the AEAD's size cap, and whatever nonce was
    /// drawn, decrypting the result under the same key restores the message
    /// exactly.
    pub fn encrypt(&self, message: &str) -> (r: Result<String, CryptoError>)
        requires
            self.wf(),
        ensures
            r is Ok <==> encode_utf8(message@).len() <= AES_GCM_P_MAX,
            match r {
                Ok(c) => exists|nonce: Seq<u8>|
                    nonce.len() == 12 && c@ == encrypt_model(self.key_bytes(), nonce, message@),
                Err(e) => e == CryptoError::EncryptionError,
            },
            r is Ok ==> decrypt_model(self.key_bytes(), r.unwrap()@) == Some(message@),
            r is Ok ==> (b64_decode_of(r.unwrap()@) matches Some(b) && b.len() == 12 + encode_utf8(
                message@,
            ).len() + 16),
    {
        let nonce = random_bytes(12);
        let ghost nonce_view = nonce@;
        let sealed = match aes_gcm_seal(self.key.as_slice(), nonce.as_slice(), message.as_bytes()) {
            Some(c) => c,
            None => {
                return Err(CryptoError::EncryptionError);
            },
        };
        let ghost sealed_view = sealed@;
        let mut combined = nonce;
        combined.extend_from_slice(sealed.as_slice());
        let out = b64_encode(combined.as_slice());
        proof {
            broadcast use vstd::utf8::encode_utf8_valid_utf8, vstd::utf8::encode_utf8_decode_utf8;

            assert(combined@ =~= nonce_view + sealed_view);
            assert(out@ == encrypt_model(self.key_bytes(), nonce_view, message@));
            assert(combined@.take(12) =~= nonce_view);
            assert(combined@.skip(12) =~= sealed_view);
            assert(decrypt_model(self.key_bytes(), out@) == Some(message@));
        }
        Ok(out)
    }

    /// Decrypts `base64(nonce || ciphertext || tag)` under the room key;
    /// rejects text that is not base64, is shorter than a nonce, was sealed
    /// under another key or nonce, was altered, or does not decode as UTF-8.
    pub fn decrypt(&self, encrypted_base64: &str) -> (r: Result<String, CryptoError>)
        requires
            self.wf(),
        ensures
            match r {
                Ok(m) => decrypt_model(self.key_bytes(), encrypted_base64@) == Some(m@),
                Err(e) => e == CryptoError::DecryptionError && decrypt_model(
                    self.key_bytes(),
                    encrypted_base64@,
                ) is None,
            },
    {
        let encrypted = match b64_decode(encrypted_base64) {
            Some(v) => v,
            None => {
                return Err(CryptoError::DecryptionError);
            },
        };
        if encrypted.len() < 12 {
            return Err(CryptoError::DecryptionError);
        }
        let ghost all_bytes = encrypted@;
        let mut nonce = encrypted;
        let ciphertext = nonce.split_off(12);
        proof {
            assert(nonce@ =~= all_bytes.take(12));
            assert(ciphertext@ =~= all_bytes.skip(12));
        }
        let opened = match aes_gcm_open(
            self.key.as_slice(),
            nonce.as_slice(),
            ciphertext.as_slice(),
        ) {
            Some(p) => p,
            None => {
                return Err(CryptoError::DecryptionError);
            },
        };
        match bytes_to_string(opened) {
            Some(s) => Ok(s),
            None => Err(CryptoError::DecryptionError),
        }
    }
}

} // verus!
