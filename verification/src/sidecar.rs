//! The crypto sidecar's request processing: hybrid AES-GCM and RSA
//! wrapping, password hashing, and id and key generation, one response per
//! request. The line framing over standard streams lives outside the core.

use vstd::prelude::*;

verus! {

use vstd::string::StringSliceAdditionalSpecFns;
use vstd::utf8::encode_utf8;
use crate::aead::{aes_gcm_seal, aes_gcm_seal_of, AES_GCM_P_MAX};
use crate::encoding::{b64_decode, b64_decode_of, b64_encode, b64_encode_of, hex_of};
use crate::hashing::{sha256_hex, sha256_of};
use crate::randomness::{generate_uuid_string, random_bytes};

/// The key size the sidecar generates its RSA keypair with, in bits.
pub const RSA_BITS: usize = 2048;

#[verifier::external_type_specification]
#[verifier::external_body]
pub struct ExRsaPrivateKey(rsa::RsaPrivateKey);

#[verifier::external_type_specification]
#[verifier::external_body]
pub struct ExRsaPublicKey(rsa::RsaPublicKey);

/// Relies on rsa's `RsaPrivateKey::new` and `RsaPublicKey::from`: a fresh
/// random keypair of the requested size. Nothing is stated of its value.
#[verifier::external_body]
fn rsa_generate_keypair(bits: usize) -> (r: Option<(rsa::RsaPrivateKey, rsa::RsaPublicKey)>)
{
    let mut rng = rand::rngs::OsRng;
    match rsa::RsaPrivateKey::new(&mut rng, bits) {
        Ok(private_key) => {
            let public_key = rsa::RsaPublicKey::from(&private_key);
            Some((private_key, public_key))
        },
        Err(_) => None,
    }
}

/// Relies on rsa's `RsaPublicKey::encrypt` with `Pkcs1v15Encrypt`: the
/// padding is drawn fresh per call, so nothing is stated of the bytes.
#[verifier::external_body]
fn rsa_encrypt_pkcs1(public_key: &rsa::RsaPublicKey, data: &[u8]) -> (r: Option<Vec<u8>>)
{
    let mut rng = rand::rngs::OsRng;
    match public_key.encrypt(&mut rng, rsa::Pkcs1v15Encrypt, data) {
        Ok(c) => Some(c),
        Err(_) => None,
    }
}

/// Why the sidecar could not serve a request.
#[derive(Debug, Clone, Copy, PartialEq, Eq, Structural)]
pub enum SidecarError {
    BadKeyEncoding,
    BadIvEncoding,
    CipherInit,
    EncryptFailed,
    RsaFailed,
}

impl SidecarError {
    /// The text carried by the error response.
    pub fn message(&self) -> (r: String)
        ensures
            r@ == match *self {
                SidecarError::BadKeyEncoding => "Failed to decode AES key"@,
                SidecarError::BadIvEncoding => "Failed to decode AES IV"@,
                SidecarError::CipherInit => "Failed to create cipher"@,
                SidecarError::EncryptFailed => "Failed to encrypt"@,
                SidecarError::RsaFailed => "Failed to encrypt with RSA"@,
            },
    {
        match self {
            SidecarError::BadKeyEncoding => String::from_str("Failed to decode AES key"),
            SidecarError::BadIvEncoding => String::from_str("Failed to decode AES IV"),
            SidecarError::CipherInit => String::from_str("Failed to create cipher"),
            SidecarError::EncryptFailed => String::from_str("Failed to encrypt"),
            SidecarError::RsaFailed => String::from_str("Failed to encrypt with RSA"),
        }
    }
}

/// The payload of an encryption request: a value to seal, and the client's
/// AES key and nonce, both base64.
#[derive(Debug, PartialEq)]
pub struct EncryptRequest {
    pub value: String,
    pub aes_key: String,
    pub aes_iv: String,
}

/// One request read from the sidecar's standard input.
#[derive(Debug, PartialEq)]
pub enum Request {
    Encrypt(EncryptRequest),
    GenerateUuid,
    HashPassword { password: String },
    GenerateRoomKey,
}

/// One response written to the sidecar's standard output.
#[derive(Debug, PartialEq)]
pub enum Response {
    Encrypt { encrypted: String, public_key: String },
    Uuid { uuid: String },
    HashedPassword { hash: String },
    RoomKey { key: String },
    Error { error: String },
}

/// An encryption request whose key and nonce decode to the sizes AES-256-GCM
/// asks for and whose value fits the AEAD's size cap: the inputs on which
/// sealing is owed.
pub open spec fn encrypt_request_well_formed(request: EncryptRequest) -> bool {
    &&& b64_decode_of(request.aes_key@) matches Some(k) && k.len() == 32
    &&& b64_decode_of(request.aes_iv@) matches Some(iv) && iv.len() == 12
    &&& encode_utf8(request.value@).len() <= AES_GCM_P_MAX
}

/// The service state: the RSA keypair drawn once at startup. The private
/// key never leaves the process.
pub struct EncryptionService {
    rsa_private_key: rsa::RsaPrivateKey,
    rsa_public_key: rsa::RsaPublicKey,
}

impl EncryptionService {
    /// Draws the service's RSA keypair. Returns nothing when the underlying
    /// generator fails, and the process should not start.
    pub fn new() -> (r: Option<EncryptionService>)
    {
        match rsa_generate_keypair(RSA_BITS) {
            Some((rsa_private_key, rsa_public_key)) => Some(
                EncryptionService { rsa_private_key, rsa_public_key },
            ),
            None => None,
        }
    }

    /// Seals data under the client's AES-256-GCM key and nonce. Succeeds
    /// exactly on a 32-byte key, a 12-byte nonce, and data within the AEAD's
    /// size cap. A key of the wrong size fails cipher construction; a nonce
    /// of the wrong size, or data over the cap, fails encryption.
    pub fn encrypt_aes(&self, data: &[u8], key: &[u8], iv: &[u8]) -> (r: Result<
        Vec<u8>,
        SidecarError,
    >)
        ensures
            r is Ok <==> (key@.len() == 32 && iv@.len() == 12 && data@.len() <= AES_GCM_P_MAX),
            r is Ok ==> r.unwrap()@ == aes_gcm_seal_of(key@, iv@, data@),
            r == Err::<Vec<u8>, SidecarError>(SidecarError::CipherInit) <==> key@.len() != 32,
            r == Err::<Vec<u8>, SidecarError>(SidecarError::EncryptFailed) <==> (key@.len() == 32
                && (iv@.len() != 12 || data@.len() > AES_GCM_P_MAX)),
    {
        if key.len() != 32 {
            return Err(SidecarError::CipherInit);
        }
        if iv.len() != 12 {
            return Err(SidecarError::EncryptFailed);
        }
        match aes_gcm_seal(key, iv, data) {
            Some(sealed) => Ok(sealed),
            None => Err(SidecarError::EncryptFailed),
        }
    }

    /// Wraps data under the service's RSA public key with PKCS#1 v1.5
    /// padding; the padding is random, so only success or failure is
    /// stated.
    pub fn encrypt_rsa(&self, data: &[u8]) -> (r: Result<Vec<u8>, SidecarError>)
        ensures
            r is Err ==> r == Err::<Vec<u8>, SidecarError>(SidecarError::RsaFailed),
    {
        match rsa_encrypt_pkcs1(&self.rsa_public_key, data) {
            Some(c) => Ok(c),
            None => Err(SidecarError::RsaFailed),
        }
    }

    /// Serves an encryption request: seals the value under the client's
    /// AES key and nonce, wraps the AES key under the service's RSA key,
    /// and returns both base64-encoded. Each failure surfaces as exactly the
    /// error its stage names, and a well-formed request fails only if the
    /// RSA wrap itself refuses.
    pub fn process_encrypt_request(&self, request: EncryptRequest) -> (r: Result<
        Response,
        SidecarError,
    >)
        ensures
            r == Err::<Response, SidecarError>(SidecarError::BadKeyEncoding) <==> b64_decode_of(
                request.aes_key@,
            ) is None,
            r == Err::<Response, SidecarError>(SidecarError::BadIvEncoding) <==> (b64_decode_of(
                request.aes_key@,
            ) is Some && b64_decode_of(request.aes_iv@) is None),
            r == Err::<Response, SidecarError>(SidecarError::CipherInit) <==> (b64_decode_of(
                request.aes_key@,
            ) is Some && b64_decode_of(request.aes_iv@) is Some && b64_decode_of(
                request.aes_key@,
            ).unwrap().len() != 32),
            r == Err::<Response, SidecarError>(SidecarError::EncryptFailed) <==> (b64_decode_of(
                request.aes_key@,
            ) is Some && b64_decode_of(request.aes_iv@) is Some && b64_decode_of(
                request.aes_key@,
            ).unwrap().len() == 32 && (b64_decode_of(request.aes_iv@).unwrap().len() != 12
                || encode_utf8(request.value@).len() > AES_GCM_P_MAX)),
            encrypt_request_well_formed(request) ==> (r is Ok || r == Err::<
                Response,
                SidecarError,
            >(SidecarError::RsaFailed)),
            r is Ok ==> {
                &&& b64_decode_of(request.aes_key@) is Some
                &&& b64_decode_of(request.aes_iv@) is Some
                &&& r.unwrap() matches Response::Encrypt { encrypted, public_key } && encrypted@
                    == b64_encode_of(
                    aes_gcm_seal_of(
                        b64_decode_of(request.aes_key@).unwrap(),
                        b64_decode_of(request.aes_iv@).unwrap(),
                        encode_utf8(request.value@),
                    ),
                )
            },
    {
        let aes_key = match b64_decode(request.aes_key.as_str()) {
            Some(v) => v,
            None => {
                return Err(SidecarError::BadKeyEncoding);
            },
        };
        let aes_iv = match b64_decode(request.aes_iv.as_str()) {
            Some(v) => v,
            None => {
                return Err(SidecarError::BadIvEncoding);
            },
        };
        let encrypted_data = match self.encrypt_aes(
            request.value.as_str().as_bytes(),
            aes_key.as_slice(),
            aes_iv.as_slice(),
        ) {
            Ok(c) => c,
            Err(e) => {
                return Err(e);
            },
        };
        let encrypted_key = match self.encrypt_rsa(aes_key.as_slice()) {
            Ok(c) => c,
            Err(e) => {
                return Err(e);
            },
        };
        Ok(
            Response::Encrypt {
                encrypted: b64_encode(encrypted_data.as_slice()),
                public_key: b64_encode(encrypted_key.as_slice()),
            },
        )
    }

    /// Serves an id request with a fresh random UUID in text form.
    pub fn generate_uuid(&self) -> (r: Response)
        ensures
            r matches Response::Uuid { uuid } && uuid@.len() == 36,
    {
        Response::Uuid { uuid: generate_uuid_string() }
    }

    /// Serves a password-hash request: the lowercase hex SHA-256 of the
    /// password's UTF-8 bytes. Unsalted by contract; see the protocol's
    /// notes before relying on it for anything.
    pub fn hash_password(&self, password: String) -> (r: Response)
        ensures
            r matches Response::HashedPassword { hash } && hash@ == hex_of(
                sha256_of(encode_utf8(password@)),
            ),
    {
        let hash = sha256_hex(password.as_str().as_bytes());
        Response::HashedPassword { hash }
    }

    /// Serves a room-key request: base64 of 32 fresh random bytes, decoding
    /// back to exactly those bytes.
    pub fn generate_room_key(&self) -> (r: Response)
        ensures
            r matches Response::RoomKey { key } && key@.len() == 44 && exists|b: Seq<u8>|
                b.len() == 32 && key@ == b64_encode_of(b) && b64_decode_of(key@) == Some(b),
    {
        let key_bytes = random_bytes(32);
        let ghost b = key_bytes@;
        let key = b64_encode(key_bytes.as_slice());
        proof {
            assert(key@.len() == 44);
            assert(b.len() == 32 && key@ == b64_encode_of(b) && b64_decode_of(key@) == Some(b));
        }
        Response::RoomKey { key }
    }

    /// Serves one request; exactly one response or error per request, and a
    /// well-formed encryption request fails only if the RSA wrap refuses.
    pub fn process_request(&self, request: Request) -> (r: Result<Response, SidecarError>)
        ensures
            match request {
                Request::Encrypt(req) => {
                    &&& (r == Err::<Response, SidecarError>(SidecarError::BadKeyEncoding)
                        <==> b64_decode_of(req.aes_key@) is None)
                    &&& (r == Err::<Response, SidecarError>(SidecarError::BadIvEncoding)
                        <==> (b64_decode_of(req.aes_key@) is Some && b64_decode_of(
                        req.aes_iv@,
                    ) is None))
                    &&& (encrypt_request_well_formed(req) ==> (r is Ok || r == Err::<
                        Response,
                        SidecarError,
                    >(SidecarError::RsaFailed)))
                    &&& (r is Ok ==> (r.unwrap() matches Response::Encrypt {
                        encrypted,
                        public_key,
                    } && encrypted@ == b64_encode_of(
                        aes_gcm_seal_of(
                            b64_decode_of(req.aes_key@).unwrap(),
                            b64_decode_of(req.aes_iv@).unwrap(),
                            encode_utf8(req.value@),
                        ),
                    )))
                },
                Request::GenerateUuid => r is Ok && (r.unwrap() matches Response::Uuid {
                    uuid,
                } && uuid@.len() == 36),
                Request::HashPassword { password } => r is Ok && (r.unwrap()
                    matches Response::HashedPassword { hash } && hash@ == hex_of(
                    sha256_of(encode_utf8(password@)),
                )),
                Request::GenerateRoomKey => r is Ok && (r.unwrap() matches Response::RoomKey {
                    key,
                } && key@.len() == 44),
            },
    {
        match request {
            Request::Encrypt(req) => self.process_encrypt_request(req),
            Request::GenerateUuid => Ok(self.generate_uuid()),
            Request::HashPassword { password } => Ok(self.hash_password(password)),
            Request::GenerateRoomKey => Ok(self.generate_room_key()),
        }
    }
}

} // verus!
