//! SHA-256 digests through the `sha2` crate.

use vstd::prelude::*;

verus! {

use crate::encoding::{hex_of, lemma_hex_of_len, to_hex};

/// What `sha2::Sha256::digest` returns: the 32-byte SHA-256 digest of the
/// input, a function of the input bytes alone.
pub uninterp spec fn sha256_of(bytes: Seq<u8>) -> Seq<u8>;

/// Relies on sha2's `Sha256::digest`: a deterministic function of the input
/// bytes whose result is always 32 bytes long.
#[verifier::external_body]
pub(crate) fn sha256_bytes(bytes: &[u8]) -> (r: Vec<u8>)
    ensures
        r@ == sha256_of(bytes@),
        r@.len() == 32,
{
    <sha2::Sha256 as sha2::Digest>::digest(bytes).to_vec()
}

/// The lowercase hex rendering of the SHA-256 digest of the input, always
/// 64 characters long.
pub fn sha256_hex(bytes: &[u8]) -> (r: String)
    ensures
        r@ == hex_of(sha256_of(bytes@)),
        r@.len() == 64,
{
    let digest = sha256_bytes(bytes);
    let r = to_hex(digest.as_slice());
    proof {
        lemma_hex_of_len(sha256_of(bytes@));
    }
    r
}

} // verus!
