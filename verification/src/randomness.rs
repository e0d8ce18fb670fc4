//! Random values from the `rand` and `uuid` crates. Nothing is stated of the
//! drawn values beyond their shape: callers must hold for every outcome.

use vstd::prelude::*;

verus! {

/// Relies on rand's `OsRng::fill_bytes`: fills exactly `n` bytes from the
/// operating system's secure generator.
#[verifier::external_body]
pub(crate) fn random_bytes(n: usize) -> (r: Vec<u8>)
    ensures
        r@.len() == n,
{
    let mut buf = vec![0u8; n];
    rand::RngCore::fill_bytes(&mut rand::rngs::OsRng, &mut buf);
    buf
}

/// Relies on uuid's `Uuid::new_v4` and its text form: a random version-4
/// UUID rendered as 36 hyphenated ASCII characters.
#[verifier::external_body]
pub(crate) fn generate_uuid_string() -> (r: String)
    ensures
        r@.len() == 36,
{
    uuid::Uuid::new_v4().to_string()
}

/// Relies on rand's `Alphanumeric` distribution: exactly `n` random ASCII
/// letters or digits.
#[verifier::external_body]
pub(crate) fn random_alphanumeric(n: usize) -> (r: String)
    ensures
        r@.len() == n,
{
    rand::Rng::sample_iter(rand::thread_rng(), &rand::distributions::Alphanumeric)
        .take(n)
        .map(char::from)
        .collect()
}

} // verus!
