//! Hashing and signature checks, computed by outside crates.
use vstd::prelude::*;
use crate::error::Error;

verus! {

/// The 32-byte Blake2b digest (no key, no personalization) of `data`.
pub uninterp spec fn blake2b_256(data: Seq<u8>) -> Seq<u8>;

/// Whether `sig` (DER) is a valid secp256k1 ECDSA signature of the prehashed `digest`
/// under the SEC1-encoded public key `key`.
pub uninterp spec fn ecdsa_accepts(digest: Seq<u8>, sig: Seq<u8>, key: Seq<u8>) -> bool;

/// Relies on blake2b_rs::Blake2bBuilder (`new(32)`, `build`, `update`, `finalize`): the digest
/// depends on the input bytes alone and fills the 32-byte output.
#[verifier::external_body]
fn blake2b_digest(data: &[u8]) -> (r: Vec<u8>)
    ensures
        r@ == blake2b_256(data@),
        r@.len() == 32,
{
    let mut result = [0u8; 32];
    let mut hasher = blake2b_rs::Blake2bBuilder::new(32).build();
    hasher.update(data);
    hasher.finalize(&mut result);
    result.to_vec()
}

/// Relies on k256's ECDSA verification: `ecdsa::Signature::from_der`,
/// `ecdsa::VerifyingKey::from_sec1_bytes` and `PrehashVerifier::verify_prehash`. The answer
/// depends on the three byte strings alone; a signature or key that does not decode is
/// not accepted.
#[verifier::external_body]
fn ecdsa_verify_prehash(digest: &[u8], sig: &[u8], key: &[u8]) -> (r: bool)
    ensures
        r == ecdsa_accepts(digest@, sig@, key@),
{
    match (k256::ecdsa::Signature::from_der(sig), k256::ecdsa::VerifyingKey::from_sec1_bytes(key)) {
        (Ok(s), Ok(k)) => {
            k256::ecdsa::signature::hazmat::PrehashVerifier::verify_prehash(&k, digest, &s).is_ok()
        },
        _ => false,
    }
}

/// Blake2b-256 of `data`.
pub fn blake2b256(data: &[u8]) -> (r: Vec<u8>)
    ensures
        r@ == blake2b_256(data@),
        r@.len() == 32,
{
    blake2b_digest(data)
}

/// Checks a DER signature on a 32-byte digest under a SEC1-encoded public key.
pub fn verify_signature(msg_hash: &[u8], sig: &[u8], key: &[u8]) -> (r: Result<(), Error>)
    ensures
        r is Ok <==> ecdsa_accepts(msg_hash@, sig@, key@),
        r is Err ==> r->Err_0 == Error::SignatureVerificationError,
{
    if ecdsa_verify_prehash(msg_hash, sig, key) {
        Ok(())
    } else {
        Err(Error::SignatureVerificationError)
    }
}

} // verus!
