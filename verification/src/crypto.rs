//! Ed25519 key derivation, signing and verification through `ed25519-dalek`.
use vstd::prelude::*;

verus! {

/// The public key that `ed25519-dalek` derives from a 32-byte secret seed.
pub uninterp spec fn ed25519_public_key(seed: Seq<u8>) -> Seq<u8>;

/// The (deterministic) Ed25519 signature of `msg` under the secret seed.
pub uninterp spec fn ed25519_signature(seed: Seq<u8>, msg: Seq<u8>) -> Seq<u8>;

/// Whether `VerifyingKey::verify` accepts `sig` on `msg` for the key bytes
/// `public_key` (false when the bytes are not a curve point).
pub uninterp spec fn ed25519_verifies(public_key: Seq<u8>, msg: Seq<u8>, sig: Seq<u8>) -> bool;

/// Whether `VerifyingKey::verify_strict` accepts `sig` on `msg` for the key
/// bytes `public_key` (false when the bytes are not a curve point).
pub uninterp spec fn ed25519_verifies_strict(public_key: Seq<u8>, msg: Seq<u8>, sig: Seq<u8>) -> bool;

/// Calls `SigningKey::verifying_key` on the key built from `seed`.
///
/// Trusted: the result is the public key of the seed, named
/// `ed25519_public_key`.
#[verifier::external_body]
pub(crate) fn ed25519_public_key_of(seed: &[u8; 32]) -> (public_key: [u8; 32])
    ensures
        public_key@ == ed25519_public_key(seed@),
{
    ed25519_dalek::SigningKey::from_bytes(seed).verifying_key().to_bytes()
}

/// Calls `Signer::sign` of `SigningKey` (built from `seed`) on `msg`.
///
/// Trusted: the result is the signature named `ed25519_signature`, and, as
/// the crate documents for a signature made with a key, `verify` with that
/// key's public key accepts it.  Nothing is claimed of `verify_strict`.
#[verifier::external_body]
pub(crate) fn ed25519_sign(seed: &[u8; 32], msg: &[u8]) -> (sig: [u8; 64])
    ensures
        sig@ == ed25519_signature(seed@, msg@),
        ed25519_verifies(ed25519_public_key(seed@), msg@, sig@),
{
    let key = ed25519_dalek::SigningKey::from_bytes(seed);
    <ed25519_dalek::SigningKey as ed25519_dalek::Signer<ed25519_dalek::Signature>>::sign(
        &key,
        msg,
    ).to_bytes()
}

/// Calls `Verifier::verify` of `VerifyingKey` (parsed from `public_key`),
/// answering false when the key bytes do not parse.
///
/// Trusted: the answer is the one named `ed25519_verifies`.
#[verifier::external_body]
pub(crate) fn ed25519_verify(public_key: &[u8; 32], msg: &[u8], sig: &[u8; 64]) -> (ok: bool)
    ensures
        ok == ed25519_verifies(public_key@, msg@, sig@),
{
    match ed25519_dalek::VerifyingKey::from_bytes(public_key) {
        Ok(vk) => <ed25519_dalek::VerifyingKey as ed25519_dalek::Verifier<
            ed25519_dalek::Signature,
        >>::verify(&vk, msg, &ed25519_dalek::Signature::from_bytes(sig)).is_ok(),
        Err(_) => false,
    }
}

/// Calls `VerifyingKey::verify_strict` (key parsed from `public_key`),
/// answering false when the key bytes do not parse.
///
/// Trusted: the answer is the one named `ed25519_verifies_strict`.
#[verifier::external_body]
pub(crate) fn ed25519_verify_strict(public_key: &[u8; 32], msg: &[u8], sig: &[u8; 64]) -> (ok:
    bool)
    ensures
        ok == ed25519_verifies_strict(public_key@, msg@, sig@),
{
    match ed25519_dalek::VerifyingKey::from_bytes(public_key) {
        Ok(vk) => vk.verify_strict(msg, &ed25519_dalek::Signature::from_bytes(sig)).is_ok(),
        Err(_) => false,
    }
}

} // verus!
