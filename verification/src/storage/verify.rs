//! Signature check of a stored signed tree head.
use vstd::prelude::*;
use crate::crypto::{ed25519_verifies_strict, ed25519_verify_strict};
use crate::sth::{payload_spec, signing_payload};
use crate::storage::types::SignedTreeHead;

verus! {

/// Verify the Ed25519 signature on a SignedTreeHead (strict verification).
pub fn verify_sth(sth: &SignedTreeHead) -> (ok: bool)
    ensures
        ok == ed25519_verifies_strict(
            sth.public_key@,
            payload_spec(sth.tree_size, sth.root_hash@, sth.timestamp_ns),
            sth.signature@,
        ),
{
    let payload = signing_payload(sth.tree_size, &sth.root_hash, sth.timestamp_ns);
    ed25519_verify_strict(&sth.public_key, payload.as_slice(), &sth.signature)
}

} // verus!
