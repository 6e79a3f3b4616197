//! The witness node: it checks a pushed signed tree head, counter-signs it
//! with its own key, and archives the first head it receives for each tree
//! size.
use vstd::prelude::*;
use std::collections::BTreeMap;
use crate::bytes::{array32, array64};
use crate::crypto::{ed25519_public_key, ed25519_signature, ed25519_verifies, ed25519_verifies_strict};
use crate::hex_codec::{hex_decode, hex_decoding, hex_encode, hex_encoding, hex_valid, lemma_hex_round_trip};
use crate::sth::{payload_spec, sign_tree_head};
use crate::storage::types::SignedTreeHead;
use crate::storage::verify::verify_sth;

verus! {

/// A signed tree head pushed to the witness: the byte fields as hex text.
pub struct PushBody {
    pub tree_size: u64,
    pub root_hash: String,
    pub timestamp_ns: i64,
    pub signature: String,
    pub public_key: String,
    pub key_version: u32,
}

/// The witness's answer: its counter-signature and public key, as hex text.
pub struct PushResponse {
    pub counter_signature: String,
    pub public_key: String,
}

/// An archived head as served: the byte fields as hex text.
pub struct ArchivedSth {
    pub tree_size: u64,
    pub root_hash: String,
    pub timestamp_ns: i64,
    pub signature: String,
    pub public_key: String,
    pub key_version: u32,
}

impl ArchivedSth {
    /// The served form of an archived head.
    pub fn from(s: &SignedTreeHead) -> (a: ArchivedSth)
        ensures
            a.tree_size == s.tree_size,
            a.root_hash@ == hex_encoding(s.root_hash@),
            a.timestamp_ns == s.timestamp_ns,
            a.signature@ == hex_encoding(s.signature@),
            a.public_key@ == hex_encoding(s.public_key@),
            a.key_version == s.key_version,
    {
        ArchivedSth {
            tree_size: s.tree_size,
            root_hash: hex_encode(s.root_hash.as_slice()),
            timestamp_ns: s.timestamp_ns,
            signature: hex_encode(s.signature.as_slice()),
            public_key: hex_encode(s.public_key.as_slice()),
            key_version: s.key_version,
        }
    }
}

/// A push body that reads as a signed tree head: hex fields of 32, 64 and
/// 32 bytes.
pub open spec fn push_body_ok(b: PushBody) -> bool {
    &&& hex_valid(b.root_hash@)
    &&& hex_valid(b.signature@)
    &&& hex_valid(b.public_key@)
    &&& hex_decoding(b.root_hash@).len() == 32
    &&& hex_decoding(b.signature@).len() == 64
    &&& hex_decoding(b.public_key@).len() == 32
}

/// The head a push body reads as.
pub open spec fn is_pushed_head(s: SignedTreeHead, b: PushBody) -> bool {
    &&& s.tree_size == b.tree_size
    &&& s.root_hash@ == hex_decoding(b.root_hash@)
    &&& s.timestamp_ns == b.timestamp_ns
    &&& s.signature@ == hex_decoding(b.signature@)
    &&& s.public_key@ == hex_decoding(b.public_key@)
    &&& s.key_version == b.key_version
}

/// The signed tree head a push body carries, if it is well formed.
pub fn decode_push_body(b: &PushBody) -> (r: Option<SignedTreeHead>)
    ensures
        r is Some <==> push_body_ok(*b),
        r matches Some(s) ==> is_pushed_head(s, *b),
{
    let root_hash_bytes = match hex_decode(b.root_hash.as_str()) {
        Ok(v) => v,
        Err(_) => {
            return None;
        },
    };
    let signature_bytes = match hex_decode(b.signature.as_str()) {
        Ok(v) => v,
        Err(_) => {
            return None;
        },
    };
    let public_key_bytes = match hex_decode(b.public_key.as_str()) {
        Ok(v) => v,
        Err(_) => {
            return None;
        },
    };
    let root_hash = match array32(root_hash_bytes.as_slice()) {
        Some(h) => h,
        None => {
            return None;
        },
    };
    let signature = match array64(signature_bytes.as_slice()) {
        Some(s) => s,
        None => {
            return None;
        },
    };
    let public_key = match array32(public_key_bytes.as_slice()) {
        Some(k) => k,
        None => {
            return None;
        },
    };
    Some(
        SignedTreeHead {
            tree_size: b.tree_size,
            root_hash,
            timestamp_ns: b.timestamp_ns,
            signature,
            public_key,
            key_version: b.key_version,
        },
    )
}

/// Why a push was refused: the answer is a bad request either way.
#[derive(PartialEq, Eq, Structural, Debug, Clone, Copy)]
pub enum PushRejected {
    Malformed,
    BadSignature,
}

/// A witness: its signing key (the 32-byte secret seed) and its archive of
/// heads by tree size.
pub struct NodeState {
    pub signing_key: [u8; 32],
    pub archive: BTreeMap<u64, SignedTreeHead>,
}

/// The archive after a valid head was pushed: the first head received for
/// a tree size is the one kept.
pub open spec fn archive_after_push(
    archive: Map<u64, SignedTreeHead>,
    sth: SignedTreeHead,
) -> Map<u64, SignedTreeHead> {
    if archive.contains_key(sth.tree_size) {
        archive
    } else {
        archive.insert(sth.tree_size, sth)
    }
}

/// Handles a push: a malformed body or a head whose signature does not
/// verify (strictly) under its own key is refused and changes nothing;
/// otherwise the head is counter-signed with the witness's key over the
/// same payload, archived unless a head of that size already is, and the
/// counter-signature and the witness's public key are returned as hex.
pub fn push(state: &mut NodeState, body: &PushBody) -> (r: Result<PushResponse, PushRejected>)
    ensures
        final(state).signing_key == old(state).signing_key,
        !push_body_ok(*body) ==> r == Err::<PushResponse, PushRejected>(PushRejected::Malformed)
            && final(state).archive@ == old(state).archive@,
        push_body_ok(*body) ==> exists|s: SignedTreeHead|
            {
                &&& #[trigger] is_pushed_head(s, *body)
                &&& if ed25519_verifies_strict(
                    s.public_key@,
                    payload_spec(s.tree_size, s.root_hash@, s.timestamp_ns),
                    s.signature@,
                ) {
                    &&& r matches Ok(resp) && resp.counter_signature@ == hex_encoding(
                        ed25519_signature(
                            old(state).signing_key@,
                            payload_spec(s.tree_size, s.root_hash@, s.timestamp_ns),
                        ),
                    ) && resp.public_key@ == hex_encoding(
                        ed25519_public_key(old(state).signing_key@),
                    )
                    &&& ed25519_verifies(
                        ed25519_public_key(old(state).signing_key@),
                        payload_spec(s.tree_size, s.root_hash@, s.timestamp_ns),
                        ed25519_signature(
                            old(state).signing_key@,
                            payload_spec(s.tree_size, s.root_hash@, s.timestamp_ns),
                        ),
                    )
                    &&& final(state).archive@ == archive_after_push(old(state).archive@, s)
                } else {
                    &&& r == Err::<PushResponse, PushRejected>(PushRejected::BadSignature)
                    &&& final(state).archive@ == old(state).archive@
                }
            },
{
    let sth = match decode_push_body(body) {
        Some(s) => s,
        None => {
            return Err(PushRejected::Malformed);
        },
    };
    if !verify_sth(&sth) {
        return Err(PushRejected::BadSignature);
    }
    let counter_sig = sign_tree_head(
        &state.signing_key,
        sth.tree_size,
        &sth.root_hash,
        sth.timestamp_ns,
    );
    let node_public_key = crate::crypto::ed25519_public_key_of(&state.signing_key);
    let ghost pushed = sth;
    if !state.archive.contains_key(&sth.tree_size) {
        state.archive.insert(sth.tree_size, sth);
    }
    assert(is_pushed_head(pushed, *body));
    Ok(
        PushResponse {
            counter_signature: hex_encode(counter_sig.as_slice()),
            public_key: hex_encode(node_public_key.as_slice()),
        },
    )
}

/// The archived head of a tree size, as served, if one was received.
pub fn archive_get(state: &NodeState, tree_size: u64) -> (r: Option<ArchivedSth>)
    ensures
        r is Some <==> state.archive@.contains_key(tree_size),
        r matches Some(a) ==> {
            let s = state.archive@[tree_size];
            &&& a.tree_size == s.tree_size
            &&& a.root_hash@ == hex_encoding(s.root_hash@)
            &&& a.timestamp_ns == s.timestamp_ns
            &&& a.signature@ == hex_encoding(s.signature@)
            &&& a.public_key@ == hex_encoding(s.public_key@)
            &&& a.key_version == s.key_version
        },
{
    match state.archive.get(&tree_size) {
        Some(s) => Some(ArchivedSth::from(s)),
        None => None,
    }
}

/// A head pushed in its hex form reads back at the witness as the same
/// head: the body is well formed and decodes to no other head.
pub proof fn lemma_push_body_round_trip(s: SignedTreeHead, b: PushBody)
    requires
        b.tree_size == s.tree_size,
        b.root_hash@ == hex_encoding(s.root_hash@),
        b.timestamp_ns == s.timestamp_ns,
        b.signature@ == hex_encoding(s.signature@),
        b.public_key@ == hex_encoding(s.public_key@),
        b.key_version == s.key_version,
    ensures
        push_body_ok(b),
        forall|t: SignedTreeHead| #[trigger] is_pushed_head(t, b) ==> t == s,
{
    lemma_hex_round_trip(s.root_hash@);
    lemma_hex_round_trip(s.signature@);
    lemma_hex_round_trip(s.public_key@);
    assert forall|t: SignedTreeHead| #[trigger] is_pushed_head(t, b) implies t == s by {
        assert forall|i: int| 0 <= i < 32 implies t.root_hash[i] == s.root_hash[i] by {
            assert(t.root_hash@[i] == s.root_hash@[i]);
        }
        assert forall|i: int| 0 <= i < 64 implies t.signature[i] == s.signature[i] by {
            assert(t.signature@[i] == s.signature@[i]);
        }
        assert forall|i: int| 0 <= i < 32 implies t.public_key[i] == s.public_key[i] by {
            assert(t.public_key@[i] == s.public_key@[i]);
        }
        assert(t.root_hash =~= s.root_hash);
        assert(t.signature =~= s.signature);
        assert(t.public_key =~= s.public_key);
    }
}

} // verus!
