//! The server's signing key and the periodic signing of the tree head.
use vstd::prelude::*;
use crate::crypto::{ed25519_public_key, ed25519_public_key_of, ed25519_signature, ed25519_verifies};
use crate::merkle::{mth_spec, MerkleTree};
use crate::sth::{payload_spec, sign_tree_head};
use crate::storage::keys::KeyRecord;
use crate::storage::types::SignedTreeHead;

verus! {

/// Something that signs tree-head payloads and names its key.
pub trait Signer: Send + Sync {
    fn sign(&self, payload: &[u8; 48]) -> [u8; 64];

    fn public_key(&self) -> [u8; 32];

    fn key_version(&self) -> u32;
}

/// An Ed25519 signing key (its 32-byte secret seed) and its version.
pub struct SigningIdentity {
    pub seed: [u8; 32],
    pub version: u32,
}

impl SigningIdentity {
    /// The signature of a payload under this key.
    pub fn sign_payload(&self, payload: &[u8; 48]) -> (sig: [u8; 64])
        ensures
            sig@ == ed25519_signature(self.seed@, payload@),
            ed25519_verifies(ed25519_public_key(self.seed@), payload@, sig@),
    {
        crate::crypto::ed25519_sign(&self.seed, payload.as_slice())
    }

    /// The public key of this key.
    pub fn public_key_bytes(&self) -> (pk: [u8; 32])
        ensures
            pk@ == ed25519_public_key(self.seed@),
    {
        ed25519_public_key_of(&self.seed)
    }
}

impl Signer for SigningIdentity {
    fn sign(&self, payload: &[u8; 48]) -> (sig: [u8; 64])
        ensures
            sig@ == ed25519_signature(self.seed@, payload@),
    {
        self.sign_payload(payload)
    }

    fn public_key(&self) -> (pk: [u8; 32])
        ensures
            pk@ == ed25519_public_key(self.seed@),
    {
        self.public_key_bytes()
    }

    fn key_version(&self) -> (v: u32)
        ensures
            v == self.version,
    {
        self.version
    }
}

/// The head `identity` signs for a tree of `tree_size` leaves with root
/// `root`, at `timestamp_ns`.
pub open spec fn is_signed_head(
    sth: SignedTreeHead,
    identity: SigningIdentity,
    tree_size: u64,
    root: Seq<u8>,
    timestamp_ns: i64,
) -> bool {
    &&& sth.tree_size == tree_size
    &&& sth.root_hash@ == root
    &&& sth.timestamp_ns == timestamp_ns
    &&& sth.signature@ == ed25519_signature(identity.seed@, payload_spec(tree_size, root, timestamp_ns))
    &&& sth.public_key@ == ed25519_public_key(identity.seed@)
    &&& sth.key_version == identity.version
}

/// One signing round: nothing while the tree is empty or when the latest
/// stored head (`latest_size`, read only for a non-empty tree) already has
/// this size; otherwise the head of the current tree, signed at
/// `timestamp_ns`, to be stored.
pub fn sign_and_store(
    identity: &SigningIdentity,
    merkle: &MerkleTree,
    latest_size: Option<u64>,
    timestamp_ns: i64,
) -> (r: Option<SignedTreeHead>)
    requires
        merkle.wf(),
    ensures
        r is Some <==> merkle@.len() > 0 && latest_size != Some(merkle@.len() as u64),
        r matches Some(sth) ==> is_signed_head(
            sth,
            *identity,
            merkle@.len() as u64,
            mth_spec(merkle@),
            timestamp_ns,
        ),
        r matches Some(sth) ==> ed25519_verifies(
            sth.public_key@,
            payload_spec(sth.tree_size, sth.root_hash@, sth.timestamp_ns),
            sth.signature@,
        ),
{
    let tree_size = merkle.size();
    let root_hash = match merkle.root() {
        Some(h) => h,
        None => {
            return None;
        },
    };
    match latest_size {
        Some(n) => {
            if n == tree_size {
                return None;
            }
        },
        None => {},
    }
    let signature = sign_tree_head(&identity.seed, tree_size, &root_hash, timestamp_ns);
    Some(
        SignedTreeHead {
            tree_size,
            root_hash,
            timestamp_ns,
            signature,
            public_key: identity.public_key_bytes(),
            key_version: identity.version,
        },
    )
}

/// The version of the key to sign with at startup, and whether the key
/// store must first be seeded: the latest stored version, or version 1 in
/// an empty store.
pub fn startup_key_version(latest: &Option<KeyRecord>) -> (r: (u32, bool))
    ensures
        r == match *latest {
            Some(k) => (k.version, false),
            None => (1u32, true),
        },
{
    match latest {
        Some(k) => (k.version, false),
        None => (1, true),
    }
}

/// The record seeding an empty key store: version 1, active from the
/// start of the log.
pub fn seed_key_record(public_key: [u8; 32]) -> (r: KeyRecord)
    ensures
        r.version == 1,
        r.public_key == public_key,
        r.activated_at_tree_size == 0,
{
    KeyRecord { version: 1, public_key, activated_at_tree_size: 0 }
}

/// The record of a rotated key: the next version, active from the current
/// tree size.
pub fn rotation_record(current_version: u32, new_public_key: [u8; 32], tree_size: u64) -> (r:
    KeyRecord)
    requires
        current_version < u32::MAX,
    ensures
        r.version == current_version + 1,
        r.public_key == new_public_key,
        r.activated_at_tree_size == tree_size,
{
    KeyRecord {
        version: current_version + 1,
        public_key: new_public_key,
        activated_at_tree_size: tree_size,
    }
}

} // verus!
