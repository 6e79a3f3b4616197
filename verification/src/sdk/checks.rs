//! Standalone verification of inclusion proofs, consistency proofs and
//! signed tree heads.
use vstd::prelude::*;
use vstd::arithmetic::power2::*;
use crate::crypto::{ed25519_verifies, ed25519_verify};
use crate::hash::{spec_leaf_hash, spec_node_hash};
use crate::proofs::{
    consistency_verifies, hash_seqs, hashes_equal, inclusion_verifies, subproof_roots,
};
use crate::sth::payload_spec;
use crate::bytes::{array32, array64};
use crate::tree_math::{split_point, lemma_pow2_step, lemma_split_point_unique, lemma_split_point_bounds};

verus! {

/// Returns SHA-256(0x00 || data).
pub fn leaf_hash(data: &[u8]) -> (h: [u8; 32])
    ensures
        h@ == spec_leaf_hash(data@),
{
    crate::hash::leaf_hash(data)
}

/// Returns SHA-256(0x01 || left || right).
pub fn node_hash(left: &[u8; 32], right: &[u8; 32]) -> (h: [u8; 32])
    ensures
        h@ == spec_node_hash(left@, right@),
{
    crate::hash::node_hash(left, right)
}

/// Largest power of 2 strictly less than n. Requires n > 1.
fn split(n: u64) -> (p: u64)
    requires
        1 < n,
    ensures
        p == split_point(n as nat),
{
    let mut p = 1u64;
    let ghost mut e: nat = 0;
    proof {
        lemma_pow2_step(0);
        lemma2_to64();
    }
    // Doubling `p` while `2p < n`, written so that it cannot overflow.
    while p < n - p
        invariant
            p == pow2(e),
            (p as nat) < n,
        decreases n - p,
    {
        proof {
            lemma_pow2_step(e);
            lemma2_to64();
            assert(p * 2 < n);
            vstd::bits::lemma_u64_shl_is_mul(p, 1u64);
        }
        p <<= 1;
        proof {
            e = e + 1;
        }
    }
    proof {
        lemma_pow2_step(e);
        lemma_split_point_unique(n as nat, e);
    }
    p
}

/// Verifies an RFC 6962 inclusion proof.
/// Returns true iff `leaf` at `leaf_index` in a tree of `tree_size` with
/// the given proof hashes produces `root`.
pub fn verify_inclusion(
    leaf: [u8; 32],
    leaf_index: u64,
    tree_size: u64,
    proof: &[[u8; 32]],
    root: [u8; 32],
) -> (ok: bool)
    ensures
        ok == inclusion_verifies(
            leaf@,
            leaf_index as nat,
            tree_size as nat,
            hash_seqs(proof@),
            root@,
        ),
{
    crate::proofs::verify_inclusion(&leaf, leaf_index, tree_size, proof, &root)
}

/// Verifies an RFC 6962 consistency proof.
/// Returns true iff the tree of `old_size` with root `old_root` is a prefix
/// of the tree of `new_size` with root `new_root`.
pub fn verify_consistency(
    old_size: u64,
    new_size: u64,
    proof: &[[u8; 32]],
    old_root: [u8; 32],
    new_root: [u8; 32],
) -> (ok: bool)
    ensures
        ok == consistency_verifies(
            old_size as nat,
            new_size as nat,
            hash_seqs(proof@),
            old_root@,
            new_root@,
        ),
{
    if old_size == new_size {
        return proof.len() == 0 && hashes_equal(&old_root, &new_root);
    }
    if old_size == 0 || old_size > new_size {
        return false;
    }
    let mut idx: usize = 0;
    proof {
        assert(hash_seqs(proof@).skip(0) =~= hash_seqs(proof@));
    }
    let result = verify_subproof(old_size, new_size, &old_root, proof, &mut idx, true);
    match result {
        Some((computed_old, computed_new)) => {
            idx == proof.len() && hashes_equal(&computed_old, &old_root) && hashes_equal(
                &computed_new,
                &new_root,
            )
        },
        None => false,
    }
}

/// Reads the next proof hash, if any, advancing the cursor.
fn next_hash(proof: &[[u8; 32]], idx: &mut usize) -> (h: Option<[u8; 32]>)
    requires
        *old(idx) <= proof@.len(),
    ensures
        *old(idx) == proof@.len() ==> h is None && *final(idx) == *old(idx),
        *old(idx) < proof@.len() ==> h == Some(proof@[*old(idx) as int]) && *final(idx) == *old(
            idx,
        ) + 1,
{
    if *idx >= proof.len() {
        return None;
    }
    let h = proof[*idx];
    *idx = *idx + 1;
    Some(h)
}

fn verify_subproof(
    m: u64,
    n: u64,
    old_root: &[u8; 32],
    proof: &[[u8; 32]],
    idx: &mut usize,
    b: bool,
) -> (r: Option<([u8; 32], [u8; 32])>)
    requires
        0 < m <= n,
        *old(idx) <= proof@.len(),
    ensures
        *final(idx) <= proof@.len(),
        match subproof_roots(m as nat, n as nat, old_root@, hash_seqs(proof@).skip(*old(idx) as int), b) {
            None => r is None,
            Some((o, nw, rest)) => r matches Some((ro, rn)) && ro@ == o && rn@ == nw && rest
                == hash_seqs(proof@).skip(*final(idx) as int),
        },
    decreases n,
{
    let ghost ps = hash_seqs(proof@);
    if m == n {
        if b {
            return Some((*old_root, *old_root));
        }
        let ghost start = *idx;
        let h = match next_hash(proof, idx) {
            Some(h) => h,
            None => {
                return None;
            },
        };
        assert(ps.skip(start as int).drop_first() =~= ps.skip(*idx as int));
        return Some((h, h));
    }
    proof {
        lemma_split_point_bounds(n as nat);
    }
    let sp = split(n);
    if m <= sp {
        let (lo, ln) = match verify_subproof(m, sp, old_root, proof, idx, b) {
            Some(x) => x,
            None => {
                return None;
            },
        };
        let ghost mid = *idx;
        let rh = match next_hash(proof, idx) {
            Some(h) => h,
            None => {
                return None;
            },
        };
        assert(ps.skip(mid as int)[0] == rh@);
        assert(ps.skip(mid as int).drop_first() =~= ps.skip(*idx as int));
        Some((lo, node_hash(&ln, &rh)))
    } else {
        let (ro, rn) = match verify_subproof(m - sp, n - sp, old_root, proof, idx, false) {
            Some(x) => x,
            None => {
                return None;
            },
        };
        let ghost mid = *idx;
        let lh = match next_hash(proof, idx) {
            Some(h) => h,
            None => {
                return None;
            },
        };
        assert(ps.skip(mid as int)[0] == lh@);
        assert(ps.skip(mid as int).drop_first() =~= ps.skip(*idx as int));
        Some((node_hash(&lh, &ro), node_hash(&lh, &rn)))
    }
}

/// Returns the canonical 48-byte signing payload for a Signed Tree Head.
/// Layout: tree_size (u64 BE, 8 bytes) || root_hash (32 bytes) || timestamp_ns (i64 BE, 8 bytes).
pub fn signing_payload(tree_size: u64, root_hash: [u8; 32], timestamp_ns: i64) -> (buf: [u8; 48])
    ensures
        buf@ == payload_spec(tree_size, root_hash@, timestamp_ns),
{
    crate::sth::signing_payload(tree_size, &root_hash, timestamp_ns)
}

/// A key chain record returned by `GET /api/keys`.
pub struct KeyRecord {
    pub version: u32,
    pub public_key: [u8; 32],
    pub activated_at_tree_size: u64,
}

/// What `verify_tree_head` decides: 32 key bytes, 64 signature bytes, and a
/// signature over the payload that the key accepts.
pub open spec fn tree_head_verifies(
    tree_size: u64,
    root_hash: Seq<u8>,
    timestamp_ns: i64,
    signature: Seq<u8>,
    public_key: Seq<u8>,
) -> bool {
    &&& public_key.len() == 32
    &&& signature.len() == 64
    &&& ed25519_verifies(public_key, payload_spec(tree_size, root_hash, timestamp_ns), signature)
}

/// Index of the first record of `chain` with the given version.
pub open spec fn first_with_version(chain: Seq<KeyRecord>, version: u32) -> Option<int> {
    if exists|i: int| 0 <= i < chain.len() && chain[i].version == version {
        Some(
            choose|i: int|
                0 <= i < chain.len() && chain[i].version == version && forall|j: int|
                    0 <= j < i ==> chain[j].version != version,
        )
    } else {
        None
    }
}

/// Some record before position `i` has the version, or `i` is the first.
proof fn lemma_first_version_exists(chain: Seq<KeyRecord>, version: u32, i: int)
    requires
        0 <= i < chain.len(),
        chain[i].version == version,
    ensures
        exists|w: int|
            0 <= w < chain.len() && chain[w].version == version && forall|j: int|
                0 <= j < w ==> chain[j].version != version,
    decreases i,
{
    if exists|j: int| 0 <= j < i && chain[j].version == version {
        let j = choose|j: int| 0 <= j < i && chain[j].version == version;
        lemma_first_version_exists(chain, version, j);
    } else {
        assert(forall|j: int| 0 <= j < i ==> chain[j].version != version);
    }
}

/// The record a key chain gives for a version is the first record with
/// that version, and there is none exactly when no record has it.
pub proof fn lemma_first_with_version_finds_first(chain: Seq<KeyRecord>, version: u32)
    ensures
        match first_with_version(chain, version) {
            Some(i) => {
                &&& 0 <= i < chain.len()
                &&& chain[i].version == version
                &&& forall|j: int| 0 <= j < i ==> chain[j].version != version
            },
            None => forall|j: int| 0 <= j < chain.len() ==> chain[j].version != version,
        },
{
    if exists|i: int| 0 <= i < chain.len() && chain[i].version == version {
        let i = choose|i: int| 0 <= i < chain.len() && chain[i].version == version;
        lemma_first_version_exists(chain, version, i);
    }
}

/// Verifies an STH against a key chain. Finds the record whose `version` matches
/// `key_version` and verifies the signature with that record's public key.
pub fn verify_tree_head_with_chain(
    tree_size: u64,
    root_hash: [u8; 32],
    timestamp_ns: i64,
    signature: &[u8],
    key_version: u32,
    chain: &[KeyRecord],
) -> (ok: bool)
    ensures
        ok == (match first_with_version(chain@, key_version) {
            Some(i) => tree_head_verifies(
                tree_size,
                root_hash@,
                timestamp_ns,
                signature@,
                chain@[i].public_key@,
            ),
            None => false,
        }),
{
    let mut i: usize = 0;
    while i < chain.len()
        invariant
            i <= chain@.len(),
            forall|j: int| 0 <= j < i ==> chain@[j].version != key_version,
        decreases chain@.len() - i,
    {
        if chain[i].version == key_version {
            proof {
                let w = choose|w: int|
                    0 <= w < chain@.len() && chain@[w].version == key_version && forall|j: int|
                        0 <= j < w ==> chain@[j].version != key_version;
                assert(0 <= i < chain@.len() && chain@[i as int].version == key_version);
                if w < i {
                } else if w > i {
                    assert(chain@[i as int].version != key_version);
                }
                assert(w == i);
            }
            return verify_tree_head(
                tree_size,
                root_hash,
                timestamp_ns,
                signature,
                chain[i].public_key.as_slice(),
            );
        }
        i += 1;
    }
    false
}

/// Verifies an STH and enforces that its timestamp is strictly later than
/// `previous_timestamp_ns`. Returns false if `timestamp_ns <= previous_timestamp_ns`
/// or if the signature is invalid. Use this when processing a sequence of STHs to
/// guard against replayed or out-of-order tree heads.
pub fn verify_tree_head_sequential(
    tree_size: u64,
    root_hash: [u8; 32],
    timestamp_ns: i64,
    signature: &[u8],
    public_key: &[u8],
    previous_timestamp_ns: i64,
) -> (ok: bool)
    ensures
        ok == (timestamp_ns > previous_timestamp_ns && tree_head_verifies(
            tree_size,
            root_hash@,
            timestamp_ns,
            signature@,
            public_key@,
        )),
{
    if timestamp_ns <= previous_timestamp_ns {
        return false;
    }
    verify_tree_head(tree_size, root_hash, timestamp_ns, signature, public_key)
}

/// Verifies the Ed25519 signature on a Signed Tree Head.
/// `public_key` must be 32 raw bytes; `signature` must be 64 raw bytes.
pub fn verify_tree_head(
    tree_size: u64,
    root_hash: [u8; 32],
    timestamp_ns: i64,
    signature: &[u8],
    public_key: &[u8],
) -> (ok: bool)
    ensures
        ok == tree_head_verifies(tree_size, root_hash@, timestamp_ns, signature@, public_key@),
{
    let key_arr = match array32(public_key) {
        Some(k) => k,
        None => {
            return false;
        },
    };
    let sig_arr = match array64(signature) {
        Some(s) => s,
        None => {
            return false;
        },
    };
    let payload = signing_payload(tree_size, root_hash, timestamp_ns);
    ed25519_verify(&key_arr, payload.as_slice(), &sig_arr)
}

} // verus!
