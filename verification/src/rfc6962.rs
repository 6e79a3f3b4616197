//! The hashes, tree hash and proofs of RFC 6962, written out as the RFC
//! defines them over SHA-256, and the laws that the library's hashing,
//! tree hash, audit paths, consistency proofs and signing payload follow
//! them byte for byte.
use vstd::prelude::*;
use vstd::arithmetic::power2::*;
use crate::hash::{sha256, spec_leaf_hash, spec_node_hash};
use crate::merkle::mth_spec;
use crate::proofs::{
    consistency_proof_spec, consistency_verifies, inclusion_verifies, lemma_consistency_complete,
    lemma_inclusion_path_complete, path_spec, subproof_spec,
};
use crate::sth::{be64, payload_spec};
use crate::tree_math::{lemma_pow2_step, lemma_split_point_bounds, lemma_split_point_unique, split_point};

verus! {

// ---------------------------------------------------------------------------
// Hashing and the signing payload, byte by byte
// ---------------------------------------------------------------------------

/// The leaf hash of `data` is the SHA-256 digest of the message whose first
/// byte is 0x00 and whose remaining bytes are `data`.
pub proof fn lemma_leaf_hash_message(data: Seq<u8>, msg: Seq<u8>)
    requires
        msg.len() == data.len() + 1,
        msg[0] == 0x00u8,
        forall|i: int| 0 <= i < data.len() ==> msg[i + 1] == data[i],
    ensures
        spec_leaf_hash(data) == sha256(msg),
{
    assert(msg =~= seq![0x00u8] + data);
}

/// The hash of an interior node with 32-byte children `left` and `right`
/// is the SHA-256 digest of the 65-byte message whose byte 0 is 0x01,
/// bytes 1..33 are `left` and bytes 33..65 are `right`.
pub proof fn lemma_node_hash_message(left: Seq<u8>, right: Seq<u8>, msg: Seq<u8>)
    requires
        left.len() == 32,
        right.len() == 32,
        msg.len() == 65,
        msg[0] == 0x01u8,
        forall|i: int| 0 <= i < 32 ==> msg[1 + i] == left[i],
        forall|i: int| 0 <= i < 32 ==> msg[33 + i] == right[i],
    ensures
        spec_node_hash(left, right) == sha256(msg),
{
    assert(msg =~= seq![0x01u8] + left + right);
}

/// Byte `j` (of 8) of the big-endian form of `x`.
pub open spec fn be_byte(x: u64, j: int) -> u8 {
    (x >> ((56 - 8 * j) as u64)) as u8
}

/// The signing payload has 48 bytes: the tree size big-endian, then the
/// 32-byte root, then the timestamp (as its two's-complement 64 bits)
/// big-endian.
pub proof fn lemma_payload_bytes(tree_size: u64, root: Seq<u8>, timestamp_ns: i64)
    requires
        root.len() == 32,
    ensures
        payload_spec(tree_size, root, timestamp_ns).len() == 48,
        forall|j: int|
            0 <= j < 8 ==> #[trigger] payload_spec(tree_size, root, timestamp_ns)[j] == be_byte(
                tree_size,
                j,
            ),
        forall|i: int| 0 <= i < 32 ==> payload_spec(tree_size, root, timestamp_ns)[8 + i] == root[i],
        forall|j: int|
            0 <= j < 8 ==> payload_spec(tree_size, root, timestamp_ns)[40 + j] == #[trigger] be_byte(
                timestamp_ns as u64,
                j,
            ),
{
    let p = payload_spec(tree_size, root, timestamp_ns);
    let t = timestamp_ns as u64;
    let hi = be64(tree_size);
    let lo = be64(t);
    assert(p.subrange(0, 8) =~= hi);
    assert(p.subrange(8, 40) =~= root);
    assert(p.subrange(40, 48) =~= lo);
    assert forall|j: int| 0 <= j < 8 implies #[trigger] p[j] == be_byte(tree_size, j) by {
        assert(p[j] == p.subrange(0, 8)[j]);
        lemma_be64_byte(tree_size, j);
    }
    assert forall|i: int| 0 <= i < 32 implies p[8 + i] == root[i] by {
        assert(p[8 + i] == p.subrange(8, 40)[i]);
    }
    assert forall|j: int| 0 <= j < 8 implies p[40 + j] == #[trigger] be_byte(t, j) by {
        assert(p[40 + j] == p.subrange(40, 48)[j]);
        lemma_be64_byte(t, j);
    }
}

/// Byte `j` of `be64(x)` is `be_byte(x, j)`.
proof fn lemma_be64_byte(x: u64, j: int)
    requires
        0 <= j < 8,
    ensures
        be64(x)[j] == be_byte(x, j),
{
    if j == 0 {
        assert(((56 - 8 * j) as u64) == 56u64);
    } else if j == 1 {
        assert(((56 - 8 * j) as u64) == 48u64);
    } else if j == 2 {
        assert(((56 - 8 * j) as u64) == 40u64);
    } else if j == 3 {
        assert(((56 - 8 * j) as u64) == 32u64);
    } else if j == 4 {
        assert(((56 - 8 * j) as u64) == 24u64);
    } else if j == 5 {
        assert(((56 - 8 * j) as u64) == 16u64);
    } else if j == 6 {
        assert(((56 - 8 * j) as u64) == 8u64);
    } else {
        assert(((56 - 8 * j) as u64) == 0u64);
        assert(x >> 0u64 == x) by (bit_vector);
    }
}

// ---------------------------------------------------------------------------
// The tree hash and the proofs as RFC 6962 writes them
// ---------------------------------------------------------------------------

/// The largest power of two smaller than `n` (for `n >= 2`): 1 for two
/// leaves, and twice that of half the size (rounded up) beyond.
pub open spec fn rfc_split(n: nat) -> nat
    decreases n,
{
    if n <= 2 {
        1
    } else {
        2 * rfc_split((n + 1) / 2)
    }
}

/// `rfc_split(n)` is a power of two `k` with `k < n <= 2k`.
pub proof fn lemma_rfc_split(n: nat)
    requires
        n >= 2,
    ensures
        exists|e: nat| #[trigger] pow2(e) == rfc_split(n) && pow2(e) < n <= pow2(e + 1),
        1 <= rfc_split(n) < n <= 2 * rfc_split(n),
        rfc_split(n) == split_point(n),
    decreases n,
{
    lemma_pow2_step(0);
    if n <= 2 {
        lemma_pow2_step(1);
        assert(pow2(0) == rfc_split(n));
        lemma_split_point_unique(n, 0);
    } else {
        let c = ((n + 1) / 2) as nat;
        lemma_rfc_split(c);
        let e = choose|e: nat| #[trigger] pow2(e) == rfc_split(c) && pow2(e) < c <= pow2(e + 1);
        lemma_pow2_step(e);
        lemma_pow2_step(e + 1);
        assert(pow2(e + 1) == rfc_split(n));
        lemma_split_point_unique(n, e + 1);
    }
}

/// MTH(D[n]) for `n >= 1` leaf hashes: the leaf hash itself for one leaf,
/// else SHA-256(0x01 || MTH(D[0:k]) || MTH(D[k:n])).
pub open spec fn rfc_mth(d: Seq<[u8; 32]>) -> Seq<u8>
    decreases d.len(),
{
    if d.len() == 0 {
        seq![]
    } else if d.len() == 1 {
        d[0]@
    } else {
        proof {
            lemma_rfc_split(d.len());
        }
        let k = rfc_split(d.len()) as int;
        sha256(seq![0x01u8] + rfc_mth(d.take(k)) + rfc_mth(d.skip(k)))
    }
}

/// PATH(m, D[n]): empty for one leaf; else PATH(m, D[0:k]) : MTH(D[k:n])
/// when m < k, and PATH(m - k, D[k:n]) : MTH(D[0:k]) otherwise.
pub open spec fn rfc_path(d: Seq<[u8; 32]>, m: nat) -> Seq<Seq<u8>>
    decreases d.len(),
{
    if d.len() <= 1 {
        seq![]
    } else {
        proof {
            lemma_rfc_split(d.len());
        }
        let k = rfc_split(d.len());
        if m < k {
            rfc_path(d.take(k as int), m) + seq![rfc_mth(d.skip(k as int))]
        } else {
            rfc_path(d.skip(k as int), (m - k) as nat) + seq![rfc_mth(d.take(k as int))]
        }
    }
}

/// SUBPROOF(m, D[n], b) for 0 < m <= n: empty (b) or {MTH(D[n])} (not b)
/// when m == n; else SUBPROOF(m, D[0:k], b) : MTH(D[k:n]) when m <= k, and
/// SUBPROOF(m - k, D[k:n], false) : MTH(D[0:k]) when m > k.
pub open spec fn rfc_subproof(d: Seq<[u8; 32]>, m: nat, b: bool) -> Seq<Seq<u8>>
    decreases d.len(),
{
    if m == d.len() {
        if b {
            seq![]
        } else {
            seq![rfc_mth(d)]
        }
    } else if m == 0 || m > d.len() || d.len() <= 1 {
        seq![]
    } else {
        proof {
            lemma_rfc_split(d.len());
        }
        let k = rfc_split(d.len());
        if m <= k {
            rfc_subproof(d.take(k as int), m, b) + seq![rfc_mth(d.skip(k as int))]
        } else {
            rfc_subproof(d.skip(k as int), (m - k) as nat, false) + seq![rfc_mth(d.take(k as int))]
        }
    }
}

/// PROOF(m, D[n]) = SUBPROOF(m, D[n], true).
pub open spec fn rfc_proof(d: Seq<[u8; 32]>, m: nat) -> Seq<Seq<u8>> {
    rfc_subproof(d, m, true)
}

/// The library's tree hash is MTH of RFC 6962 on every non-empty list of
/// leaf hashes.
pub proof fn lemma_mth_is_rfc(d: Seq<[u8; 32]>)
    ensures
        mth_spec(d) == rfc_mth(d),
    decreases d.len(),
{
    if d.len() >= 2 {
        lemma_rfc_split(d.len());
        lemma_split_point_bounds(d.len());
        let k = split_point(d.len()) as int;
        lemma_mth_is_rfc(d.take(k));
        lemma_mth_is_rfc(d.skip(k));
    }
}

/// The library's audit path of leaf `m` is PATH(m, D[n]) of RFC 6962, and
/// it verifies leaf `m` against MTH(D[n]).
pub proof fn lemma_path_is_rfc(d: Seq<[u8; 32]>, m: nat)
    requires
        m < d.len(),
    ensures
        path_spec(d, m) == rfc_path(d, m),
        inclusion_verifies(d[m as int]@, m, d.len(), rfc_path(d, m), rfc_mth(d)),
    decreases d.len(),
{
    lemma_path_equal(d, m);
    lemma_inclusion_path_complete(d, m);
    lemma_mth_is_rfc(d);
}

proof fn lemma_path_equal(d: Seq<[u8; 32]>, m: nat)
    ensures
        path_spec(d, m) == rfc_path(d, m),
    decreases d.len(),
{
    if d.len() >= 2 {
        lemma_rfc_split(d.len());
        lemma_split_point_bounds(d.len());
        let k = split_point(d.len());
        if m < k {
            lemma_path_equal(d.take(k as int), m);
            lemma_mth_is_rfc(d.skip(k as int));
            assert(path_spec(d, m) =~= rfc_path(d, m));
        } else {
            lemma_path_equal(d.skip(k as int), (m - k) as nat);
            lemma_mth_is_rfc(d.take(k as int));
            assert(path_spec(d, m) =~= rfc_path(d, m));
        }
    }
}

proof fn lemma_subproof_equal(d: Seq<[u8; 32]>, m: nat, b: bool)
    ensures
        subproof_spec(d, m, b) == rfc_subproof(d, m, b),
    decreases d.len(),
{
    if m == d.len() {
        lemma_mth_is_rfc(d);
    } else if m == 0 || m > d.len() || d.len() <= 1 {
    } else {
        lemma_rfc_split(d.len());
        lemma_split_point_bounds(d.len());
        let k = split_point(d.len());
        if m <= k {
            lemma_subproof_equal(d.take(k as int), m, b);
            lemma_mth_is_rfc(d.skip(k as int));
            assert(subproof_spec(d, m, b) =~= rfc_subproof(d, m, b));
        } else {
            lemma_subproof_equal(d.skip(k as int), (m - k) as nat, false);
            lemma_mth_is_rfc(d.take(k as int));
            assert(subproof_spec(d, m, b) =~= rfc_subproof(d, m, b));
        }
    }
}

/// The library's consistency proof from the first `m` of `n` leaves to all
/// of them is PROOF(m, D[n]) of RFC 6962, and the library's verifier (core
/// and client) accepts that proof against MTH(D[0:m]) and MTH(D[n]).
pub proof fn lemma_consistency_proof_is_rfc(d: Seq<[u8; 32]>, m: nat)
    requires
        0 < m <= d.len(),
    ensures
        consistency_proof_spec(d, m) == rfc_proof(d, m),
        consistency_verifies(m, d.len(), rfc_proof(d, m), rfc_mth(d.take(m as int)), rfc_mth(d)),
{
    lemma_subproof_equal(d, m, true);
    lemma_consistency_complete(d, m);
    lemma_mth_is_rfc(d);
    lemma_mth_is_rfc(d.take(m as int));
}

} // verus!
