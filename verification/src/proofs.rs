//! RFC 6962 inclusion and consistency proofs: generation and verification.
use vstd::prelude::*;
use vstd::arithmetic::power2::*;
use crate::hash::{node_hash, sha256, spec_node_hash};
use crate::merkle::{mth, mth_spec};
use crate::tree_math::{split_point, lemma_split_point_bounds, lemma_pow2_step, lemma_split_point_unique};
use crate::text::{decimal_text, push_decimal, push_text};

verus! {

#[derive(Debug)]
pub enum ProofError {
    LeafIndexOutOfRange(u64, u64),
    InvalidSizes(u64, u64),
    TooShort,
    TooLong,
}

/// The text of a proof error.
pub open spec fn proof_error_text(e: ProofError) -> Seq<char> {
    match e {
        ProofError::LeafIndexOutOfRange(i, n) => "leaf index "@ + decimal_text(i as nat)
            + " out of range for tree size "@ + decimal_text(n as nat),
        ProofError::InvalidSizes(m, n) => "invalid tree sizes: old="@ + decimal_text(m as nat)
            + " new="@ + decimal_text(n as nat),
        ProofError::TooShort => "proof too short"@,
        ProofError::TooLong => "proof too long"@,
    }
}

impl ProofError {
    /// The error's text.
    pub fn message(&self) -> (s: String)
        ensures
            s@ == proof_error_text(*self),
    {
        let mut s = String::new();
        match self {
            ProofError::LeafIndexOutOfRange(i, n) => {
                push_text(&mut s, "leaf index ");
                push_decimal(&mut s, *i);
                push_text(&mut s, " out of range for tree size ");
                push_decimal(&mut s, *n);
            },
            ProofError::InvalidSizes(m, n) => {
                push_text(&mut s, "invalid tree sizes: old=");
                push_decimal(&mut s, *m);
                push_text(&mut s, " new=");
                push_decimal(&mut s, *n);
            },
            ProofError::TooShort => {
                push_text(&mut s, "proof too short");
            },
            ProofError::TooLong => {
                push_text(&mut s, "proof too long");
            },
        }
        assert(s@ =~= proof_error_text(*self));
        s
    }
}

/// The byte strings of a list of hashes.
pub open spec fn hash_seqs(p: Seq<[u8; 32]>) -> Seq<Seq<u8>> {
    p.map_values(|h: [u8; 32]| h@)
}

// ---------------------------------------------------------------------------
// Inclusion proof
// ---------------------------------------------------------------------------

/// RFC 6962 PATH(m, D[n]): sibling hashes from the leaf up to the root.
pub open spec fn path_spec(s: Seq<[u8; 32]>, m: nat) -> Seq<Seq<u8>>
    decreases s.len(),
{
    if s.len() <= 1 {
        seq![]
    } else {
        proof {
            lemma_split_point_bounds(s.len());
        }
        let k = split_point(s.len());
        if m < k {
            path_spec(s.take(k as int), m).push(mth_spec(s.skip(k as int)))
        } else {
            path_spec(s.skip(k as int), (m - k) as nat).push(mth_spec(s.take(k as int)))
        }
    }
}

/// The root that an audit path for leaf `m` of a tree of `n` leaves leads
/// to, or None when the path has the wrong length for that position.
pub open spec fn inclusion_root(leaf: Seq<u8>, m: nat, n: nat, proof: Seq<Seq<u8>>) -> Option<
    Seq<u8>,
>
    decreases n,
{
    if n <= 1 {
        if n == 1 && proof.len() == 0 {
            Some(leaf)
        } else {
            None
        }
    } else if proof.len() == 0 {
        None
    } else {
        proof {
            lemma_split_point_bounds(n);
        }
        let k = split_point(n);
        if m < k {
            match inclusion_root(leaf, m, k, proof.drop_last()) {
                Some(r) => Some(spec_node_hash(r, proof.last())),
                None => None,
            }
        } else {
            match inclusion_root(leaf, (m - k) as nat, (n - k) as nat, proof.drop_last()) {
                Some(r) => Some(spec_node_hash(proof.last(), r)),
                None => None,
            }
        }
    }
}

/// What `verify_inclusion` decides: the index lies in the tree and the
/// proof leads from the leaf hash to the root.
pub open spec fn inclusion_verifies(
    leaf: Seq<u8>,
    leaf_index: nat,
    tree_size: nat,
    proof: Seq<Seq<u8>>,
    root: Seq<u8>,
) -> bool {
    &&& tree_size > 0
    &&& leaf_index < tree_size
    &&& inclusion_root(leaf, leaf_index, tree_size, proof) == Some(root)
}

/// Shifting the index and last index right together while the index is a
/// nonzero even number.
spec fn promote(f: nat, s: nat) -> (nat, nat)
    decreases f,
{
    if f != 0 && f % 2 == 0 {
        promote(f / 2, s / 2)
    } else {
        (f, s)
    }
}

/// The bottom-up walk of the verifier over the proof: `f` is the node index
/// and `sn` the last index at the current level.
spec fn walk(f: nat, sn: nat, r: Seq<u8>, proof: Seq<Seq<u8>>) -> Option<Seq<u8>>
    decreases proof.len(),
{
    if proof.len() == 0 {
        if sn == 0 {
            Some(r)
        } else {
            None
        }
    } else if sn == 0 {
        None
    } else if f % 2 == 1 || f == sn {
        let (f2, s2) = promote(f, sn);
        walk(f2 / 2, s2 / 2, spec_node_hash(proof[0], r), proof.drop_first())
    } else {
        walk(f / 2, sn / 2, spec_node_hash(r, proof[0]), proof.drop_first())
    }
}

spec fn wrap_left(o: Option<Seq<u8>>, p: Seq<u8>) -> Option<Seq<u8>> {
    match o {
        Some(x) => Some(spec_node_hash(p, x)),
        None => None,
    }
}

spec fn wrap_right(o: Option<Seq<u8>>, p: Seq<u8>) -> Option<Seq<u8>> {
    match o {
        Some(x) => Some(spec_node_hash(x, p)),
        None => None,
    }
}

proof fn lemma_promote_pow2(m: nat)
    ensures
        promote(pow2(m), pow2(m)) == (1nat, 1nat),
    decreases m,
{
    lemma_pow2_step(0);
    if m > 0 {
        lemma_pow2_step((m - 1) as nat);
        lemma_promote_pow2((m - 1) as nat);
    }
}

/// Promotion of an index inside the right part of a node at offset `2^m`
/// mirrors promotion of the offset-free index.
proof fn lemma_promote_offset(m: nat, a: nat, b: nat) -> (e: nat)
    requires
        0 < a <= b < pow2(m),
    ensures
        1 <= e <= m,
        promote(pow2(m) + a, pow2(m) + b) == (pow2(e) + promote(a, b).0, pow2(e) + promote(
            a,
            b,
        ).1),
        promote(a, b).0 % 2 == 1,
        promote(a, b).0 <= promote(a, b).1 < pow2(e),
    decreases m,
{
    lemma_pow2_step(0);
    if m == 0 {
        assert(false);
    }
    lemma_pow2_step((m - 1) as nat);
    if a % 2 == 1 {
        m
    } else {
        if m == 1 {
            assert(false);
        }
        let e = lemma_promote_offset((m - 1) as nat, a / 2, b / 2);
        assert((pow2(m) + a) / 2 == pow2((m - 1) as nat) + a / 2);
        assert((pow2(m) + b) / 2 == pow2((m - 1) as nat) + b / 2);
        e
    }
}

/// An index in the right subtree of a node at offset `2^m`: the walk is the
/// walk inside the subtree followed by the left sibling at the end.
proof fn lemma_walk_right(m: nat, a: nat, b: nat, r: Seq<u8>, proof: Seq<Seq<u8>>)
    requires
        a <= b < pow2(m),
        proof.len() >= 1,
    ensures
        walk(pow2(m) + a, pow2(m) + b, r, proof) == wrap_left(
            walk(a, b, r, proof.drop_last()),
            proof.last(),
        ),
    decreases proof.len(),
{
    lemma_pow2_step(0);
    let c = pow2(m);
    let p0 = proof[0];
    let rest = proof.drop_first();
    let dl = proof.drop_last();
    if b == 0 {
        lemma_promote_pow2(m);
        assert(walk(c + a, c + b, r, proof) == walk(0, 0, spec_node_hash(p0, r), rest));
        if proof.len() == 1 {
            assert(dl.len() == 0);
        }
    } else {
        if m == 0 {
            assert(false);
        }
        lemma_pow2_step((m - 1) as nat);
        let c2 = pow2((m - 1) as nat);
        assert(c == 2 * c2);
        assert(((c + a) % 2 == 1) == (a % 2 == 1));
        if a % 2 == 1 || a == b {
            let e = lemma_promote_offset(m, a, b);
            let (a2, b2) = promote(a, b);
            lemma_pow2_step((e - 1) as nat);
            assert((pow2(e) + a2) / 2 == pow2((e - 1) as nat) + a2 / 2);
            assert((pow2(e) + b2) / 2 == pow2((e - 1) as nat) + b2 / 2);
            assert(walk(c + a, c + b, r, proof) == walk(
                pow2((e - 1) as nat) + a2 / 2,
                pow2((e - 1) as nat) + b2 / 2,
                spec_node_hash(p0, r),
                rest,
            ));
            if proof.len() == 1 {
                assert(rest.len() == 0);
            } else {
                assert(dl[0] == p0);
                assert(dl.drop_first() =~= rest.drop_last());
                assert(walk(a, b, r, dl) == walk(a2 / 2, b2 / 2, spec_node_hash(p0, r), dl.drop_first()));
                lemma_walk_right((e - 1) as nat, a2 / 2, b2 / 2, spec_node_hash(p0, r), rest);
            }
        } else {
            assert((c + a) / 2 == c2 + a / 2);
            assert((c + b) / 2 == c2 + b / 2);
            assert(walk(c + a, c + b, r, proof) == walk(
                c2 + a / 2,
                c2 + b / 2,
                spec_node_hash(r, p0),
                rest,
            ));
            if proof.len() == 1 {
                assert(rest.len() == 0);
            } else {
                assert(dl[0] == p0);
                assert(dl.drop_first() =~= rest.drop_last());
                assert(walk(a, b, r, dl) == walk(a / 2, b / 2, spec_node_hash(r, p0), dl.drop_first()));
                lemma_walk_right((m - 1) as nat, a / 2, b / 2, spec_node_hash(r, p0), rest);
            }
        }
    }
}

/// An index in the complete left subtree of `2^m` leaves: the walk is the
/// walk inside that subtree followed by the right sibling at the end.
proof fn lemma_walk_left(m: nat, a: nat, sn: nat, r: Seq<u8>, proof: Seq<Seq<u8>>)
    requires
        a < pow2(m) <= sn < 2 * pow2(m),
        proof.len() >= 1,
    ensures
        walk(a, sn, r, proof) == wrap_right(
            walk(a, (pow2(m) - 1) as nat, r, proof.drop_last()),
            proof.last(),
        ),
    decreases proof.len(),
{
    lemma_pow2_step(0);
    let c = pow2(m);
    let p0 = proof[0];
    let rest = proof.drop_first();
    let dl = proof.drop_last();
    if m == 0 {
        assert(a == 0 && sn == 1);
        assert(walk(a, sn, r, proof) == walk(0, 0, spec_node_hash(r, p0), rest));
        if proof.len() == 1 {
            assert(dl.len() == 0);
        }
    } else {
        lemma_pow2_step((m - 1) as nat);
        let c2 = pow2((m - 1) as nat);
        assert(c == 2 * c2);
        let h = if a % 2 == 1 {
            spec_node_hash(p0, r)
        } else {
            spec_node_hash(r, p0)
        };
        assert(promote(a, sn) == (a, sn) || a % 2 == 0);
        assert(walk(a, sn, r, proof) == walk(a / 2, sn / 2, h, rest));
        if proof.len() == 1 {
            assert(rest.len() == 0);
        } else {
            assert(dl[0] == p0);
            assert(dl.drop_first() =~= rest.drop_last());
            assert((c - 1) as nat / 2 == (c2 - 1) as nat);
            assert(walk(a, (c - 1) as nat, r, dl) == walk(a / 2, (c2 - 1) as nat, h, dl.drop_first()));
            lemma_walk_left((m - 1) as nat, a / 2, sn / 2, h, rest);
        }
    }
}

/// The bottom-up walk of the verifier computes the top-down audit-path root.
proof fn lemma_walk_is_inclusion_root(i: nat, n: nat, leaf: Seq<u8>, proof: Seq<Seq<u8>>)
    requires
        i < n,
    ensures
        walk(i, (n - 1) as nat, leaf, proof) == inclusion_root(leaf, i, n, proof),
    decreases n,
{
    if n >= 2 && proof.len() > 0 {
        lemma_split_point_bounds(n);
        let k = split_point(n);
        let e = (crate::tree_math::bit_len((n - 1) as nat) - 1) as nat;
        lemma_pow2_step(e);
        if i < k {
            lemma_walk_left(e, i, (n - 1) as nat, leaf, proof);
            lemma_walk_is_inclusion_root(i, k, leaf, proof.drop_last());
        } else {
            lemma_walk_right(e, (i - k) as nat, (n - 1 - k) as nat, leaf, proof);
            assert(k + (i - k) == i);
            lemma_walk_is_inclusion_root((i - k) as nat, (n - k) as nat, leaf, proof.drop_last());
        }
    }
}

/// Two different inputs with the same SHA-256 digest: a collision.
pub open spec fn sha256_collision(a: Seq<u8>, b: Seq<u8>) -> bool {
    a != b && sha256(a) == sha256(b)
}

/// Some SHA-256 collision exists.
pub open spec fn sha256_collides() -> bool {
    exists|a: Seq<u8>, b: Seq<u8>| #[trigger] sha256_collision(a, b)
}

/// Every SHA-256 digest has 32 bytes.
pub open spec fn sha256_digests_32() -> bool {
    forall|a: Seq<u8>| (#[trigger] sha256(a)).len() == 32
}

/// Every hash of a proof has 32 bytes.
pub open spec fn hashes_32(p: Seq<Seq<u8>>) -> bool {
    forall|i: int| 0 <= i < p.len() ==> (#[trigger] p[i]).len() == 32
}

/// Equal node hashes of 32-byte children come from equal children, unless
/// SHA-256 collides.
proof fn lemma_node_hash_injective(a: Seq<u8>, b: Seq<u8>, c: Seq<u8>, d: Seq<u8>)
    requires
        a.len() == 32,
        b.len() == 32,
        c.len() == 32,
        d.len() == 32,
        spec_node_hash(a, b) == spec_node_hash(c, d),
    ensures
        (a == c && b == d) || sha256_collides(),
{
    let x = seq![0x01u8] + a + b;
    let y = seq![0x01u8] + c + d;
    assert(sha256(x) == sha256(y));
    if x != y {
        assert(sha256_collision(x, y));
        return;
    }
    assert(x.subrange(1, 33) =~= a);
    assert(y.subrange(1, 33) =~= c);
    assert(x.subrange(33, 65) =~= b);
    assert(y.subrange(33, 65) =~= d);
}

/// A root reached from a 32-byte leaf by a path of 32-byte hashes has 32
/// bytes.
proof fn lemma_inclusion_root_len(leaf: Seq<u8>, m: nat, n: nat, proof: Seq<Seq<u8>>)
    requires
        sha256_digests_32(),
        leaf.len() == 32,
    ensures
        inclusion_root(leaf, m, n, proof) matches Some(r) ==> r.len() == 32,
    decreases n,
{
    if n > 1 && proof.len() > 0 {
        lemma_split_point_bounds(n);
        let k = split_point(n);
        if m < k {
            lemma_inclusion_root_len(leaf, m, k, proof.drop_last());
        } else {
            lemma_inclusion_root_len(leaf, (m - k) as nat, (n - k) as nat, proof.drop_last());
        }
    }
}

/// An inclusion proof binds its leaf: two proofs of 32-byte hashes that
/// lead to the same root from the same index in trees of the same size
/// carry the same leaf hash (and are the same proof), unless SHA-256
/// collides.
pub proof fn lemma_inclusion_binding(
    leaf1: Seq<u8>,
    leaf2: Seq<u8>,
    m: nat,
    n: nat,
    proof1: Seq<Seq<u8>>,
    proof2: Seq<Seq<u8>>,
)
    requires
        sha256_digests_32(),
        leaf1.len() == 32,
        leaf2.len() == 32,
        hashes_32(proof1),
        hashes_32(proof2),
        inclusion_root(leaf1, m, n, proof1) is Some,
        inclusion_root(leaf1, m, n, proof1) == inclusion_root(leaf2, m, n, proof2),
    ensures
        (leaf1 == leaf2 && proof1 == proof2) || sha256_collides(),
    decreases n,
{
    if n > 1 {
        lemma_split_point_bounds(n);
        let k = split_point(n);
        let q1 = proof1.drop_last();
        let q2 = proof2.drop_last();
        assert(hashes_32(q1) && hashes_32(q2)) by {
            assert forall|i: int| 0 <= i < q1.len() implies (#[trigger] q1[i]).len() == 32 by {
                assert(q1[i] == proof1[i]);
            }
            assert forall|i: int| 0 <= i < q2.len() implies (#[trigger] q2[i]).len() == 32 by {
                assert(q2[i] == proof2[i]);
            }
        }
        assert(proof1.last() == proof1[proof1.len() - 1]);
        assert(proof2.last() == proof2[proof2.len() - 1]);
        if m < k {
            lemma_inclusion_root_len(leaf1, m, k, q1);
            lemma_inclusion_root_len(leaf2, m, k, q2);
            let r1 = inclusion_root(leaf1, m, k, q1)->0;
            let r2 = inclusion_root(leaf2, m, k, q2)->0;
            lemma_node_hash_injective(r1, proof1.last(), r2, proof2.last());
            if sha256_collides() {
                return;
            }
            lemma_inclusion_binding(leaf1, leaf2, m, k, q1, q2);
        } else {
            let m2 = (m - k) as nat;
            let n2 = (n - k) as nat;
            lemma_inclusion_root_len(leaf1, m2, n2, q1);
            lemma_inclusion_root_len(leaf2, m2, n2, q2);
            let r1 = inclusion_root(leaf1, m2, n2, q1)->0;
            let r2 = inclusion_root(leaf2, m2, n2, q2)->0;
            lemma_node_hash_injective(proof1.last(), r1, proof2.last(), r2);
            if sha256_collides() {
                return;
            }
            lemma_inclusion_binding(leaf1, leaf2, m2, n2, q1, q2);
        }
        if !sha256_collides() {
            assert(proof1 =~= q1.push(proof1.last()));
            assert(proof2 =~= q2.push(proof2.last()));
        }
    }
}

/// The root of a non-empty tree has 32 bytes when digests do.
proof fn lemma_mth_len(s: Seq<[u8; 32]>)
    requires
        sha256_digests_32(),
        s.len() > 0,
    ensures
        mth_spec(s).len() == 32,
{
    if s.len() > 1 {
        lemma_split_point_bounds(s.len());
    }
}

/// Every hash of an audit path has 32 bytes when digests do.
proof fn lemma_path_hashes_32(s: Seq<[u8; 32]>, m: nat)
    requires
        sha256_digests_32(),
    ensures
        hashes_32(path_spec(s, m)),
    decreases s.len(),
{
    if s.len() > 1 {
        lemma_split_point_bounds(s.len());
        let k = split_point(s.len());
        if m < k {
            lemma_path_hashes_32(s.take(k as int), m);
            lemma_mth_len(s.skip(k as int));
        } else {
            lemma_path_hashes_32(s.skip(k as int), (m - k) as nat);
            lemma_mth_len(s.take(k as int));
        }
        let p = path_spec(s, m);
        assert forall|i: int| 0 <= i < p.len() implies (#[trigger] p[i]).len() == 32 by {
            if i < p.len() - 1 {
                assert(p[i] == p.drop_last()[i]);
            }
        }
    }
}

/// A proof binds a leaf to its index: the audit path of one leaf does not
/// verify at another index whose stored leaf hash differs, unless SHA-256
/// collides.
pub proof fn lemma_proof_binds_index(s: Seq<[u8; 32]>, i: nat, j: nat)
    requires
        sha256_digests_32(),
        i < s.len(),
        j < s.len(),
        s[i as int]@ != s[j as int]@,
    ensures
        !inclusion_verifies(s[i as int]@, j, s.len(), path_spec(s, i), mth_spec(s))
            || sha256_collides(),
{
    if inclusion_verifies(s[i as int]@, j, s.len(), path_spec(s, i), mth_spec(s)) {
        lemma_inclusion_path_complete(s, j);
        lemma_path_hashes_32(s, i);
        lemma_path_hashes_32(s, j);
        lemma_inclusion_binding(
            s[i as int]@,
            s[j as int]@,
            j,
            s.len(),
            path_spec(s, i),
            path_spec(s, j),
        );
    }
}

/// Every leaf's audit path leads to the tree root, so the inclusion proof
/// of every leaf verifies against the root.
pub proof fn lemma_inclusion_path_complete(s: Seq<[u8; 32]>, m: nat)
    requires
        m < s.len(),
    ensures
        inclusion_root(s[m as int]@, m, s.len(), path_spec(s, m)) == Some(mth_spec(s)),
        inclusion_verifies(s[m as int]@, m, s.len(), path_spec(s, m), mth_spec(s)),
    decreases s.len(),
{
    if s.len() >= 2 {
        lemma_split_point_bounds(s.len());
        let k = split_point(s.len());
        let p = path_spec(s, m);
        if m < k {
            lemma_inclusion_path_complete(s.take(k as int), m);
            assert(p.drop_last() == path_spec(s.take(k as int), m));
        } else {
            lemma_inclusion_path_complete(s.skip(k as int), (m - k) as nat);
            assert(p.drop_last() == path_spec(s.skip(k as int), (m - k) as nat));
        }
    }
}

/// `x & 1` and `x >> 1` are the parity and half of `x`.
proof fn lemma_u64_low_bit(x: u64)
    ensures
        ((x & 1u64) != 0) == (x % 2 == 1),
        x >> 1u64 == x / 2,
{
    assert(((x & 1u64) != 0) == (x % 2 == 1)) by (bit_vector);
    assert(x >> 1u64 == x / 2) by (bit_vector);
}

/// Byte-wise equality of two hashes.
pub fn hashes_equal(a: &[u8; 32], b: &[u8; 32]) -> (eq: bool)
    ensures
        eq == (a@ == b@),
{
    let mut i: usize = 0;
    while i < 32
        invariant
            i <= 32,
            a@.len() == 32,
            b@.len() == 32,
            forall|j: int| 0 <= j < i ==> a@[j] == b@[j],
        decreases 32 - i,
    {
        if a[i] != b[i] {
            return false;
        }
        i += 1;
    }
    assert(a@ =~= b@);
    true
}

/// Verify an inclusion proof.
/// Returns true iff `leaf_hash` at index `leaf_index` in a tree of size
/// `tree_size` with the given `proof` produces `root`.
pub fn verify_inclusion(
    leaf_hash: &[u8; 32],
    leaf_index: u64,
    tree_size: u64,
    proof: &[[u8; 32]],
    root: &[u8; 32],
) -> (ok: bool)
    ensures
        ok == inclusion_verifies(
            leaf_hash@,
            leaf_index as nat,
            tree_size as nat,
            hash_seqs(proof@),
            root@,
        ),
{
    if tree_size == 0 || leaf_index >= tree_size {
        return false;
    }
    let ghost ps = hash_seqs(proof@);
    proof {
        lemma_walk_is_inclusion_root(leaf_index as nat, tree_size as nat, leaf_hash@, ps);
        assert(ps.skip(0) =~= ps);
    }

    let mut fn_ = leaf_index;
    let mut sn = tree_size - 1;
    let mut r = *leaf_hash;
    let mut idx: usize = 0;

    while idx < proof.len()
        invariant
            idx <= proof@.len(),
            ps == hash_seqs(proof@),
            fn_ <= sn,
            0 < tree_size,
            leaf_index < tree_size,
            walk(leaf_index as nat, (tree_size - 1) as nat, leaf_hash@, ps) == inclusion_root(
                leaf_hash@,
                leaf_index as nat,
                tree_size as nat,
                ps,
            ),
            walk(leaf_index as nat, (tree_size - 1) as nat, leaf_hash@, ps) == walk(
                fn_ as nat,
                sn as nat,
                r@,
                ps.skip(idx as int),
            ),
        decreases proof@.len() - idx,
    {
        let step = &proof[idx];
        let ghost rest = ps.skip(idx as int);
        assert(rest[0] == step@);
        assert(rest.drop_first() =~= ps.skip(idx + 1));
        if sn == 0 {
            assert(rest.len() > 0);
            assert(walk(fn_ as nat, sn as nat, r@, rest) is None);
            return false;
        }
        proof {
            lemma_u64_low_bit(fn_);
        }
        if (fn_ & 1) != 0 || fn_ == sn {
            r = node_hash(step, &r);
            let ghost target = promote(fn_ as nat, sn as nat);
            while fn_ != 0 && (fn_ & 1) == 0
                invariant
                    promote(fn_ as nat, sn as nat) == target,
                    fn_ <= sn,
                decreases fn_,
            {
                proof {
                    lemma_u64_low_bit(fn_);
                    lemma_u64_low_bit(sn);
                }
                fn_ >>= 1;
                sn >>= 1;
            }
            proof {
                lemma_u64_low_bit(fn_);
            }
        } else {
            r = node_hash(&r, step);
        }
        proof {
            lemma_u64_low_bit(fn_);
            lemma_u64_low_bit(sn);
        }
        fn_ >>= 1;
        sn >>= 1;
        idx += 1;
    }
    proof {
        assert(ps.skip(idx as int).len() == 0);
    }
    sn == 0 && hashes_equal(&r, root)
}


/// Largest power of 2 strictly less than n. Requires n > 1.
fn k(n: usize) -> (p: usize)
    requires
        n > 1,
    ensures
        p == split_point(n as nat),
        0 < p < n,
{
    proof {
        lemma_split_point_bounds(n as nat);
    }
    crate::merkle::k(n as u64) as usize
}

/// RFC 6962 PATH(m, D[n]).
/// Returns the sibling hashes from leaf to root for leaf at index `m`.
pub fn inclusion_proof(leaf_hashes: &[[u8; 32]], leaf_index: usize) -> (r: Result<
    Vec<[u8; 32]>,
    ProofError,
>)
    ensures
        leaf_index >= leaf_hashes@.len() ==> r == Err::<Vec<[u8; 32]>, ProofError>(
            ProofError::LeafIndexOutOfRange(leaf_index as u64, leaf_hashes@.len() as u64),
        ),
        leaf_index < leaf_hashes@.len() ==> (r matches Ok(p) && hash_seqs(p@) == path_spec(
            leaf_hashes@,
            leaf_index as nat,
        )),
{
    let n = leaf_hashes.len();
    if leaf_index >= n {
        return Err(ProofError::LeafIndexOutOfRange(leaf_index as u64, n as u64));
    }
    Ok(path(leaf_hashes, leaf_index))
}

fn path(leaf_hashes: &[[u8; 32]], m: usize) -> (p: Vec<[u8; 32]>)
    requires
        m < leaf_hashes@.len(),
    ensures
        hash_seqs(p@) == path_spec(leaf_hashes@, m as nat),
    decreases leaf_hashes@.len(),
{
    let n = leaf_hashes.len();
    if n == 1 {
        let p: Vec<[u8; 32]> = Vec::new();
        assert(hash_seqs(p@) =~= seq![]);
        return p;
    }
    let split = k(n);
    let (lo, hi) = leaf_hashes.split_at(split);
    assert(lo@ == leaf_hashes@.take(split as int));
    assert(hi@ == leaf_hashes@.skip(split as int));
    if m < split {
        let mut p = path(lo, m);
        let sibling = mth(hi).unwrap();
        let ghost before = p@;
        p.push(sibling);
        assert(hash_seqs(p@) =~= hash_seqs(before).push(sibling@));
        p
    } else {
        let mut p = path(hi, m - split);
        let sibling = mth(lo).unwrap();
        let ghost before = p@;
        p.push(sibling);
        assert(hash_seqs(p@) =~= hash_seqs(before).push(sibling@));
        p
    }
}

// ---------------------------------------------------------------------------
// Consistency proof
// ---------------------------------------------------------------------------

/// RFC 6962 SUBPROOF(m, D[n], b).
pub open spec fn subproof_spec(s: Seq<[u8; 32]>, m: nat, b: bool) -> Seq<Seq<u8>>
    decreases s.len(),
{
    if m == s.len() {
        if b {
            seq![]
        } else {
            seq![mth_spec(s)]
        }
    } else if m == 0 || m > s.len() || s.len() <= 1 {
        seq![]
    } else {
        proof {
            lemma_split_point_bounds(s.len());
        }
        let k = split_point(s.len());
        if m <= k {
            subproof_spec(s.take(k as int), m, b).push(mth_spec(s.skip(k as int)))
        } else {
            subproof_spec(s.skip(k as int), (m - k) as nat, false).push(mth_spec(s.take(k as int)))
        }
    }
}

/// RFC 6962 PROOF(m, D[n]): empty when the sizes are equal.
pub open spec fn consistency_proof_spec(s: Seq<[u8; 32]>, m: nat) -> Seq<Seq<u8>> {
    if m == s.len() {
        seq![]
    } else {
        subproof_spec(s, m, true)
    }
}

/// Rebuilds, from the front of `proof`, the roots of the old and the new
/// tree for SUBPROOF(m, D[n], b); also returns the unread rest of the proof.
/// With `b` set and `m == n` the shared subtree is the old tree itself.
pub open spec fn subproof_roots(m: nat, n: nat, old_root: Seq<u8>, proof: Seq<Seq<u8>>, b: bool) -> Option<
    (Seq<u8>, Seq<u8>, Seq<Seq<u8>>),
>
    decreases n,
{
    if m == n {
        if b {
            Some((old_root, old_root, proof))
        } else if proof.len() == 0 {
            None
        } else {
            Some((proof[0], proof[0], proof.drop_first()))
        }
    } else if m == 0 || m > n || n <= 1 {
        None
    } else {
        proof {
            lemma_split_point_bounds(n);
        }
        let k = split_point(n);
        if m <= k {
            match subproof_roots(m, k, old_root, proof, b) {
                None => None,
                Some((lo, ln, rest)) => if rest.len() == 0 {
                    None
                } else {
                    Some((lo, spec_node_hash(ln, rest[0]), rest.drop_first()))
                },
            }
        } else {
            match subproof_roots((m - k) as nat, (n - k) as nat, old_root, proof, false) {
                None => None,
                Some((ro, rn, rest)) => if rest.len() == 0 {
                    None
                } else {
                    Some(
                        (
                            spec_node_hash(rest[0], ro),
                            spec_node_hash(rest[0], rn),
                            rest.drop_first(),
                        ),
                    )
                },
            }
        }
    }
}

/// What `verify_consistency` decides.
pub open spec fn consistency_verifies(
    old_size: nat,
    new_size: nat,
    proof: Seq<Seq<u8>>,
    old_root: Seq<u8>,
    new_root: Seq<u8>,
) -> bool {
    if old_size == new_size {
        proof.len() == 0 && old_root == new_root
    } else if old_size == 0 || old_size > new_size {
        false
    } else {
        match subproof_roots(old_size, new_size, old_root, proof, true) {
            Some((o, n, rest)) => rest.len() == 0 && o == old_root && n == new_root,
            None => false,
        }
    }
}

/// RFC 6962 PROOF(old_size, D[new_size]).
/// `leaf_hashes` must contain all `new_size` leaves.
pub fn consistency_proof(leaf_hashes: &[[u8; 32]], old_size: usize) -> (r: Result<
    Vec<[u8; 32]>,
    ProofError,
>)
    ensures
        (old_size == 0 || old_size > leaf_hashes@.len()) ==> r == Err::<Vec<[u8; 32]>, ProofError>(
            ProofError::InvalidSizes(old_size as u64, leaf_hashes@.len() as u64),
        ),
        (0 < old_size <= leaf_hashes@.len()) ==> (r matches Ok(p) && hash_seqs(p@)
            == consistency_proof_spec(leaf_hashes@, old_size as nat)),
{
    let new_size = leaf_hashes.len();
    if old_size == 0 || old_size > new_size {
        return Err(ProofError::InvalidSizes(old_size as u64, new_size as u64));
    }
    if old_size == new_size {
        let p: Vec<[u8; 32]> = Vec::new();
        assert(hash_seqs(p@) =~= seq![]);
        return Ok(p);
    }
    Ok(subproof(leaf_hashes, old_size, true))
}

fn subproof(leaf_hashes: &[[u8; 32]], m: usize, b: bool) -> (p: Vec<[u8; 32]>)
    requires
        0 < m <= leaf_hashes@.len(),
    ensures
        hash_seqs(p@) == subproof_spec(leaf_hashes@, m as nat, b),
    decreases leaf_hashes@.len(),
{
    let n = leaf_hashes.len();
    if m == n {
        if b {
            let p: Vec<[u8; 32]> = Vec::new();
            assert(hash_seqs(p@) =~= seq![]);
            return p;
        } else {
            let mut p: Vec<[u8; 32]> = Vec::new();
            p.push(mth(leaf_hashes).unwrap());
            assert(hash_seqs(p@) =~= seq![mth_spec(leaf_hashes@)]);
            return p;
        }
    }
    let split = k(n);
    let (lo, hi) = leaf_hashes.split_at(split);
    assert(lo@ == leaf_hashes@.take(split as int));
    assert(hi@ == leaf_hashes@.skip(split as int));
    if m <= split {
        let mut p = subproof(lo, m, b);
        let sibling = mth(hi).unwrap();
        let ghost before = p@;
        p.push(sibling);
        assert(hash_seqs(p@) =~= hash_seqs(before).push(sibling@));
        p
    } else {
        let mut p = subproof(hi, m - split, false);
        let sibling = mth(lo).unwrap();
        let ghost before = p@;
        p.push(sibling);
        assert(hash_seqs(p@) =~= hash_seqs(before).push(sibling@));
        p
    }
}

/// Verify a consistency proof.
/// Uses the same recursive structure as proof generation so correctness
/// is straightforward to reason about.
pub fn verify_consistency(
    old_size: u64,
    new_size: u64,
    proof: &[[u8; 32]],
    old_root: &[u8; 32],
    new_root: &[u8; 32],
) -> (ok: bool)
    ensures
        ok == consistency_verifies(
            old_size as nat,
            new_size as nat,
            hash_seqs(proof@),
            old_root@,
            new_root@,
        ),
{
    if old_size == new_size {
        return proof.len() == 0 && hashes_equal(old_root, new_root);
    }
    if old_size == 0 || old_size > new_size {
        return false;
    }
    let mut pos: usize = 0;
    proof {
        assert(hash_seqs(proof@).skip(0) =~= hash_seqs(proof@));
    }
    match verify_subproof(old_size, new_size, old_root, proof, &mut pos, true) {
        Some((computed_old, computed_new)) => {
            pos == proof.len()  // proof fully consumed
             && hashes_equal(&computed_old, old_root) && hashes_equal(&computed_new, new_root)
        },
        None => false,
    }
}

/// Returns (reconstructed_old_root, reconstructed_new_root), or None on error.
/// With `b` set and `m == n` the shared subtree is `old_root` itself.
fn verify_subproof(
    m: u64,
    n: u64,
    old_root: &[u8; 32],
    proof: &[[u8; 32]],
    pos: &mut usize,
    b: bool,
) -> (r: Option<([u8; 32], [u8; 32])>)
    requires
        0 < m <= n,
        *old(pos) <= proof@.len(),
    ensures
        *final(pos) <= proof@.len(),
        match subproof_roots(m as nat, n as nat, old_root@, hash_seqs(proof@).skip(*old(pos) as int), b) {
            None => r is None,
            Some((o, nw, rest)) => r matches Some((ro, rn)) && ro@ == o && rn@ == nw && rest
                == hash_seqs(proof@).skip(*final(pos) as int),
        },
    decreases n,
{
    let ghost ps = hash_seqs(proof@);
    if m == n {
        if b {
            return Some((*old_root, *old_root));  // sentinel: shared subtree = old_root
        } else {
            if *pos >= proof.len() {
                return None;
            }
            let h = proof[*pos];
            *pos = *pos + 1;
            assert(ps.skip(*old(pos) as int).drop_first() =~= ps.skip(*pos as int));
            return Some((h, h));
        }
    }
    let split = crate::merkle::k(n);
    proof {
        lemma_split_point_bounds(n as nat);
    }
    if m <= split {
        let (lo, ln) = match verify_subproof(m, split, old_root, proof, pos, b) {
            Some(x) => x,
            None => {
                return None;
            },
        };
        if *pos >= proof.len() {
            return None;
        }
        let rh = proof[*pos];
        let ghost mid = *pos;
        *pos = *pos + 1;
        assert(ps.skip(mid as int)[0] == rh@);
        assert(ps.skip(mid as int).drop_first() =~= ps.skip(*pos as int));
        // lo == old_root when the recursion hit m==n with b=true (shared prefix)
        let actual_old = lo;
        let actual_new = node_hash(&ln, &rh);
        Some((actual_old, actual_new))
    } else {
        let (ro, rn) = match verify_subproof(m - split, n - split, old_root, proof, pos, false) {
            Some(x) => x,
            None => {
                return None;
            },
        };
        if *pos >= proof.len() {
            return None;
        }
        let lh = proof[*pos];
        let ghost mid = *pos;
        *pos = *pos + 1;
        assert(ps.skip(mid as int)[0] == lh@);
        assert(ps.skip(mid as int).drop_first() =~= ps.skip(*pos as int));
        Some((node_hash(&lh, &ro), node_hash(&lh, &rn)))
    }
}

/// The roots rebuilt from SUBPROOF(m, D, b) are the roots of the first `m`
/// leaves and of all of `D`; the rest of the proof is left unread.
proof fn lemma_subproof_roots_complete(
    d: Seq<[u8; 32]>,
    m: nat,
    b: bool,
    old_root: Seq<u8>,
    rest: Seq<Seq<u8>>,
)
    requires
        0 < m <= d.len(),
        b ==> old_root == mth_spec(d.take(m as int)),
    ensures
        subproof_roots(m, d.len(), old_root, subproof_spec(d, m, b) + rest, b) == Some(
            (mth_spec(d.take(m as int)), mth_spec(d), rest),
        ),
    decreases d.len(),
{
    let n = d.len();
    if m == n {
        assert(d.take(m as int) =~= d);
        if b {
            assert(subproof_spec(d, m, b) + rest =~= rest);
        } else {
            let full = subproof_spec(d, m, b) + rest;
            assert(full[0] == mth_spec(d));
            assert(full.drop_first() =~= rest);
        }
    } else {
        lemma_split_point_bounds(n);
        let k = split_point(n);
        let left = d.take(k as int);
        let right = d.skip(k as int);
        if m <= k {
            let sub = subproof_spec(left, m, b);
            let rest2 = seq![mth_spec(right)] + rest;
            assert(subproof_spec(d, m, b) + rest =~= sub + rest2);
            assert(left.take(m as int) =~= d.take(m as int));
            lemma_subproof_roots_complete(left, m, b, old_root, rest2);
            assert(rest2[0] == mth_spec(right));
            assert(rest2.drop_first() =~= rest);
        } else {
            let sub = subproof_spec(right, (m - k) as nat, false);
            let rest2 = seq![mth_spec(left)] + rest;
            assert(subproof_spec(d, m, b) + rest =~= sub + rest2);
            lemma_subproof_roots_complete(right, (m - k) as nat, false, old_root, rest2);
            assert(rest2[0] == mth_spec(left));
            assert(rest2.drop_first() =~= rest);
            // The old tree of m leaves splits at k as well.
            let e = (crate::tree_math::bit_len((n - 1) as nat) - 1) as nat;
            lemma_pow2_step(e);
            lemma_split_point_unique(m, e);
            let old = d.take(m as int);
            assert(old.take(k as int) =~= left);
            assert(old.skip(k as int) =~= right.take((m - k) as int));
        }
    }
}

/// Any two sizes of a growing tree are consistent: the proof generated for
/// them verifies against the two roots.
pub proof fn lemma_consistency_complete(s: Seq<[u8; 32]>, m: nat)
    requires
        0 < m <= s.len(),
    ensures
        consistency_verifies(
            m,
            s.len(),
            consistency_proof_spec(s, m),
            mth_spec(s.take(m as int)),
            mth_spec(s),
        ),
{
    if m < s.len() {
        let p = subproof_spec(s, m, true);
        assert(p + seq![] =~= p);
        lemma_subproof_roots_complete(s, m, true, mth_spec(s.take(m as int)), seq![]);
    } else {
        assert(s.take(m as int) =~= s);
    }
}

} // verus!

