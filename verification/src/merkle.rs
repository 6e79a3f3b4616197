//! The Merkle tree hash (RFC 6962 MTH) and an append-only tree that keeps
//! only its frontier.
use vstd::prelude::*;
use vstd::arithmetic::power2::*;
use crate::hash::{node_hash, spec_node_hash};
use crate::tree_math::{
    bit_len, bit_set, split_point, lemma_bit_len_bounds, lemma_split_point_bounds,
    lemma_below_bit_len, lemma_pow2_step, lemma_split_point_unique, lemma_pow2_split,
    lemma_mod_mod_pow2, lemma_pow2_mod_pow2, lemma_bit_set_mod, lemma_mod_succ,
    lemma_small_mod_pow2, lemma_bit_set_below, lemma_mod_le,
};

verus! {

/// RFC 6962 MTH over a sequence of leaf hashes; the empty sequence has no
/// root and maps to the empty byte string.
pub open spec fn mth_spec(s: Seq<[u8; 32]>) -> Seq<u8>
    decreases s.len(),
{
    if s.len() == 0 {
        seq![]
    } else if s.len() == 1 {
        s[0]@
    } else {
        proof {
            lemma_split_point_bounds(s.len());
        }
        let k = split_point(s.len()) as int;
        spec_node_hash(mth_spec(s.take(k)), mth_spec(s.skip(k)))
    }
}

/// What `leading_zeros` of a 64-bit integer says of its bit length.
pub proof fn lemma_u64_leading_zeros(x: u64)
    ensures
        vstd::std_specs::bits::u64_leading_zeros(x) == 64 - bit_len(x as nat),
    decreases x,
{
    reveal(vstd::std_specs::bits::u64_leading_zeros);
    if x != 0 {
        lemma_u64_leading_zeros(x / 2);
    }
}

/// Largest power of 2 strictly less than n.
pub(crate) fn k(n: u64) -> (p: u64)
    requires
        n > 1,
    ensures
        p == split_point(n as nat),
{
    let lz = (n - 1).leading_zeros();
    proof {
        lemma_u64_leading_zeros((n - 1) as u64);
        lemma_bit_len_bounds((n - 1) as nat);
        lemma_split_point_bounds(n as nat);
        let e = (bit_len((n - 1) as nat) - 1) as nat;
        lemma_below_bit_len((n - 1) as nat);
        if bit_len((n - 1) as nat) > 64 {
            vstd::arithmetic::power2::lemma_pow2_strictly_increases(64, bit_len((n - 1) as nat));
            lemma2_to64();
            assert(false);
        }
        vstd::bits::lemma_u64_pow2_no_overflow(e);
        vstd::bits::lemma_u64_shl_is_mul(1u64, (63 - lz) as u64);
    }
    1u64 << (63 - lz)
}

/// Compute the Merkle root over a slice of pre-computed leaf hashes (RFC 6962).
/// Returns None for an empty slice.
pub fn mth(leaf_hashes: &[[u8; 32]]) -> (root: Option<[u8; 32]>)
    ensures
        root is None <==> leaf_hashes@.len() == 0,
        root matches Some(h) ==> h@ == mth_spec(leaf_hashes@),
    decreases leaf_hashes@.len(),
{
    match leaf_hashes.len() {
        0 => None,
        1 => Some(leaf_hashes[0]),
        n => {
            proof {
                lemma_split_point_bounds(n as nat);
            }
            let split = k(n as u64) as usize;
            let (lo, hi) = leaf_hashes.split_at(split);
            assert(lo@ == leaf_hashes@.take(split as int));
            assert(hi@ == leaf_hashes@.skip(split as int));
            let left = mth(lo).unwrap();
            let right = mth(hi).unwrap();
            Some(node_hash(&left, &right))
        },
    }
}


/// The root of one leaf is the leaf itself.
pub proof fn lemma_mth_single(s: Seq<[u8; 32]>, a: int)
    requires
        0 <= a < s.len(),
    ensures
        mth_spec(s.subrange(a, a + 1)) == s[a]@,
{
    assert(s.subrange(a, a + 1).len() == 1);
}

/// A range whose first `2^e` leaves form a complete subtree and whose rest
/// has at most `2^e` leaves splits exactly there.
pub proof fn lemma_mth_join(s: Seq<[u8; 32]>, a: int, b: int, c: int, e: nat)
    requires
        0 <= a,
        b - a == pow2(e),
        b < c <= s.len(),
        c - b <= pow2(e),
    ensures
        mth_spec(s.subrange(a, c)) == spec_node_hash(
            mth_spec(s.subrange(a, b)),
            mth_spec(s.subrange(b, c)),
        ),
{
    let t = s.subrange(a, c);
    lemma_pow2_step(e);
    lemma_split_point_unique(t.len(), e);
    assert(t.take(pow2(e) as int) =~= s.subrange(a, b));
    assert(t.skip(pow2(e) as int) =~= s.subrange(b, c));
}

/// Leaves under the complete subtree that a tree of `s` leaves keeps at
/// frontier level `l`.
pub open spec fn frontier_range(leaves: Seq<[u8; 32]>, s: nat, l: nat) -> Seq<[u8; 32]> {
    let start = s - s % pow2(l + 1);
    leaves.subrange(start, start + pow2(l))
}

/// Frontier level `l` is either unoccupied or holds the root of its subtree.
pub open spec fn level_ok(frontier: Seq<[u8; 32]>, leaves: Seq<[u8; 32]>, s: nat, l: nat) -> bool {
    bit_set(s, l) ==> frontier[l as int]@ == mth_spec(frontier_range(leaves, s, l))
}

/// Testing a bit with a mask agrees with `bit_set`.
pub proof fn lemma_bit_test(x: u64, l: u64)
    requires
        l < 64,
    ensures
        (x & (1u64 << l) == 0) == !bit_set(x as nat, l as nat),
{
    assert((x & (1u64 << l) == 0) == ((x >> l) & 1u64 == 0u64)) by (bit_vector)
        requires
            l < 64,
    ;
    let y = x >> l;
    assert((y & 1u64 == 0u64) == (y % 2 == 0)) by (bit_vector);
    vstd::bits::lemma_u64_shr_is_div(x, l);
}

/// How the bits of `s + 1` relate to those of `s` when bits below `level`
/// of `s` are set and bit `level` is clear.
pub proof fn lemma_increment_bits(s: nat, level: nat)
    requires
        s % pow2(level) == pow2(level) - 1,
        !bit_set(s, level),
    ensures
        (s + 1) % pow2(level + 1) == pow2(level),
        bit_set(s + 1, level),
        forall|l: nat| l < level ==> !#[trigger] bit_set(s + 1, l),
        forall|l: nat|
            l > level ==> (#[trigger] bit_set(s + 1, l) == bit_set(s, l) && (s + 1) - (s + 1)
                % pow2(l + 1) == s - s % pow2(l + 1)),
{
    lemma_bit_set_mod(s, level);
    lemma_pow2_step(level);
    lemma_mod_succ(s, pow2(level + 1));
    lemma_bit_set_mod(s + 1, level);
    assert forall|l: nat| l < level implies !#[trigger] bit_set(s + 1, l) by {
        lemma_bit_set_mod(s + 1, l);
        lemma_mod_mod_pow2(s + 1, l + 1, level + 1);
        lemma_pow2_mod_pow2(l + 1, level);
        lemma_pow2_pos(l);
    }
    assert forall|l: nat| l > level implies (#[trigger] bit_set(s + 1, l) == bit_set(s, l) && (s
        + 1) - (s + 1) % pow2(l + 1) == s - s % pow2(l + 1)) by {
        lemma_pow2_step(l);
        lemma_bit_set_mod(s, l);
        lemma_bit_set_mod(s + 1, l);
        lemma_mod_mod_pow2(s, level + 1, l + 1);
        if s % pow2(l + 1) == pow2(l + 1) - 1 {
            lemma_pow2_mod_pow2(level + 1, l + 1);
            assert(false);
        }
        lemma_mod_succ(s, pow2(l + 1));
        if s % pow2(l + 1) == pow2(l) - 1 {
            lemma_mod_mod_pow2(s, l, l + 1);
            lemma_pow2_mod_pow2(l, l);
            lemma_mod_mod_pow2(s, level + 1, l);
            lemma_pow2_mod_pow2(level + 1, l);
            assert(false);
        }
    }
}

/// Append-only Merkle tree. Stores the frontier (rightmost complete subtrees
/// at each level) so the root can be computed incrementally.
///
/// This is the in-memory structure used during batch tree updates.
/// Materialised nodes are written to storage separately.
pub struct MerkleTree {
    /// frontier[i] holds the hash of the complete subtree at level i,
    /// if one exists at the current tree size.
    frontier: Vec<[u8; 32]>,
    size: u64,
    /// The leaf hashes appended so far.
    leaves: Ghost<Seq<[u8; 32]>>,
}

impl View for MerkleTree {
    type V = Seq<[u8; 32]>;

    closed spec fn view(&self) -> Seq<[u8; 32]> {
        self.leaves@
    }
}

impl MerkleTree {
    /// The frontier holds, for every set bit of the size, the root of the
    /// corresponding complete subtree of the appended leaves.
    pub closed spec fn wf(&self) -> bool {
        &&& self.size as nat == self.leaves@.len()
        &&& self.frontier@.len() <= 64
        &&& (self.size as nat) < pow2(self.frontier@.len() as nat)
        &&& forall|l: nat|
            l < self.frontier@.len() ==> #[trigger] level_ok(
                self.frontier@,
                self.leaves@,
                self.size as nat,
                l,
            )
    }

    /// An empty tree.
    pub fn new() -> (tree: Self)
        ensures
            tree.wf(),
            tree@ == Seq::<[u8; 32]>::empty(),
    {
        proof {
            lemma_pow2_step(0);
        }
        Self { frontier: Vec::new(), size: 0, leaves: Ghost(Seq::empty()) }
    }

    /// The number of leaves.
    pub fn size(&self) -> (n: u64)
        requires
            self.wf(),
        ensures
            n == self@.len(),
    {
        self.size
    }

    /// Append a pre-computed leaf hash. Returns the leaf index (0-based).
    pub fn append(&mut self, lh: [u8; 32]) -> (index: u64)
        requires
            old(self).wf(),
            old(self)@.len() < u64::MAX,
        ensures
            final(self).wf(),
            final(self)@ == old(self)@.push(lh),
            index == old(self)@.len(),
    {
        let index = self.size;
        let ghost s = self.size as nat;
        let ghost leaves = self.leaves@;
        let ghost new_leaves = leaves.push(lh);
        let mut hash = lh;
        let mut level: usize = 0;
        proof {
            lemma_pow2_step(0);
            lemma_mth_single(new_leaves, s as int);
            lemma2_to64();
        }
        // Combine with existing frontier nodes while the bit at `level` is set.
        while self.size & (1u64 << (level as u64)) != 0
            invariant
                self.wf(),
                self.size as nat == s,
                self.leaves@ == leaves,
                new_leaves == leaves.push(lh),
                s + 1 < pow2(64),
                level < 64,
                s % pow2(level as nat) == pow2(level as nat) - 1,
                pow2(level as nat) <= s + 1,
                hash@ == mth_spec(
                    new_leaves.subrange(s + 1 - pow2(level as nat), (s + 1) as int),
                ),
            decreases 64 - level,
        {
            let ghost lv = level as nat;
            proof {
                lemma_bit_test(self.size, level as u64);
                lemma_bit_set_below(s, lv, self.frontier@.len() as nat);
                lemma_bit_set_mod(s, lv);
                lemma_pow2_step(lv);
                lemma_mod_le(s, pow2(lv + 1));
                assert(level_ok(self.frontier@, leaves, s, lv));
                let a = s + 1 - pow2(lv + 1);
                let b = s + 1 - pow2(lv);
                assert(new_leaves.subrange(a, b) =~= leaves.subrange(a, b));
                lemma_mth_join(new_leaves, a, b, (s + 1) as int, lv);
            }
            hash = node_hash(&self.frontier[level], &hash);
            level += 1;
            proof {
                if level == 64 {
                    lemma_small_mod_pow2(s, 64);
                    assert(false);
                }
            }
        }
        let ghost lv = level as nat;
        proof {
            lemma_bit_test(self.size, level as u64);
            let n = self.frontier@.len() as nat;
            if lv > n {
                lemma_pow2_split(n, (lv - 1) as nat);
                lemma_pow2_step((lv - 1) as nat);
                lemma_small_mod_pow2(s, lv);
                assert(false);
            }
            lemma_increment_bits(s, lv);
            lemma_pow2_step(lv);
        }
        let ghost old_frontier = self.frontier@;
        if level < self.frontier.len() {
            self.frontier.set(level, hash);
        } else {
            self.frontier.push(hash);
        }
        // Zero out lower levels (they're now incorporated into `hash`).
        let mut l: usize = 0;
        while l < level
            invariant
                l <= level,
                self.size as nat == s,
                self.leaves@ == leaves,
                s + 1 < pow2(64),
                level < self.frontier@.len(),
                self.frontier@.len() == (if lv < old_frontier.len() {
                    old_frontier.len()
                } else {
                    lv + 1
                }),
                self.frontier@[level as int] == hash,
                forall|j: int|
                    level < j < old_frontier.len() ==> self.frontier@[j] == old_frontier[j],
            decreases level - l,
        {
            self.frontier.set(l, [0u8; 32]);
            l += 1;
        }
        self.size = self.size + 1;
        self.leaves = Ghost(new_leaves);
        proof {
            let s2 = s + 1;
            let n2 = self.frontier@.len() as nat;
            if lv < old_frontier.len() {
                let n = old_frontier.len() as nat;
                if s2 >= pow2(n) {
                    lemma_pow2_mod_pow2(lv + 1, n);
                    lemma_pow2_split(lv + 1, n);
                    lemma_bit_set_mod(s, lv);
                    assert(false);
                }
            } else {
                lemma_small_mod_pow2(s, lv);
            }
            assert forall|l: nat| l < n2 implies #[trigger] level_ok(
                self.frontier@,
                new_leaves,
                s2,
                l,
            ) by {
                if l == lv {
                    let start = s2 - s2 % pow2(lv + 1);
                    assert(frontier_range(new_leaves, s2, lv) =~= new_leaves.subrange(
                        s + 1 - pow2(lv),
                        (s + 1) as int,
                    ));
                } else if l > lv {
                    assert(level_ok(old_frontier, leaves, s, l));
                    if bit_set(s, l) {
                        lemma_bit_set_mod(s, l);
                        lemma_pow2_step(l);
                        lemma_mod_le(s, pow2(l + 1));
                        assert(bit_set(s2, l));
                        assert(s2 - s2 % pow2(l + 1) == s - s % pow2(l + 1));
                        assert(frontier_range(new_leaves, s2, l) =~= frontier_range(
                            leaves,
                            s,
                            l,
                        ));
                    }
                }
            }
        }
        index
    }

    /// Current Merkle root. Returns None if the tree is empty.
    pub fn root(&self) -> (root: Option<[u8; 32]>)
        requires
            self.wf(),
        ensures
            root is None <==> self@.len() == 0,
            root matches Some(h) ==> h@ == mth_spec(self@),
    {
        if self.size == 0 {
            return None;
        }
        let ghost s = self.size as nat;
        let ghost leaves = self.leaves@;
        let mut hash: Option<[u8; 32]> = None;
        let mut level: usize = 0;
        proof {
            lemma_pow2_step(0);
        }
        while level < self.frontier.len()
            invariant
                self.wf(),
                s == self.size as nat,
                leaves == self.leaves@,
                s >= 1,
                level <= self.frontier@.len(),
                hash is None <==> s % pow2(level as nat) == 0,
                hash matches Some(h) ==> h@ == mth_spec(
                    leaves.subrange(s - s % pow2(level as nat), s as int),
                ),
            decreases self.frontier@.len() - level,
        {
            let ghost lv = level as nat;
            let node = self.frontier[level];
            proof {
                lemma_bit_test(self.size, level as u64);
                lemma_bit_set_mod(s, lv);
                assert(level_ok(self.frontier@, leaves, s, lv));
            }
            if self.size & (1u64 << (level as u64)) != 0 {
                proof {
                    let t = s % pow2(lv);
                    let t2 = s % pow2(lv + 1);
                    lemma_pow2_step(lv);
                    lemma_mod_le(s, pow2(lv + 1));
                    if t != 0 {
                        lemma_mth_join(leaves, s - t2, s - t, s as int, lv);
                    } else {
                        assert(leaves.subrange(s - t2, s - t) =~= leaves.subrange(s - t2, s as int));
                    }
                }
                hash = Some(
                    match hash {
                        None => node,
                        Some(h) => node_hash(&node, &h),
                    },
                );
            }
            level += 1;
        }
        proof {
            lemma_small_mod_pow2(s, self.frontier@.len() as nat);
            assert(leaves.subrange(0, s as int) =~= leaves);
        }
        hash
    }
}

impl Default for MerkleTree {
    fn default() -> (tree: Self)
        ensures
            tree.wf(),
            tree@ == Seq::<[u8; 32]>::empty(),
    {
        Self::new()
    }
}

} // verus!

