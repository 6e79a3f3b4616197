//! Materialised Merkle nodes: which nodes a run of leaves completes, and the
//! key under which each node is stored.
use vstd::prelude::*;
use vstd::arithmetic::power2::*;
use crate::hash::node_hash;
use crate::merkle::{
    mth_spec, frontier_range, level_ok, lemma_mth_join, lemma_mth_single, lemma_bit_test,
    lemma_increment_bits,
};
use crate::sth::{be64, be_bytes_u64};
use crate::bytes::array32;
use crate::storage::types::{is_corruption, Error};
use crate::tree_math::{
    bit_set, lemma_pow2_step, lemma_bit_set_mod, lemma_mod_succ, lemma_mod_le, lemma_mod_mod_pow2,
    lemma_pow2_mod_pow2,
};

verus! {

/// The root of the complete subtree at `level` and position `index`: it
/// covers leaves `[index * 2^level, (index + 1) * 2^level)`.
pub open spec fn node_at(lh: Seq<[u8; 32]>, level: nat, index: nat) -> Seq<u8> {
    mth_spec(lh.subrange((index * pow2(level)) as int, ((index + 1) * pow2(level)) as int))
}

/// One past the highest level whose node is completed by leaf `j`, looking
/// from `h` upwards; levels stop at 62.
pub open spec fn completed_levels(j: nat, h: nat) -> nat
    decreases 63 - h,
{
    if h < 63 && (j + 1) % pow2(h) == 0 {
        completed_levels(j, h + 1)
    } else {
        h
    }
}

/// Position at `level` of the node above leaf `j`.
pub open spec fn index_at(j: nat, level: nat) -> nat {
    j / pow2(level)
}

/// The node `(level, index, hash)` above leaf `j` at `level`.
pub open spec fn column_entry(lh: Seq<[u8; 32]>, j: nat, level: nat) -> (nat, nat, Seq<u8>) {
    (level, index_at(j, level), node_at(lh, level, index_at(j, level)))
}

/// The nodes `(level, index, hash)` completed by leaf `j`, lowest first.
pub open spec fn column(lh: Seq<[u8; 32]>, j: nat) -> Seq<(nat, nat, Seq<u8>)> {
    Seq::new(completed_levels(j, 1), |h: int| column_entry(lh, j, h as nat))
}

/// The nodes completed by the first `n` leaves, in the order they complete.
pub open spec fn nodes_upto(lh: Seq<[u8; 32]>, n: nat) -> Seq<(nat, nat, Seq<u8>)>
    decreases n,
{
    if n == 0 {
        seq![]
    } else {
        nodes_upto(lh, (n - 1) as nat) + column(lh, (n - 1) as nat)
    }
}

/// The nodes as `(level, index, hash bytes)`.
pub open spec fn nodes_view(v: Seq<(u64, u64, [u8; 32])>) -> Seq<(nat, nat, Seq<u8>)> {
    v.map_values(|t: (u64, u64, [u8; 32])| (t.0 as nat, t.1 as nat, t.2@))
}

/// The leaf hashes of `(seq, hash)` pairs, in order.
pub open spec fn leaf_hashes_of(leaves: Seq<(u64, [u8; 32])>) -> Seq<[u8; 32]> {
    leaves.map_values(|p: (u64, [u8; 32])| p.1)
}

proof fn lemma_completed_levels_ge(j: nat, h: nat)
    requires
        h <= 63,
    ensures
        h <= completed_levels(j, h) <= 63,
    decreases 63 - h,
{
    if h < 63 && (j + 1) % pow2(h) == 0 {
        lemma_completed_levels_ge(j, h + 1);
    }
}

/// The node that leaf `j` completes at level `h` covers the `2^h` leaves
/// ending with `j`, when the low `h` bits of `j` are all set.
proof fn lemma_node_at_ending(lh: Seq<[u8; 32]>, j: nat, h: nat)
    requires
        j % pow2(h) == pow2(h) - 1,
    ensures
        (j / pow2(h)) * pow2(h) == j + 1 - pow2(h),
        (j / pow2(h) + 1) * pow2(h) == j + 1,
        node_at(lh, h, j / pow2(h)) == mth_spec(lh.subrange(j + 1 - pow2(h), (j + 1) as int)),
{
    lemma_pow2_pos(h);
    vstd::arithmetic::div_mod::lemma_fundamental_div_mod(j as int, pow2(h) as int);
    let q = j / pow2(h);
    assert(pow2(h) * q == q * pow2(h)) by (nonlinear_arith);
    assert((q + 1) * pow2(h) == q * pow2(h) + pow2(h)) by (nonlinear_arith);
}

/// One past the last leaf that the node at `level`, `index` covers.
pub open spec fn node_end(level: nat, index: nat) -> nat {
    (index + 1) * pow2(level)
}

/// A node of a tree of `n` leaves: below level 63, complete within the
/// first `n` leaves, and holding the root of the leaves it covers.
pub open spec fn node_placed(lh: Seq<[u8; 32]>, n: nat, e: (nat, nat, Seq<u8>)) -> bool {
    &&& e.0 < 63
    &&& node_end(e.0, e.1) <= n
    &&& e.2 == node_at(lh, e.0, e.1)
}

/// Node `a` comes before node `b`: it ends at an earlier leaf, or at the
/// same leaf on a lower level.
pub open spec fn node_before(a: (nat, nat, Seq<u8>), b: (nat, nat, Seq<u8>)) -> bool {
    ||| node_end(a.0, a.1) < node_end(b.0, b.1)
    ||| node_end(a.0, a.1) == node_end(b.0, b.1) && a.0 < b.0
}

/// Below `completed_levels`, every level divides one past leaf `j`.
proof fn lemma_completed_levels_divide(j: nat, h0: nat, h: nat)
    requires
        1 <= h0 <= h,
        h < completed_levels(j, h0),
    ensures
        (j + 1) % pow2(h) == 0,
    decreases 63 - h0,
{
    if h0 < 63 && (j + 1) % pow2(h0) == 0 {
        if h > h0 {
            lemma_completed_levels_divide(j, h0 + 1, h);
        }
    }
}

/// Levels whose power of two divides one past leaf `j` are all reached.
proof fn lemma_completed_levels_reach(j: nat, h0: nat, l: nat)
    requires
        1 <= h0,
        h0 <= 63,
        l < 63,
        forall|h: nat| h0 <= h <= l ==> (j + 1) % #[trigger] pow2(h) == 0,
    ensures
        completed_levels(j, h0) > l,
    decreases 63 - h0,
{
    if h0 > l {
        lemma_completed_levels_ge(j, h0);
    } else {
        assert((j + 1) % pow2(h0) == 0);
        lemma_completed_levels_reach(j, h0 + 1, l);
    }
}

/// The node that leaf `j` completes at level `h` ends right after `j`.
proof fn lemma_column_entry_end(lh: Seq<[u8; 32]>, j: nat, h: nat)
    requires
        h < completed_levels(j, 1),
    ensures
        h < 63,
        node_end(h, index_at(j, h)) == j + 1,
{
    lemma_completed_levels_ge(j, 1);
    lemma_pow2_pos(h);
    if h == 0 {
        assert(pow2(0) == 1) by {
            lemma_pow2_step(0);
        }
        assert((j + 1) % pow2(h) == 0);
    } else {
        lemma_completed_levels_divide(j, 1, h);
    }
    lemma_bit_set_mod(j, h);
    lemma_mod_succ(j, pow2(h));
    lemma_node_at_ending(lh, j, h);
}

/// The node at `level`, `index` is the one completed at that level by the
/// last leaf it covers.
proof fn lemma_node_in_column(lh: Seq<[u8; 32]>, l: nat, i: nat)
    requires
        l < 63,
    ensures
        node_end(l, i) >= 1,
        l < completed_levels((node_end(l, i) - 1) as nat, 1),
        column(lh, (node_end(l, i) - 1) as nat)[l as int] == (l, i, node_at(lh, l, i)),
{
    lemma_pow2_pos(l);
    let m = pow2(l);
    let x = node_end(l, i);
    assert(x == (i + 1) * m);
    assert(x >= 1) by (nonlinear_arith)
        requires
            x == (i + 1) * m,
            m >= 1,
    ;
    let j = (x - 1) as nat;
    assert(j == m * i + (m - 1)) by (nonlinear_arith)
        requires
            x == (i + 1) * m,
            j == x - 1,
    ;
    vstd::arithmetic::div_mod::lemma_fundamental_div_mod_converse(j as int, m as int, i as int, (m - 1) as int);
    lemma_mod_succ(j, m);
    assert((j + 1) % m == 0);
    assert forall|h: nat| 1 <= h <= l implies (j + 1) % #[trigger] pow2(h) == 0 by {
        lemma_mod_mod_pow2(j + 1, h, l);
        lemma_pow2_pos(h);
    }
    if l == 0 {
        lemma_completed_levels_ge(j, 1);
    } else {
        lemma_completed_levels_reach(j, 1, l);
    }
    assert(index_at(j, l) == i);
}

/// The nodes materialised for the first `n` leaves are exactly the complete
/// subtrees among them: each holds the root of the leaves it covers, every
/// complete subtree below level 63 appears, and they come ordered by the
/// last leaf they cover, lower level first (so none appears twice).
pub proof fn lemma_nodes_upto_exact(lh: Seq<[u8; 32]>, n: nat)
    ensures
        forall|p: int|
            0 <= p < nodes_upto(lh, n).len() ==> node_placed(lh, n, #[trigger] nodes_upto(lh, n)[p]),
        forall|p: int, q: int|
            0 <= p < q < nodes_upto(lh, n).len() ==> node_before(
                #[trigger] nodes_upto(lh, n)[p],
                #[trigger] nodes_upto(lh, n)[q],
            ),
        forall|l: nat, i: nat|
            l < 63 && #[trigger] node_end(l, i) <= n ==> nodes_upto(lh, n).contains(
                (l, i, node_at(lh, l, i)),
            ),
    decreases n,
{
    if n > 0 {
        let m = (n - 1) as nat;
        lemma_nodes_upto_exact(lh, m);
        let a = nodes_upto(lh, m);
        let c = column(lh, m);
        let s = nodes_upto(lh, n);
        assert(s == a + c);
        assert forall|h: int| 0 <= h < c.len() implies node_placed(lh, n, #[trigger] c[h])
            && node_end(c[h].0, c[h].1) == n by {
            lemma_column_entry_end(lh, m, h as nat);
        }
        assert forall|p: int| 0 <= p < s.len() implies node_placed(lh, n, #[trigger] s[p]) by {
            if p < a.len() {
                assert(s[p] == a[p]);
                assert(node_placed(lh, m, a[p]));
            } else {
                assert(s[p] == c[p - a.len()]);
            }
        }
        assert forall|p: int, q: int| 0 <= p < q < s.len() implies node_before(
            #[trigger] s[p],
            #[trigger] s[q],
        ) by {
            if q < a.len() {
                assert(s[p] == a[p] && s[q] == a[q]);
            } else if p < a.len() {
                assert(s[p] == a[p] && s[q] == c[q - a.len()]);
                assert(node_placed(lh, m, a[p]));
            } else {
                assert(s[p] == c[p - a.len()] && s[q] == c[q - a.len()]);
            }
        }
        assert forall|l: nat, i: nat| l < 63 && #[trigger] node_end(l, i) <= n implies s.contains(
            (l, i, node_at(lh, l, i)),
        ) by {
            if node_end(l, i) <= m {
                let p = choose|p: int| 0 <= p < a.len() && a[p] == (l, i, node_at(lh, l, i));
                assert(s[p] == a[p]);
            } else {
                lemma_node_in_column(lh, l, i);
                assert(s[a.len() + l as int] == c[l as int]);
            }
        }
    } else {
        assert forall|l: nat, i: nat| l < 63 && #[trigger] node_end(l, i) <= n implies nodes_upto(
            lh,
            n,
        ).contains((l, i, node_at(lh, l, i))) by {
            lemma_node_in_column(lh, l, i);
        }
    }
}

/// Compute all Merkle tree nodes that should be written for the given leaf sequence.
///
/// Leaves must be provided in ascending seq order starting from 0 (i.e. a full tree scan).
/// Returns `(level, index, hash)` tuples for every complete node.
///
/// The left child of each new node is the most recent completed node with
/// an even index at the level below; those are kept per level.
pub fn compute_nodes_from_leaves(leaves: Vec<(u64, [u8; 32])>) -> (nodes: Vec<(u64, u64, [u8; 32])>)
    requires
        forall|j: int| 0 <= j < leaves@.len() ==> (#[trigger] leaves@[j]).0 == j,
    ensures
        nodes_view(nodes@) == nodes_upto(leaf_hashes_of(leaves@), leaves@.len() as nat),
{
    let ghost lh = leaf_hashes_of(leaves@);
    let mut pending: Vec<[u8; 32]> = Vec::new();
    let mut nodes: Vec<(u64, u64, [u8; 32])> = Vec::new();
    let mut i: usize = 0;
    proof {
        lemma_pow2_step(0);
        assert(nodes_view(nodes@) =~= nodes_upto(lh, 0));
        assert forall|l: nat| l < 63 implies !#[trigger] bit_set(0, l) by {
            lemma_pow2_pos(l);
        }
        assert forall|l: nat| l < 63 implies #[trigger] level_ok(pending@, lh, 0, l) by {
            lemma_pow2_pos(l);
        }
    }
    assert(forall|x: u64| x < 63 ==> (1u64 << x) != 0u64) by (bit_vector);
    while i < leaves.len()
        invariant
            i <= leaves@.len(),
            lh == leaf_hashes_of(leaves@),
            lh.len() == leaves@.len(),
            forall|j: int| 0 <= j < leaves@.len() ==> (#[trigger] leaves@[j]).0 == j,
            nodes_view(nodes@) == nodes_upto(lh, i as nat),
            pending@.len() <= 63,
            forall|l: nat| l < 63 && #[trigger] bit_set(i as nat, l) ==> l < pending@.len(),
            forall|l: nat| l < 63 ==> #[trigger] level_ok(pending@, lh, i as nat, l),
            forall|x: u64| x < 63 ==> (1u64 << x) != 0u64,
        decreases leaves@.len() - i,
    {
        let (j, hash) = leaves[i];
        let ghost jn = j as nat;
        assert(j == i);
        assert(j < u64::MAX);
        assert(lh[i as int] == hash);
        let ghost before = nodes@;
        nodes.push((0, j, hash));
        let mut cur = hash;
        let mut h: u64 = 1;
        proof {
            lemma_pow2_step(0);
            lemma_pow2_step(1);
            lemma_completed_levels_ge(jn, 1);
            lemma_mth_single(lh, jn as int);
            lemma_node_at_ending(lh, jn, 0);
            assert(jn / pow2(0) == jn);
            assert(column(lh, jn).len() == completed_levels(jn, 1));
            assert(column(lh, jn).len() >= 1);
            assert(column(lh, jn)[0] == column_entry(lh, jn, 0));
            assert(column_entry(lh, jn, 0) == (0nat, jn, node_at(lh, 0, jn)));
            assert(nodes_view(nodes@) =~= nodes_view(before).push((0nat, jn, hash@)));
            assert(column(lh, jn).take(1) =~= seq![(0nat, jn, node_at(lh, 0, jn))]);
        }
        while h < 63 && (j + 1) % (1u64 << h) == 0
            invariant
                1 <= h <= 63,
                forall|x: u64| x < 63 ==> (1u64 << x) != 0u64,
                j == i,
                j < u64::MAX,
                pow2((h - 1) as nat) <= jn + 1,
                jn == j as nat,
                i < leaves@.len(),
                lh == leaf_hashes_of(leaves@),
                lh.len() == leaves@.len(),
                jn % pow2((h - 1) as nat) == pow2((h - 1) as nat) - 1,
                completed_levels(jn, 1) == completed_levels(jn, h as nat),
                h <= completed_levels(jn, 1) <= 63,
                nodes_view(nodes@) == nodes_upto(lh, i as nat) + column(lh, jn).take(h as int),
                cur@ == mth_spec(lh.subrange(jn + 1 - pow2((h - 1) as nat), (jn + 1) as int)),
                pending@.len() <= 63,
                forall|l: nat| l < 63 && #[trigger] bit_set(i as nat, l) ==> l < pending@.len(),
                forall|l: nat| l < 63 ==> #[trigger] level_ok(pending@, lh, i as nat, l),
            decreases 63 - h,
        {
            let ghost hn = h as nat;
            proof {
                vstd::bits::lemma_u64_pow2_no_overflow(hn);
                vstd::bits::lemma_u64_shl_is_mul(1u64, h);
                lemma_mod_succ(jn, pow2(hn));
                lemma_pow2_step((hn - 1) as nat);
                lemma_bit_set_mod(jn, (hn - 1) as nat);
                assert(bit_set(jn, (hn - 1) as nat));
                assert(level_ok(pending@, lh, jn, (hn - 1) as nat));
                lemma_mod_le(jn, pow2(hn));
                let a = jn + 1 - pow2(hn);
                let b = jn + 1 - pow2((hn - 1) as nat);
                lemma_mth_join(lh, a, b, (jn + 1) as int, (hn - 1) as nat);
                lemma_node_at_ending(lh, jn, hn);
                vstd::bits::lemma_u64_shr_is_div(j, h);
                assert(completed_levels(jn, hn) == completed_levels(jn, hn + 1));
                lemma_completed_levels_ge(jn, hn + 1);
                assert(column(lh, jn).len() > hn);
            }
            let idx = j >> h;
            let left = pending[(h - 1) as usize];
            let right = cur;
            let parent = node_hash(&left, &right);
            let ghost before2 = nodes@;
            nodes.push((h, idx, parent));
            proof {
                assert(column(lh, jn)[hn as int] == column_entry(lh, jn, hn));
                assert(nodes_view(nodes@) =~= nodes_view(before2).push((hn, idx as nat, parent@)));
                assert(column(lh, jn).take((hn + 1) as int) =~= column(lh, jn).take(hn as int).push(
                    column(lh, jn)[hn as int],
                ));
            }
            cur = parent;
            h += 1;
        }
        let ghost hn = h as nat;
        let ghost top = (hn - 1) as nat;
        proof {
            if h < 63 {
                vstd::bits::lemma_u64_pow2_no_overflow(hn);
                vstd::bits::lemma_u64_shl_is_mul(1u64, h);
                lemma_mod_succ(jn, pow2(hn));
            }
            assert(completed_levels(jn, hn) == hn);
            assert(column(lh, jn).take(hn as int) =~= column(lh, jn));
            assert(nodes_upto(lh, (i + 1) as nat) == nodes_upto(lh, i as nat) + column(lh, jn));
            lemma_bit_test(j, (h - 1) as u64);
            lemma_pow2_step(top);
            lemma_pow2_step(hn);
            lemma_bit_set_mod(jn, top);
        }
        if j & (1u64 << (h - 1)) == 0 {
            // The top node has an even index: it is the left child of a later node.
            let lv = (h - 1) as usize;
            let ghost old_pending = pending@;
            proof {
                lemma_increment_bits(jn, top);
                if top > 0 {
                    lemma_bit_set_mod(jn, (top - 1) as nat);
                    lemma_mod_mod_pow2(jn, top, top);
                    lemma_pow2_step((top - 1) as nat);
                    lemma_mod_mod_pow2(jn, (top - 1) as nat, top);
                    lemma_pow2_mod_pow2((top - 1) as nat, top);
                    assert(bit_set(jn, (top - 1) as nat));
                }
            }
            if lv < pending.len() {
                pending.set(lv, cur);
            } else {
                pending.push(cur);
            }
            proof {
                let n2 = jn + 1;
                assert forall|l: nat| l < 63 && #[trigger] bit_set(n2, l) implies l
                    < pending@.len() by {
                    if l > top {
                        assert(bit_set(jn, l));
                    }
                }
                assert forall|l: nat| l < 63 implies #[trigger] level_ok(
                    pending@,
                    lh,
                    n2,
                    l,
                ) by {
                    if l == top {
                        assert(frontier_range(lh, n2, top) =~= lh.subrange(
                            jn + 1 - pow2(top),
                            (jn + 1) as int,
                        ));
                    } else if l > top {
                        assert(level_ok(old_pending, lh, jn, l));
                        if bit_set(n2, l) {
                            assert(bit_set(jn, l));
                            assert(l < old_pending.len());
                        }
                    }
                }
            }
        } else {
            proof {
                // All of the low 63 bits of j are set: j + 1 clears them.
                if h < 63 {
                    assert(false);
                }
                lemma_mod_succ(jn, pow2(63));
                assert forall|l: nat| l < 63 implies !#[trigger] bit_set(jn + 1, l) by {
                    lemma_bit_set_mod(jn + 1, l);
                    lemma_mod_mod_pow2(jn + 1, l + 1, 63);
                    lemma_pow2_step(l);
                }
                assert forall|l: nat| l < 63 implies #[trigger] level_ok(
                    pending@,
                    lh,
                    jn + 1,
                    l,
                ) by {
                    assert(!bit_set(jn + 1, l));
                }
            }
        }
        i += 1;
    }
    nodes
}

/// Storage key of a node: level (u64 BE) || index (u64 BE).
pub fn tree_key(level: u64, index: u64) -> (key: [u8; 16])
    ensures
        key@ == be64(level) + be64(index),
{
    let mut key = [0u8; 16];
    let l = be_bytes_u64(level);
    let x = be_bytes_u64(index);
    let mut i: usize = 0;
    while i < 16
        invariant
            i <= 16,
            key@.len() == 16,
            l@ == be64(level),
            x@ == be64(index),
            forall|j: int| 0 <= j < i ==> #[trigger] key@[j] == (be64(level) + be64(index))[j],
        decreases 16 - i,
    {
        let v = if i < 8 {
            l[i]
        } else {
            x[i - 8]
        };
        key[i] = v;
        i += 1;
    }
    assert(key@ =~= be64(level) + be64(index));
    key
}

/// A stored node hash, which must have 32 bytes.
pub fn decode_tree_node(value: &[u8]) -> (r: Result<[u8; 32], Error>)
    ensures
        r is Ok <==> value@.len() == 32,
        r matches Ok(h) ==> h@ == value@,
        r matches Err(e) ==> is_corruption(e, "tree node value must be 32 bytes"@),
{
    match array32(value) {
        Some(h) => Ok(h),
        None => Err(Error::Corruption("tree node value must be 32 bytes".to_owned())),
    }
}

} // verus!
