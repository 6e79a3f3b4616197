//! The in-memory tree that appends keep in step with the log.
use vstd::prelude::*;
use crate::merkle::MerkleTree;

verus! {

/// State guarded by the append lock: the Merkle tree over the log's leaf
/// hashes.
pub struct AppendState {
    pub merkle: MerkleTree,
}

impl AppendState {
    /// The tree rebuilt at startup from the leaf hashes of the whole log.
    pub fn rebuild(leaf_hashes: &Vec<[u8; 32]>) -> (s: AppendState)
        requires
            leaf_hashes@.len() < u64::MAX,
        ensures
            s.merkle.wf(),
            s.merkle@ == leaf_hashes@,
    {
        let mut merkle = MerkleTree::new();
        let mut i: usize = 0;
        while i < leaf_hashes.len()
            invariant
                i <= leaf_hashes@.len(),
                leaf_hashes@.len() < u64::MAX,
                merkle.wf(),
                merkle@ == leaf_hashes@.take(i as int),
            decreases leaf_hashes@.len() - i,
        {
            merkle.append(leaf_hashes[i]);
            i += 1;
            assert(merkle@ =~= leaf_hashes@.take(i as int));
        }
        assert(leaf_hashes@.take(leaf_hashes@.len() as int) =~= leaf_hashes@);
        AppendState { merkle }
    }

    /// Records the leaf hash of an entry the log has just stored.
    pub fn record_append(&mut self, leaf_hash: [u8; 32])
        requires
            old(self).merkle.wf(),
            old(self).merkle@.len() < u64::MAX,
        ensures
            final(self).merkle.wf(),
            final(self).merkle@ == old(self).merkle@.push(leaf_hash),
    {
        self.merkle.append(leaf_hash);
    }
}

} // verus!
