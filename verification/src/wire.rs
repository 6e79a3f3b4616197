//! Messages of the `settled.v1` log protocol, as plain values.
use vstd::prelude::*;
use crate::bytes::bytes_to_vec;
use crate::proofs::hash_seqs;

verus! {

/// A signed tree head on the wire.
#[derive(Clone, Debug)]
pub struct SignedTreeHead {
    pub tree_size: u64,
    pub root_hash: Vec<u8>,
    pub timestamp_ns: i64,
    pub signature: Vec<u8>,
    pub public_key: Vec<u8>,
    pub key_version: u32,
}

/// A log entry on the wire.
#[derive(Clone, Debug)]
pub struct Entry {
    pub seq: u64,
    pub timestamp_ns: i64,
    pub key: Vec<u8>,
    pub data: Vec<u8>,
    pub leaf_hash: Vec<u8>,
}

/// The answer to an append.
#[derive(Clone, Debug)]
pub struct AppendResponse {
    pub seq: u64,
    pub timestamp_ns: i64,
    pub leaf_hash: Vec<u8>,
}

/// The answer to an inclusion-proof request.
#[derive(Clone, Debug)]
pub struct InclusionProofResponse {
    pub leaf_index: u64,
    pub tree_size: u64,
    pub proof: Vec<Vec<u8>>,
    pub sth: Option<SignedTreeHead>,
}

/// The answer to a consistency-proof request.
#[derive(Clone, Debug)]
pub struct ConsistencyProofResponse {
    pub old_size: u64,
    pub new_size: u64,
    pub proof: Vec<Vec<u8>>,
    pub old_sth: Option<SignedTreeHead>,
    pub new_sth: Option<SignedTreeHead>,
}

/// The byte strings of a list of byte vectors.
pub open spec fn byte_seqs(v: Seq<Vec<u8>>) -> Seq<Seq<u8>> {
    v.map_values(|b: Vec<u8>| b@)
}

/// Each hash of a proof path as a byte vector.
pub fn path_bytes(path: &Vec<[u8; 32]>) -> (out: Vec<Vec<u8>>)
    ensures
        byte_seqs(out@) == hash_seqs(path@),
{
    let mut out: Vec<Vec<u8>> = Vec::new();
    let mut i: usize = 0;
    while i < path.len()
        invariant
            i <= path@.len(),
            out@.len() == i,
            forall|j: int| 0 <= j < i ==> #[trigger] out@[j]@ == path@[j]@,
        decreases path@.len() - i,
    {
        out.push(bytes_to_vec(path[i].as_slice()));
        i += 1;
    }
    assert(byte_seqs(out@) =~= hash_seqs(path@));
    out
}

} // verus!
