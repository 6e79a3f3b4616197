//! The checks the log checker runs on a server's latest head and, when
//! asked, on the inclusion of one entry.
use vstd::prelude::*;
use crate::bytes::array32;
use crate::hash::spec_leaf_hash;
use crate::proofs::{hash_seqs, hashes_equal, inclusion_verifies};
use crate::sdk::checks::{tree_head_verifies, verify_inclusion, verify_tree_head};
use crate::sdk::client::SignedTreeHead;
use crate::text::{decimal_text, push_decimal, push_text};
use crate::wire::byte_seqs;

verus! {

/// Why a check failed.
#[derive(PartialEq, Eq, Structural, Debug, Clone, Copy)]
pub enum CheckFailure {
    RootHashLength,
    SignatureInvalid,
    ProofNodeLength,
    LeafHashLength,
    LeafHashMismatch(u64),
    LeafIndexMismatch { seq: u64, leaf_index: u64 },
    InclusionInvalid(u64),
}

/// The text of a failed check.
pub open spec fn failure_text(f: CheckFailure) -> Seq<char> {
    match f {
        CheckFailure::RootHashLength => "root_hash must be 32 bytes"@,
        CheckFailure::SignatureInvalid => "STH signature verification FAILED"@,
        CheckFailure::ProofNodeLength => "proof node must be 32 bytes"@,
        CheckFailure::LeafHashLength => "leaf_hash must be 32 bytes"@,
        CheckFailure::LeafHashMismatch(seq) => "leaf_hash does not match the entry data for seq="@
            + decimal_text(seq as nat),
        CheckFailure::LeafIndexMismatch { seq, leaf_index } => "Inclusion proof is for leaf_index="@
            + decimal_text(leaf_index as nat) + ", not seq="@ + decimal_text(seq as nat),
        CheckFailure::InclusionInvalid(seq) => "Inclusion proof verification FAILED for seq="@
            + decimal_text(seq as nat),
    }
}

impl CheckFailure {
    /// The failure's text.
    pub fn message(&self) -> (s: String)
        ensures
            s@ == failure_text(*self),
    {
        let mut s = String::new();
        match self {
            CheckFailure::RootHashLength => push_text(&mut s, "root_hash must be 32 bytes"),
            CheckFailure::SignatureInvalid => push_text(
                &mut s,
                "STH signature verification FAILED",
            ),
            CheckFailure::ProofNodeLength => push_text(&mut s, "proof node must be 32 bytes"),
            CheckFailure::LeafHashLength => push_text(&mut s, "leaf_hash must be 32 bytes"),
            CheckFailure::LeafHashMismatch(seq) => {
                push_text(&mut s, "leaf_hash does not match the entry data for seq=");
                push_decimal(&mut s, *seq);
            },
            CheckFailure::LeafIndexMismatch { seq, leaf_index } => {
                push_text(&mut s, "Inclusion proof is for leaf_index=");
                push_decimal(&mut s, *leaf_index);
                push_text(&mut s, ", not seq=");
                push_decimal(&mut s, *seq);
            },
            CheckFailure::InclusionInvalid(seq) => {
                push_text(&mut s, "Inclusion proof verification FAILED for seq=");
                push_decimal(&mut s, *seq);
            },
        }
        assert(s@ =~= failure_text(*self));
        s
    }
}

/// Checks the latest head: its root must have 32 bytes and its signature
/// must verify under the key it names.  Gives the root.
pub fn check_latest_head(sth: &SignedTreeHead) -> (r: Result<[u8; 32], CheckFailure>)
    ensures
        sth.root_hash@.len() != 32 ==> r == Err::<[u8; 32], CheckFailure>(
            CheckFailure::RootHashLength,
        ),
        sth.root_hash@.len() == 32 ==> if tree_head_verifies(
            sth.tree_size,
            sth.root_hash@,
            sth.timestamp_ns,
            sth.signature@,
            sth.public_key@,
        ) {
            r matches Ok(root) && root@ == sth.root_hash@
        } else {
            r == Err::<[u8; 32], CheckFailure>(CheckFailure::SignatureInvalid)
        },
{
    let root = match array32(sth.root_hash.as_slice()) {
        Some(h) => h,
        None => {
            return Err(CheckFailure::RootHashLength);
        },
    };
    if !verify_tree_head(
        sth.tree_size,
        root,
        sth.timestamp_ns,
        sth.signature.as_slice(),
        sth.public_key.as_slice(),
    ) {
        return Err(CheckFailure::SignatureInvalid);
    }
    Ok(root)
}

/// Every node of a proof has 32 bytes.
pub open spec fn all_hash_sized(proof: Seq<Vec<u8>>) -> bool {
    forall|i: int| 0 <= i < proof.len() ==> (#[trigger] proof[i])@.len() == 32
}

/// The nodes of a proof as hashes; each must have 32 bytes.
pub fn proof_path(proof: &Vec<Vec<u8>>) -> (r: Result<Vec<[u8; 32]>, CheckFailure>)
    ensures
        r is Ok <==> all_hash_sized(proof@),
        r matches Ok(p) ==> hash_seqs(p@) == byte_seqs(proof@),
        r matches Err(f) ==> f == CheckFailure::ProofNodeLength,
{
    let mut out: Vec<[u8; 32]> = Vec::new();
    let mut i: usize = 0;
    while i < proof.len()
        invariant
            i <= proof@.len(),
            out@.len() == i,
            forall|j: int| 0 <= j < i ==> (#[trigger] proof@[j])@.len() == 32,
            forall|j: int| 0 <= j < i ==> #[trigger] out@[j]@ == proof@[j]@,
        decreases proof@.len() - i,
    {
        match array32(proof[i].as_slice()) {
            Some(h) => out.push(h),
            None => {
                return Err(CheckFailure::ProofNodeLength);
            },
        }
        i += 1;
    }
    assert(hash_seqs(out@) =~= byte_seqs(proof@));
    Ok(out)
}

/// Checks that entry `seq` is in the tree of `tree_size` leaves with root
/// `root`: the leaf hash the server returned must have 32 bytes and be the
/// leaf hash of the entry's data, the proof must be the one for leaf `seq`,
/// and the path must lead from that leaf hash at `seq` to the root.
pub fn check_inclusion(
    seq: u64,
    tree_size: u64,
    root: &[u8; 32],
    leaf_index: u64,
    path: &Vec<[u8; 32]>,
    leaf_hash: &Vec<u8>,
    data: &Vec<u8>,
) -> (r: Result<(), CheckFailure>)
    ensures
        r is Ok <==> {
            &&& leaf_hash@.len() == 32
            &&& leaf_hash@ == spec_leaf_hash(data@)
            &&& leaf_index == seq
            &&& inclusion_verifies(
                leaf_hash@,
                seq as nat,
                tree_size as nat,
                hash_seqs(path@),
                root@,
            )
        },
        r matches Err(f) ==> f == if leaf_hash@.len() != 32 {
            CheckFailure::LeafHashLength
        } else if leaf_hash@ != spec_leaf_hash(data@) {
            CheckFailure::LeafHashMismatch(seq)
        } else if leaf_index != seq {
            CheckFailure::LeafIndexMismatch { seq, leaf_index }
        } else {
            CheckFailure::InclusionInvalid(seq)
        },
{
    let leaf = match array32(leaf_hash.as_slice()) {
        Some(h) => h,
        None => {
            return Err(CheckFailure::LeafHashLength);
        },
    };
    let expected = crate::hash::leaf_hash(data.as_slice());
    if !hashes_equal(&leaf, &expected) {
        return Err(CheckFailure::LeafHashMismatch(seq));
    }
    if leaf_index != seq {
        return Err(CheckFailure::LeafIndexMismatch { seq, leaf_index });
    }
    if verify_inclusion(leaf, seq, tree_size, path.as_slice(), *root) {
        Ok(())
    } else {
        Err(CheckFailure::InclusionInvalid(seq))
    }
}

} // verus!
