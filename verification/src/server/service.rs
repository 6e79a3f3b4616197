//! The answers of the log service, computed from what the stores returned.
//!
//! Each handler reads its stores in a fixed order; the functions here take
//! what each read gave back and decide the answer or the next step, so that
//! every check, clamp and message is the one stated in their contracts.
use vstd::prelude::*;
use crate::bytes::bytes_to_vec;
use crate::proofs::{consistency_proof, consistency_proof_spec, hash_seqs, inclusion_proof, path_spec, ProofError};
use crate::server::errors::Error;
use crate::storage::types::{LogEntry, SignedTreeHead};
use crate::text::{decimal_text, push_decimal, push_text};
use crate::wire::{self, byte_seqs, path_bytes};

verus! {

/// Most entries one latest-entries call returns.
pub const MAX_LATEST: u32 = 1000;

/// Most entries one by-key call returns.
pub const MAX_BY_KEY: u32 = 1000;

/// Page size of a by-key call that asks for none.
pub const DEFAULT_BY_KEY: u32 = 50;

/// Most entries one list call returns.
pub const MAX_LIST: u32 = 1000;

/// Page size of a list call that asks for none.
pub const DEFAULT_LIST: u32 = 50;

/// `n` with 0 read as `default` and larger values cut to `max`.
pub open spec fn clamped(n: u32, default: u32, max: u32) -> nat {
    if n == 0 {
        default as nat
    } else if n < max {
        n as nat
    } else {
        max as nat
    }
}

/// How many of the newest entries a latest-entries call returns: 0 asks for
/// one, and more than the cap are silently cut to it.
pub fn latest_count(n: u32) -> (c: usize)
    ensures
        c == clamped(n, 1, MAX_LATEST),
{
    if n == 0 {
        1
    } else if n < MAX_LATEST {
        n as usize
    } else {
        MAX_LATEST as usize
    }
}

/// The page size of a list call.
pub fn list_limit(limit: u32) -> (c: usize)
    ensures
        c == clamped(limit, DEFAULT_LIST, MAX_LIST),
{
    if limit == 0 {
        DEFAULT_LIST as usize
    } else if limit < MAX_LIST {
        limit as usize
    } else {
        MAX_LIST as usize
    }
}

/// The page size of a by-key call.
pub fn by_key_limit(limit: u32) -> (c: usize)
    ensures
        c == clamped(limit, DEFAULT_BY_KEY, MAX_BY_KEY),
{
    if limit == 0 {
        DEFAULT_BY_KEY as usize
    } else if limit < MAX_BY_KEY {
        limit as usize
    } else {
        MAX_BY_KEY as usize
    }
}

/// Where a list call starts: at the cursor when one is given, else at the
/// requested first sequence number.
pub fn list_start(cursor: u64, from_seq: u64) -> (start: u64)
    ensures
        start == if cursor > 0 {
            cursor
        } else {
            from_seq
        },
{
    if cursor > 0 {
        cursor
    } else {
        from_seq
    }
}

/// A by-key call needs a key.
pub fn check_key(key: &[u8]) -> (r: Result<(), Error>)
    ensures
        r is Ok <==> key@.len() > 0,
        r matches Err(e) ==> e matches Error::InvalidArgument(m) && m@ == "key must not be empty"@,
{
    if key.len() == 0 {
        Err(Error::InvalidArgument("key must not be empty".to_owned()))
    } else {
        Ok(())
    }
}

/// The wire form of a log entry.
pub open spec fn is_entry_message(m: wire::Entry, e: LogEntry) -> bool {
    &&& m.seq == e.seq
    &&& m.timestamp_ns == e.timestamp_ns
    &&& m.key@ == e.key@
    &&& m.data@ == e.data@
    &&& m.leaf_hash@ == e.leaf_hash@
}

/// A log entry as sent on the wire.
pub fn entry_message(e: LogEntry) -> (m: wire::Entry)
    ensures
        is_entry_message(m, e),
{
    let leaf_hash = bytes_to_vec(e.leaf_hash.as_slice());
    wire::Entry { seq: e.seq, timestamp_ns: e.timestamp_ns, key: e.key, data: e.data, leaf_hash }
}

/// Log entries as sent on the wire, in the same order.
pub fn entry_messages(entries: Vec<LogEntry>) -> (out: Vec<wire::Entry>)
    ensures
        out@.len() == entries@.len(),
        forall|i: int| 0 <= i < out@.len() ==> is_entry_message(#[trigger] out@[i], entries@[i]),
{
    let ghost all = entries@;
    let mut rest = entries;
    let mut out: Vec<wire::Entry> = Vec::new();
    while rest.len() > 0
        invariant
            rest@.len() + out@.len() == all.len(),
            rest@ == all.skip(out@.len() as int),
            forall|i: int| 0 <= i < out@.len() ==> is_entry_message(#[trigger] out@[i], all[i]),
        decreases rest@.len(),
    {
        let ghost k = out@.len();
        let e = rest.remove(0);
        assert(e == all[k as int]);
        out.push(entry_message(e));
        assert(rest@ =~= all.skip(out@.len() as int));
    }
    out
}

/// What an append answers, and the entry it announces to watchers, once
/// the log has stored it as `seq` at `timestamp_ns`.
pub fn append_messages(
    seq: u64,
    timestamp_ns: i64,
    key: Vec<u8>,
    data: Vec<u8>,
    leaf_hash: &[u8; 32],
) -> (r: (wire::Entry, wire::AppendResponse))
    ensures
        r.0.seq == seq && r.0.timestamp_ns == timestamp_ns && r.0.key@ == key@ && r.0.data@
            == data@ && r.0.leaf_hash@ == leaf_hash@,
        r.1.seq == seq && r.1.timestamp_ns == timestamp_ns && r.1.leaf_hash@ == leaf_hash@,
{
    let entry = wire::Entry {
        seq,
        timestamp_ns,
        key,
        data,
        leaf_hash: bytes_to_vec(leaf_hash.as_slice()),
    };
    let response = wire::AppendResponse {
        seq,
        timestamp_ns,
        leaf_hash: bytes_to_vec(leaf_hash.as_slice()),
    };
    (entry, response)
}

/// The wire form of a signed tree head.
pub open spec fn is_sth_message(m: wire::SignedTreeHead, s: SignedTreeHead) -> bool {
    &&& m.tree_size == s.tree_size
    &&& m.root_hash@ == s.root_hash@
    &&& m.timestamp_ns == s.timestamp_ns
    &&& m.signature@ == s.signature@
    &&& m.public_key@ == s.public_key@
    &&& m.key_version == s.key_version
}

/// A signed tree head as sent on the wire.
pub fn sth_to_proto(s: &SignedTreeHead) -> (m: wire::SignedTreeHead)
    ensures
        is_sth_message(m, *s),
{
    wire::SignedTreeHead {
        tree_size: s.tree_size,
        root_hash: bytes_to_vec(s.root_hash.as_slice()),
        timestamp_ns: s.timestamp_ns,
        signature: bytes_to_vec(s.signature.as_slice()),
        public_key: bytes_to_vec(s.public_key.as_slice()),
        key_version: s.key_version,
    }
}

/// A not-found error whose message is `prefix` followed by `n`.
fn not_found_at(prefix: &str, n: u64) -> (e: Error)
    ensures
        e matches Error::NotFound(m) && m@ == prefix@ + decimal_text(n as nat),
{
    let mut m = String::new();
    push_text(&mut m, prefix);
    push_decimal(&mut m, n);
    assert(m@ =~= prefix@ + decimal_text(n as nat));
    Error::NotFound(m)
}

/// The answer to a lookup by sequence number, from what the log returned.
pub fn get_response(seq: u64, found: Option<LogEntry>) -> (r: Result<wire::Entry, Error>)
    ensures
        r is Ok <==> found is Some,
        r matches Ok(m) ==> is_entry_message(m, found->0),
        r matches Err(e) ==> e matches Error::NotFound(m) && m@ == "seq "@ + decimal_text(
            seq as nat,
        ) + " not found"@,
{
    match found {
        Some(e) => Ok(entry_message(e)),
        None => {
            let mut m = String::new();
            push_text(&mut m, "seq ");
            push_decimal(&mut m, seq);
            push_text(&mut m, " not found");
            Err(Error::NotFound(m))
        },
    }
}

/// The not-found message when no tree head has been signed yet.
pub open spec fn no_sth_yet(e: Error) -> bool {
    e matches Error::NotFound(m) && m@ == "no STH available yet"@
}

/// The tree size a request is about: the requested one, or, when 0 was
/// requested, that of the latest signed head (`latest`, read only then).
pub fn resolve_tree_size(requested: u64, latest: Option<u64>) -> (r: Result<u64, Error>)
    ensures
        requested != 0 ==> r == Ok::<u64, Error>(requested),
        requested == 0 ==> (r is Ok <==> latest is Some),
        requested == 0 && latest is Some ==> r == Ok::<u64, Error>(latest->0),
        r matches Err(e) ==> no_sth_yet(e),
{
    if requested != 0 {
        Ok(requested)
    } else {
        match latest {
            Some(n) => Ok(n),
            None => Err(Error::NotFound("no STH available yet".to_owned())),
        }
    }
}

/// The answer to a tree-head request, from the head the store returned:
/// the latest one when 0 was requested, else the one of that size.
pub fn sth_response(requested: u64, found: Option<SignedTreeHead>) -> (r: Result<
    wire::SignedTreeHead,
    Error,
>)
    ensures
        r is Ok <==> found is Some,
        r matches Ok(m) ==> is_sth_message(m, found->0),
        r matches Err(e) ==> if requested == 0 {
            no_sth_yet(e)
        } else {
            e matches Error::NotFound(m) && m@ == "no STH at tree_size "@ + decimal_text(
                requested as nat,
            )
        },
{
    match found {
        Some(s) => Ok(sth_to_proto(&s)),
        None => {
            if requested == 0 {
                Err(Error::NotFound("no STH available yet".to_owned()))
            } else {
                Err(not_found_at("no STH at tree_size ", requested))
            }
        },
    }
}

/// An inclusion proof is only asked of a leaf inside the tree.
pub fn check_leaf_in_range(seq: u64, tree_size: u64) -> (r: Result<(), Error>)
    ensures
        r is Ok <==> seq < tree_size,
        r matches Err(e) ==> e matches Error::InvalidArgument(m) && m@ == "seq "@ + decimal_text(
            seq as nat,
        ) + " is out of range for tree_size "@ + decimal_text(tree_size as nat),
{
    if seq >= tree_size {
        let mut m = String::new();
        push_text(&mut m, "seq ");
        push_decimal(&mut m, seq);
        push_text(&mut m, " is out of range for tree_size ");
        push_decimal(&mut m, tree_size);
        Err(Error::InvalidArgument(m))
    } else {
        Ok(())
    }
}

/// The audit path of leaf `seq` among the leaf hashes read from the log.
pub fn inclusion_path(leaf_hashes: &Vec<[u8; 32]>, seq: u64) -> (r: Result<Vec<[u8; 32]>, Error>)
    requires
        seq <= usize::MAX,
    ensures
        r is Ok <==> seq < leaf_hashes@.len(),
        r matches Ok(p) ==> hash_seqs(p@) == path_spec(leaf_hashes@, seq as nat),
        r matches Err(e) ==> e == Error::Proof(
            ProofError::LeafIndexOutOfRange(seq, leaf_hashes@.len() as u64),
        ),
{
    match inclusion_proof(leaf_hashes.as_slice(), seq as usize) {
        Ok(p) => Ok(p),
        Err(e) => Err(Error::Proof(e)),
    }
}

/// The answer to an inclusion-proof request, once the path is known, from
/// the head of that tree size that the store returned.
pub fn inclusion_response(
    seq: u64,
    tree_size: u64,
    path: &Vec<[u8; 32]>,
    sth: Option<SignedTreeHead>,
) -> (r: Result<wire::InclusionProofResponse, Error>)
    ensures
        r is Ok <==> sth is Some,
        r matches Ok(resp) ==> {
            &&& resp.leaf_index == seq
            &&& resp.tree_size == tree_size
            &&& byte_seqs(resp.proof@) == hash_seqs(path@)
            &&& resp.sth matches Some(m) && is_sth_message(m, sth->0)
        },
        r matches Err(e) ==> e matches Error::NotFound(m) && m@ == "no STH at tree_size "@
            + decimal_text(tree_size as nat),
{
    match sth {
        Some(s) => Ok(
            wire::InclusionProofResponse {
                leaf_index: seq,
                tree_size,
                proof: path_bytes(path),
                sth: Some(sth_to_proto(&s)),
            },
        ),
        None => Err(not_found_at("no STH at tree_size ", tree_size)),
    }
}

/// A consistency proof is only asked from a non-empty tree.
pub fn check_old_size(old_size: u64) -> (r: Result<(), Error>)
    ensures
        r is Ok <==> old_size > 0,
        r matches Err(e) ==> e matches Error::InvalidArgument(m) && m@ == "old_size must be > 0"@,
{
    if old_size == 0 {
        Err(Error::InvalidArgument("old_size must be > 0".to_owned()))
    } else {
        Ok(())
    }
}

/// The older tree of a consistency proof may not be the larger one.
pub fn check_size_order(old_size: u64, new_size: u64) -> (r: Result<(), Error>)
    ensures
        r is Ok <==> old_size <= new_size,
        r matches Err(e) ==> e matches Error::InvalidArgument(m) && m@ == "old_size "@
            + decimal_text(old_size as nat) + " > new_size "@ + decimal_text(new_size as nat),
{
    if old_size > new_size {
        let mut m = String::new();
        push_text(&mut m, "old_size ");
        push_decimal(&mut m, old_size);
        push_text(&mut m, " > new_size ");
        push_decimal(&mut m, new_size);
        Err(Error::InvalidArgument(m))
    } else {
        Ok(())
    }
}

/// The consistency proof from the first `old_size` of the leaf hashes read
/// from the log to all of them.
pub fn consistency_path(leaf_hashes: &Vec<[u8; 32]>, old_size: u64) -> (r: Result<
    Vec<[u8; 32]>,
    Error,
>)
    requires
        old_size <= usize::MAX,
    ensures
        r is Ok <==> 0 < old_size <= leaf_hashes@.len(),
        r matches Ok(p) ==> hash_seqs(p@) == consistency_proof_spec(
            leaf_hashes@,
            old_size as nat,
        ),
        r matches Err(e) ==> e == Error::Proof(
            ProofError::InvalidSizes(old_size, leaf_hashes@.len() as u64),
        ),
{
    match consistency_proof(leaf_hashes.as_slice(), old_size as usize) {
        Ok(p) => Ok(p),
        Err(e) => Err(Error::Proof(e)),
    }
}

/// The answer to a consistency-proof request, once the proof is known,
/// from the heads of the two sizes that the store returned (the newer one
/// is only read when the older one was found).
pub fn consistency_response(
    old_size: u64,
    new_size: u64,
    path: &Vec<[u8; 32]>,
    old_sth: Option<SignedTreeHead>,
    new_sth: Option<SignedTreeHead>,
) -> (r: Result<wire::ConsistencyProofResponse, Error>)
    ensures
        r is Ok <==> old_sth is Some && new_sth is Some,
        r matches Ok(resp) ==> {
            &&& resp.old_size == old_size
            &&& resp.new_size == new_size
            &&& byte_seqs(resp.proof@) == hash_seqs(path@)
            &&& resp.old_sth matches Some(m) && is_sth_message(m, old_sth->0)
            &&& resp.new_sth matches Some(m) && is_sth_message(m, new_sth->0)
        },
        r matches Err(e) ==> e matches Error::NotFound(m) && m@ == if old_sth is None {
            "no STH at old_size "@ + decimal_text(old_size as nat)
        } else {
            "no STH at new_size "@ + decimal_text(new_size as nat)
        },
{
    let old = match old_sth {
        Some(s) => s,
        None => {
            return Err(not_found_at("no STH at old_size ", old_size));
        },
    };
    let new = match new_sth {
        Some(s) => s,
        None => {
            return Err(not_found_at("no STH at new_size ", new_size));
        },
    };
    Ok(
        wire::ConsistencyProofResponse {
            old_size,
            new_size,
            proof: path_bytes(path),
            old_sth: Some(sth_to_proto(&old)),
            new_sth: Some(sth_to_proto(&new)),
        },
    )
}

} // verus!
