//! Result types of the client API and their conversion from the wire
//! messages; an absent message reads as the default (all zero, all empty)
//! message.
use vstd::prelude::*;
use crate::wire;

verus! {

/// A signed tree head as the client returns it.
pub struct SignedTreeHead {
    pub tree_size: u64,
    pub root_hash: Vec<u8>,
    pub timestamp_ns: i64,
    pub signature: Vec<u8>,
    pub public_key: Vec<u8>,
    pub key_version: u32,
}

/// The answer to an append.
pub struct AppendResult {
    pub seq: u64,
    pub timestamp_ns: i64,
    pub leaf_hash: Vec<u8>,
}

/// A log entry as the client returns it.
pub struct Entry {
    pub seq: u64,
    pub timestamp_ns: i64,
    pub key: Vec<u8>,
    pub data: Vec<u8>,
    pub leaf_hash: Vec<u8>,
}

/// An inclusion proof with the head it proves against.
pub struct InclusionProofResult {
    pub leaf_index: u64,
    pub tree_size: u64,
    pub proof: Vec<Vec<u8>>,
    pub sth: SignedTreeHead,
}

/// A consistency proof with the heads it relates.
pub struct ConsistencyProofResult {
    pub old_size: u64,
    pub new_size: u64,
    pub proof: Vec<Vec<u8>>,
    pub old_sth: SignedTreeHead,
    pub new_sth: SignedTreeHead,
}

/// The client's head read from the wire message.
pub open spec fn is_client_sth(c: SignedTreeHead, s: wire::SignedTreeHead) -> bool {
    &&& c.tree_size == s.tree_size
    &&& c.root_hash@ == s.root_hash@
    &&& c.timestamp_ns == s.timestamp_ns
    &&& c.signature@ == s.signature@
    &&& c.public_key@ == s.public_key@
    &&& c.key_version == s.key_version
}

/// The default head: all fields zero or empty.
pub open spec fn is_default_sth(c: SignedTreeHead) -> bool {
    &&& c.tree_size == 0
    &&& c.root_hash@.len() == 0
    &&& c.timestamp_ns == 0
    &&& c.signature@.len() == 0
    &&& c.public_key@.len() == 0
    &&& c.key_version == 0
}

/// The head a possibly absent wire head reads as.
pub open spec fn reads_as_sth(c: SignedTreeHead, o: Option<wire::SignedTreeHead>) -> bool {
    match o {
        Some(s) => is_client_sth(c, s),
        None => is_default_sth(c),
    }
}

/// The client's entry read from the wire message.
pub open spec fn is_client_entry(c: Entry, e: wire::Entry) -> bool {
    &&& c.seq == e.seq
    &&& c.timestamp_ns == e.timestamp_ns
    &&& c.key@ == e.key@
    &&& c.data@ == e.data@
    &&& c.leaf_hash@ == e.leaf_hash@
}

/// A signed tree head from its wire message.
pub fn from_pb_sth(s: wire::SignedTreeHead) -> (c: SignedTreeHead)
    ensures
        is_client_sth(c, s),
{
    SignedTreeHead {
        tree_size: s.tree_size,
        root_hash: s.root_hash,
        timestamp_ns: s.timestamp_ns,
        signature: s.signature,
        public_key: s.public_key,
        key_version: s.key_version,
    }
}

/// An entry from its wire message.
pub fn from_pb_entry(e: wire::Entry) -> (c: Entry)
    ensures
        is_client_entry(c, e),
{
    Entry {
        seq: e.seq,
        timestamp_ns: e.timestamp_ns,
        key: e.key,
        data: e.data,
        leaf_hash: e.leaf_hash,
    }
}

/// A possibly absent head from the wire: the default head when absent.
pub fn sth_or_default(o: Option<wire::SignedTreeHead>) -> (c: SignedTreeHead)
    ensures
        reads_as_sth(c, o),
{
    match o {
        Some(s) => from_pb_sth(s),
        None => SignedTreeHead {
            tree_size: 0,
            root_hash: Vec::new(),
            timestamp_ns: 0,
            signature: Vec::new(),
            public_key: Vec::new(),
            key_version: 0,
        },
    }
}

/// A possibly absent entry from the wire: the default entry when absent.
pub fn entry_or_default(o: Option<wire::Entry>) -> (c: Entry)
    ensures
        o matches Some(e) ==> is_client_entry(c, e),
        o is None ==> c.seq == 0 && c.timestamp_ns == 0 && c.key@.len() == 0 && c.data@.len()
            == 0 && c.leaf_hash@.len() == 0,
{
    match o {
        Some(e) => from_pb_entry(e),
        None => Entry {
            seq: 0,
            timestamp_ns: 0,
            key: Vec::new(),
            data: Vec::new(),
            leaf_hash: Vec::new(),
        },
    }
}

/// The entries of a wire answer, in order.
pub fn entries_from_pb(es: Vec<wire::Entry>) -> (out: Vec<Entry>)
    ensures
        out@.len() == es@.len(),
        forall|i: int| 0 <= i < out@.len() ==> is_client_entry(#[trigger] out@[i], es@[i]),
{
    let ghost all = es@;
    let mut rest = es;
    let mut out: Vec<Entry> = Vec::new();
    while rest.len() > 0
        invariant
            rest@.len() + out@.len() == all.len(),
            rest@ == all.skip(out@.len() as int),
            forall|i: int| 0 <= i < out@.len() ==> is_client_entry(#[trigger] out@[i], all[i]),
        decreases rest@.len(),
    {
        let ghost k = out@.len();
        let e = rest.remove(0);
        assert(e == all[k as int]);
        out.push(from_pb_entry(e));
        assert(rest@ =~= all.skip(out@.len() as int));
    }
    out
}

/// The answer to an append, from the wire.
pub fn append_result(r: wire::AppendResponse) -> (a: AppendResult)
    ensures
        a.seq == r.seq,
        a.timestamp_ns == r.timestamp_ns,
        a.leaf_hash@ == r.leaf_hash@,
{
    AppendResult { seq: r.seq, timestamp_ns: r.timestamp_ns, leaf_hash: r.leaf_hash }
}

/// An inclusion proof from the wire.
pub fn inclusion_result(r: wire::InclusionProofResponse) -> (p: InclusionProofResult)
    ensures
        p.leaf_index == r.leaf_index,
        p.tree_size == r.tree_size,
        p.proof@ == r.proof@,
        reads_as_sth(p.sth, r.sth),
{
    InclusionProofResult {
        leaf_index: r.leaf_index,
        tree_size: r.tree_size,
        proof: r.proof,
        sth: sth_or_default(r.sth),
    }
}

/// A consistency proof from the wire.
pub fn consistency_result(r: wire::ConsistencyProofResponse) -> (p: ConsistencyProofResult)
    ensures
        p.old_size == r.old_size,
        p.new_size == r.new_size,
        p.proof@ == r.proof@,
        reads_as_sth(p.old_sth, r.old_sth),
        reads_as_sth(p.new_sth, r.new_sth),
{
    ConsistencyProofResult {
        old_size: r.old_size,
        new_size: r.new_size,
        proof: r.proof,
        old_sth: sth_or_default(r.old_sth),
        new_sth: sth_or_default(r.new_sth),
    }
}

} // verus!
