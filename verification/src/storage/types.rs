//! Record types of the log and their stored (protobuf-shaped) forms.
use vstd::prelude::*;
use crate::bytes::{array32, array64, bytes_to_vec};
use crate::text::{decimal_text, push_decimal, push_text};

verus! {

/// Storage errors.  Errors of the storage engine and of the protobuf codec
/// are carried as their messages.
pub enum Error {
    RocksDb(String),
    Encode(String),
    Decode(String),
    Corruption(String),
    SchemaMismatch { found: u32, supported: u32 },
}

/// The text of a storage error.
pub open spec fn storage_error_text(e: Error) -> Seq<char> {
    match e {
        Error::RocksDb(m) => "RocksDB error: "@ + m@,
        Error::Encode(m) => "Protobuf encode error: "@ + m@,
        Error::Decode(m) => "Protobuf decode error: "@ + m@,
        Error::Corruption(m) => "Data corruption: "@ + m@,
        Error::SchemaMismatch { found, supported } => "Schema version mismatch: found "@
            + decimal_text(found as nat) + ", this binary supports up to "@ + decimal_text(
            supported as nat,
        ),
    }
}

impl Error {
    /// The error's text.
    pub fn message(&self) -> (s: String)
        ensures
            s@ == storage_error_text(*self),
    {
        let mut s = String::new();
        match self {
            Error::RocksDb(m) => {
                push_text(&mut s, "RocksDB error: ");
                push_text(&mut s, m.as_str());
            },
            Error::Encode(m) => {
                push_text(&mut s, "Protobuf encode error: ");
                push_text(&mut s, m.as_str());
            },
            Error::Decode(m) => {
                push_text(&mut s, "Protobuf decode error: ");
                push_text(&mut s, m.as_str());
            },
            Error::Corruption(m) => {
                push_text(&mut s, "Data corruption: ");
                push_text(&mut s, m.as_str());
            },
            Error::SchemaMismatch { found, supported } => {
                push_text(&mut s, "Schema version mismatch: found ");
                push_decimal(&mut s, *found as u64);
                push_text(&mut s, ", this binary supports up to ");
                push_decimal(&mut s, *supported as u64);
            },
        }
        assert(s@ =~= storage_error_text(*self));
        s
    }
}

/// The message a malformed stored head is refused with: the first of its
/// root, signature and key that has the wrong length.
pub open spec fn sth_error_text(p: SignedTreeHeadProto) -> Seq<char> {
    if p.root_hash@.len() != 32 {
        "root_hash must be 32 bytes"@
    } else if p.signature@.len() != 64 {
        "signature must be 32 bytes"@
    } else {
        "public_key must be 32 bytes"@
    }
}

/// An entry of the log.
pub struct LogEntry {
    pub seq: u64,
    pub timestamp_ns: i64,
    pub key: Vec<u8>,
    pub data: Vec<u8>,
    pub leaf_hash: [u8; 32],
}

/// The stored form of a log entry.
pub struct LogEntryProto {
    pub seq: u64,
    pub timestamp_ns: i64,
    pub key: Vec<u8>,
    pub data: Vec<u8>,
    pub leaf_hash: Vec<u8>,
}

/// A signed tree head.
pub struct SignedTreeHead {
    pub tree_size: u64,
    pub root_hash: [u8; 32],
    pub timestamp_ns: i64,
    pub signature: [u8; 64],
    pub public_key: [u8; 32],
    pub key_version: u32,
}

/// The stored form of a signed tree head.
pub struct SignedTreeHeadProto {
    pub tree_size: u64,
    pub root_hash: Vec<u8>,
    pub timestamp_ns: i64,
    pub signature: Vec<u8>,
    pub public_key: Vec<u8>,
    pub key_version: u32,
}

/// A witness node's counter-signature on a signed tree head.
pub struct CounterSignature {
    pub settled_node_url: String,
    pub public_key: [u8; 32],
    pub signature: [u8; 64],
}

/// A signed tree head together with the counter-signatures collected for it.
pub struct FinalSTH {
    pub sth: SignedTreeHead,
    pub counter_signatures: Vec<CounterSignature>,
}

/// A corruption error with the given message.
pub open spec fn is_corruption(e: Error, msg: Seq<char>) -> bool {
    e matches Error::Corruption(m) && m@ == msg
}

impl LogEntry {
    /// Checks the stored form: the leaf hash must have 32 bytes.
    pub fn try_from(p: LogEntryProto) -> (r: Result<LogEntry, Error>)
        ensures
            r is Ok <==> p.leaf_hash@.len() == 32,
            r matches Ok(e) ==> is_entry_proto_of(p, e) && e.key == p.key && e.data == p.data,
            r matches Err(e) ==> is_corruption(e, "leaf_hash must be 32 bytes"@),
    {
        let leaf_hash = match array32(p.leaf_hash.as_slice()) {
            Some(h) => h,
            None => {
                return Err(Error::Corruption("leaf_hash must be 32 bytes".to_owned()));
            },
        };
        Ok(LogEntry {
            seq: p.seq,
            timestamp_ns: p.timestamp_ns,
            key: p.key,
            data: p.data,
            leaf_hash,
        })
    }
}

impl LogEntryProto {
    /// The stored form of an entry.
    pub fn from(e: &LogEntry) -> (p: LogEntryProto)
        ensures
            is_entry_proto_of(p, *e),
    {
        LogEntryProto {
            seq: e.seq,
            timestamp_ns: e.timestamp_ns,
            key: bytes_to_vec(e.key.as_slice()),
            data: bytes_to_vec(e.data.as_slice()),
            leaf_hash: bytes_to_vec(e.leaf_hash.as_slice()),
        }
    }
}

impl SignedTreeHead {
    /// Checks the stored form: 32-byte root hash, 64-byte signature and
    /// 32-byte public key, checked in that order.
    pub fn try_from(p: SignedTreeHeadProto) -> (r: Result<SignedTreeHead, Error>)
        ensures
            r is Ok <==> sth_proto_well_formed(p),
            r matches Ok(s) ==> is_sth_proto_of(p, s),
            r matches Err(e) ==> is_corruption(e, sth_error_text(p)),
    {
        let root_hash = match array32(p.root_hash.as_slice()) {
            Some(h) => h,
            None => {
                return Err(Error::Corruption("root_hash must be 32 bytes".to_owned()));
            },
        };
        let signature = match array64(p.signature.as_slice()) {
            Some(s) => s,
            None => {
                return Err(Error::Corruption("signature must be 32 bytes".to_owned()));
            },
        };
        let public_key = match array32(p.public_key.as_slice()) {
            Some(k) => k,
            None => {
                return Err(Error::Corruption("public_key must be 32 bytes".to_owned()));
            },
        };
        Ok(SignedTreeHead {
            tree_size: p.tree_size,
            root_hash,
            timestamp_ns: p.timestamp_ns,
            signature,
            public_key,
            key_version: p.key_version,
        })
    }
}

impl SignedTreeHeadProto {
    /// The stored form of a signed tree head.
    pub fn from(s: &SignedTreeHead) -> (p: SignedTreeHeadProto)
        ensures
            is_sth_proto_of(p, *s),
    {
        SignedTreeHeadProto {
            tree_size: s.tree_size,
            root_hash: bytes_to_vec(s.root_hash.as_slice()),
            timestamp_ns: s.timestamp_ns,
            signature: bytes_to_vec(s.signature.as_slice()),
            public_key: bytes_to_vec(s.public_key.as_slice()),
            key_version: s.key_version,
        }
    }
}

/// The stored form of a counter-signature.
pub struct CounterSignatureProto {
    pub settled_node_url: String,
    pub public_key: Vec<u8>,
    pub signature: Vec<u8>,
}

/// The stored form of a head with its counter-signatures; a missing head
/// reads as the default (empty) one.
pub struct FinalSTHProto {
    pub sth: Option<SignedTreeHeadProto>,
    pub counter_signatures: Vec<CounterSignatureProto>,
}

impl FinalSTHProto {
    /// The stored form of a head with its counter-signatures.
    pub fn from(f: &FinalSTH) -> (p: FinalSTHProto)
        ensures
            p.sth matches Some(s) && is_sth_proto_of(s, f.sth),
            p.counter_signatures@.len() == f.counter_signatures@.len(),
            forall|i: int|
                0 <= i < p.counter_signatures@.len() ==> {
                    let c = #[trigger] p.counter_signatures@[i];
                    let d = f.counter_signatures@[i];
                    &&& c.settled_node_url@ == d.settled_node_url@
                    &&& c.public_key@ == d.public_key@
                    &&& c.signature@ == d.signature@
                },
    {
        let mut sigs: Vec<CounterSignatureProto> = Vec::new();
        let mut i: usize = 0;
        while i < f.counter_signatures.len()
            invariant
                i <= f.counter_signatures@.len(),
                sigs@.len() == i,
                forall|j: int|
                    0 <= j < i ==> {
                        let c = #[trigger] sigs@[j];
                        let d = f.counter_signatures@[j];
                        &&& c.settled_node_url@ == d.settled_node_url@
                        &&& c.public_key@ == d.public_key@
                        &&& c.signature@ == d.signature@
                    },
            decreases f.counter_signatures@.len() - i,
        {
            let d = &f.counter_signatures[i];
            sigs.push(
                CounterSignatureProto {
                    settled_node_url: d.settled_node_url.clone(),
                    public_key: bytes_to_vec(d.public_key.as_slice()),
                    signature: bytes_to_vec(d.signature.as_slice()),
                },
            );
            i += 1;
        }
        FinalSTHProto { sth: Some(SignedTreeHeadProto::from(&f.sth)), counter_signatures: sigs }
    }
}

/// A stored counter-signature that reads back: 32-byte key, 64-byte
/// signature.
pub open spec fn counter_signature_well_formed(c: CounterSignatureProto) -> bool {
    c.public_key@.len() == 32 && c.signature@.len() == 64
}

/// The message stored counter-signatures are refused with: that of the
/// first one whose key, or else whose signature, has the wrong length.
pub open spec fn counter_error_text(cs: Seq<CounterSignatureProto>) -> Seq<char>
    decreases cs.len(),
{
    if cs.len() == 0 {
        Seq::empty()
    } else if cs[0].public_key@.len() != 32 {
        "counter_signature public_key must be 32 bytes"@
    } else if cs[0].signature@.len() != 64 {
        "counter_signature must be 64 bytes"@
    } else {
        counter_error_text(cs.drop_first())
    }
}

impl FinalSTH {
    /// Checks a stored head with its counter-signatures: the head as any
    /// stored head (a missing one reads as empty and fails the root check),
    /// then each counter-signature's key and signature lengths, in order.
    pub fn try_from(p: FinalSTHProto) -> (r: Result<FinalSTH, Error>)
        ensures
            r is Ok <==> (p.sth matches Some(s) && sth_proto_well_formed(s)) && forall|i: int|
                0 <= i < p.counter_signatures@.len() ==> counter_signature_well_formed(
                    #[trigger] p.counter_signatures@[i],
                ),
            r matches Ok(f) ==> (p.sth matches Some(s) && is_sth_proto_of(s, f.sth))
                && f.counter_signatures@.len() == p.counter_signatures@.len() && forall|i: int|
                0 <= i < f.counter_signatures@.len() ==> {
                    let c = p.counter_signatures@[i];
                    let d = #[trigger] f.counter_signatures@[i];
                    &&& d.settled_node_url@ == c.settled_node_url@
                    &&& d.public_key@ == c.public_key@
                    &&& d.signature@ == c.signature@
                },
            r matches Err(e) ==> is_corruption(
                e,
                match p.sth {
                    Some(h) => if sth_proto_well_formed(h) {
                        counter_error_text(p.counter_signatures@)
                    } else {
                        sth_error_text(h)
                    },
                    None => "root_hash must be 32 bytes"@,
                },
            ),
    {
        let sth_proto = match p.sth {
            Some(s) => s,
            None => SignedTreeHeadProto {
                tree_size: 0,
                root_hash: Vec::new(),
                timestamp_ns: 0,
                signature: Vec::new(),
                public_key: Vec::new(),
                key_version: 0,
            },
        };
        let sth = match SignedTreeHead::try_from(sth_proto) {
            Ok(s) => s,
            Err(e) => {
                return Err(e);
            },
        };
        let ghost all = p.counter_signatures@;
        let mut rest = p.counter_signatures;
        let mut out: Vec<CounterSignature> = Vec::new();
        while rest.len() > 0
            invariant
                all == p.counter_signatures@,
                p.sth matches Some(h) && sth_proto_well_formed(h),
                counter_error_text(all) == counter_error_text(rest@),
                rest@.len() + out@.len() == all.len(),
                rest@ == all.skip(out@.len() as int),
                forall|j: int| 0 <= j < out@.len() ==> counter_signature_well_formed(#[trigger] all[j]),
                forall|j: int|
                    0 <= j < out@.len() ==> {
                        let c = all[j];
                        let d = #[trigger] out@[j];
                        &&& d.settled_node_url@ == c.settled_node_url@
                        &&& d.public_key@ == c.public_key@
                        &&& d.signature@ == c.signature@
                    },
            decreases rest@.len(),
        {
            let ghost k = out@.len();
            let ghost before = rest@;
            let c = rest.remove(0);
            assert(c == all[k as int]);
            assert(c == before[0]);
            assert(before.drop_first() =~= rest@);
            let public_key = match array32(c.public_key.as_slice()) {
                Some(x) => x,
                None => {
                    return Err(
                        Error::Corruption("counter_signature public_key must be 32 bytes".to_owned()),
                    );
                },
            };
            let signature = match array64(c.signature.as_slice()) {
                Some(x) => x,
                None => {
                    return Err(Error::Corruption("counter_signature must be 64 bytes".to_owned()));
                },
            };
            out.push(CounterSignature { settled_node_url: c.settled_node_url, public_key, signature });
            assert(rest@ =~= all.skip(out@.len() as int));
        }
        Ok(FinalSTH { sth, counter_signatures: out })
    }
}

/// The stored form `p` carries the fields of the entry `e`.
pub open spec fn is_entry_proto_of(p: LogEntryProto, e: LogEntry) -> bool {
    &&& p.seq == e.seq
    &&& p.timestamp_ns == e.timestamp_ns
    &&& p.key@ == e.key@
    &&& p.data@ == e.data@
    &&& p.leaf_hash@ == e.leaf_hash@
}

/// Storing an entry and reading it back gives the same entry: the stored
/// form always reads back, into an entry with the same fields.
pub proof fn lemma_log_entry_round_trip(e: LogEntry, p: LogEntryProto)
    requires
        is_entry_proto_of(p, e),
    ensures
        p.leaf_hash@.len() == 32,
        forall|t: LogEntry| #[trigger] is_entry_proto_of(p, t) ==> {
            &&& t.seq == e.seq
            &&& t.timestamp_ns == e.timestamp_ns
            &&& t.key@ == e.key@
            &&& t.data@ == e.data@
            &&& t.leaf_hash == e.leaf_hash
        },
{
    assert forall|t: LogEntry| #[trigger] is_entry_proto_of(p, t) implies t.leaf_hash
        == e.leaf_hash by {
        assert forall|i: int| 0 <= i < 32 implies t.leaf_hash[i] == e.leaf_hash[i] by {
            assert(t.leaf_hash@[i] == e.leaf_hash@[i]);
        }
        assert(t.leaf_hash =~= e.leaf_hash);
    }
}

/// The stored form `p` carries the fields of the head `s`.
pub open spec fn is_sth_proto_of(p: SignedTreeHeadProto, s: SignedTreeHead) -> bool {
    &&& p.tree_size == s.tree_size
    &&& p.root_hash@ == s.root_hash@
    &&& p.timestamp_ns == s.timestamp_ns
    &&& p.signature@ == s.signature@
    &&& p.public_key@ == s.public_key@
    &&& p.key_version == s.key_version
}

/// A stored head that reads back: 32-byte root, 64-byte signature, 32-byte
/// key.
pub open spec fn sth_proto_well_formed(p: SignedTreeHeadProto) -> bool {
    p.root_hash@.len() == 32 && p.signature@.len() == 64 && p.public_key@.len() == 32
}

/// Storing a signed tree head and reading it back gives the same head: the
/// stored form always reads back, and into no other head.
pub proof fn lemma_sth_round_trip(s: SignedTreeHead, p: SignedTreeHeadProto)
    requires
        is_sth_proto_of(p, s),
    ensures
        sth_proto_well_formed(p),
        forall|t: SignedTreeHead| #[trigger] is_sth_proto_of(p, t) ==> t == s,
{
    assert forall|t: SignedTreeHead| #[trigger] is_sth_proto_of(p, t) implies t == s by {
        assert forall|i: int| 0 <= i < 32 implies t.root_hash[i] == s.root_hash[i] by {
            assert(t.root_hash@[i] == s.root_hash@[i]);
        }
        assert forall|i: int| 0 <= i < 64 implies t.signature[i] == s.signature[i] by {
            assert(t.signature@[i] == s.signature@[i]);
        }
        assert forall|i: int| 0 <= i < 32 implies t.public_key[i] == s.public_key[i] by {
            assert(t.public_key@[i] == s.public_key@[i]);
        }
        assert(t.root_hash =~= s.root_hash);
        assert(t.signature =~= s.signature);
        assert(t.public_key =~= s.public_key);
    }
}

} // verus!
