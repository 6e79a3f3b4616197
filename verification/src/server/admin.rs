//! The admin API's answers and the service's API-key check.
use vstd::prelude::*;
use vstd::string::StringSliceAdditionalSpecFns;
use crate::hex_codec::{hex_encode, hex_encoding};
use crate::storage::keys::KeyRecord;
use crate::storage::types::SignedTreeHead;

verus! {

/// A key record as the admin API serves it: the key as hex text.
pub struct KeyRecordJson {
    pub version: u32,
    pub public_key: String,
    pub activated_at_tree_size: u64,
}

impl KeyRecordJson {
    /// The served form of a key record.
    pub fn from(r: KeyRecord) -> (j: KeyRecordJson)
        ensures
            j.version == r.version,
            j.public_key@ == hex_encoding(r.public_key@),
            j.activated_at_tree_size == r.activated_at_tree_size,
    {
        KeyRecordJson {
            version: r.version,
            public_key: hex_encode(r.public_key.as_slice()),
            activated_at_tree_size: r.activated_at_tree_size,
        }
    }
}

/// A signed tree head as the admin API serves it: the byte fields as hex.
pub struct SthJson {
    pub tree_size: u64,
    pub root_hash: String,
    pub timestamp_ns: i64,
    pub signature: String,
    pub public_key: String,
    pub key_version: u32,
}

impl SthJson {
    /// The served form of a signed tree head.
    pub fn from(s: &SignedTreeHead) -> (j: SthJson)
        ensures
            j.tree_size == s.tree_size,
            j.root_hash@ == hex_encoding(s.root_hash@),
            j.timestamp_ns == s.timestamp_ns,
            j.signature@ == hex_encoding(s.signature@),
            j.public_key@ == hex_encoding(s.public_key@),
            j.key_version == s.key_version,
    {
        SthJson {
            tree_size: s.tree_size,
            root_hash: hex_encode(s.root_hash.as_slice()),
            timestamp_ns: s.timestamp_ns,
            signature: hex_encode(s.signature.as_slice()),
            public_key: hex_encode(s.public_key.as_slice()),
            key_version: s.key_version,
        }
    }
}

/// The log's counters as the admin API serves them.
pub struct StatsJson {
    pub entry_count: u64,
    pub tree_size: u64,
    pub last_sth_timestamp_ns: Option<i64>,
}

/// The counters: the number of stored entries, the in-memory tree size and
/// the time of the latest signed head, if any.
pub fn stats(entry_count: u64, tree_size: u64, latest: &Option<SignedTreeHead>) -> (j: StatsJson)
    ensures
        j.entry_count == entry_count,
        j.tree_size == tree_size,
        j.last_sth_timestamp_ns == match *latest {
            Some(s) => Some(s.timestamp_ns),
            None => None::<i64>,
        },
{
    let last_sth_timestamp_ns = match latest {
        Some(s) => Some(s.timestamp_ns),
        None => None,
    };
    StatsJson { entry_count, tree_size, last_sth_timestamp_ns }
}

/// Whether a request may proceed: always when no API key is configured,
/// else only when its authorization header is exactly `Bearer <key>`.
pub fn api_key_accepts(expected: Option<&str>, header: Option<&[u8]>) -> (ok: bool)
    ensures
        ok == match expected {
            None => true,
            Some(k) => match header {
                Some(h) => h@ == "Bearer ".spec_bytes() + k.spec_bytes(),
                None => false,
            },
        },
{
    let k = match expected {
        None => {
            return true;
        },
        Some(k) => k,
    };
    let h = match header {
        None => {
            return false;
        },
        Some(h) => h,
    };
    let prefix = "Bearer ".as_bytes();
    let key = k.as_bytes();
    if h.len() < prefix.len() || h.len() - prefix.len() != key.len() {
        return false;
    }
    let mut i: usize = 0;
    while i < h.len()
        invariant
            prefix@ == "Bearer ".spec_bytes(),
            key@ == k.spec_bytes(),
            expected == Some(k),
            header == Some(h),
            h@.len() == prefix@.len() + key@.len(),
            i <= h@.len(),
            forall|j: int| 0 <= j < i ==> h@[j] == (prefix@ + key@)[j],
        decreases h@.len() - i,
    {
        let expected_byte = if i < prefix.len() {
            prefix[i]
        } else {
            key[i - prefix.len()]
        };
        if h[i] != expected_byte {
            assert(h@ != prefix@ + key@);
            return false;
        }
        i += 1;
    }
    assert(h@ =~= prefix@ + key@);
    true
}

} // verus!
