//! The log's stored layout: entries keyed by big-endian sequence number,
//! and an index from entry key to sequence number.
use vstd::prelude::*;
use crate::bytes::{be_u64, bytes_to_vec};
use crate::hash::{leaf_hash, spec_leaf_hash};
use crate::sth::{be64, be_bytes_u64};
use crate::storage::types::{is_corruption, Error, LogEntryProto};

verus! {

/// The storage key of entry `seq`.
pub fn seq_key(seq: u64) -> (k: [u8; 8])
    ensures
        k@ == be64(seq),
{
    be_bytes_u64(seq)
}

/// The stored form of a new entry: its sequence number, time, key, data and
/// the leaf hash of its data.
pub fn new_log_record(seq: u64, timestamp_ns: i64, key: &[u8], data: &[u8]) -> (p: LogEntryProto)
    ensures
        p.seq == seq,
        p.timestamp_ns == timestamp_ns,
        p.key@ == key@,
        p.data@ == data@,
        p.leaf_hash@ == spec_leaf_hash(data@),
{
    let lh = leaf_hash(data);
    LogEntryProto {
        seq,
        timestamp_ns,
        key: bytes_to_vec(key),
        data: bytes_to_vec(data),
        leaf_hash: bytes_to_vec(lh.as_slice()),
    }
}

/// One step of a forward scan of the log for `[start, end)`: the sequence
/// number of the stored key, or `None` once the scan has passed `end`.
pub fn range_step(key: &[u8], end: u64) -> (r: Result<Option<u64>, Error>)
    ensures
        key@.len() != 8 ==> (r matches Err(e) && is_corruption(e, "bad seq key length"@)),
        key@.len() == 8 ==> (r matches Ok(o) && exists|seq: u64|
            #[trigger] be64(seq) == key@ && o == if seq >= end {
                None::<u64>
            } else {
                Some(seq)
            }),
{
    match be_u64(key) {
        Some(seq) => {
            if seq >= end {
                Ok(None)
            } else {
                Ok(Some(seq))
            }
        },
        None => Err(Error::Corruption("bad seq key length".to_owned())),
    }
}

/// The sequence number stored in the key index.
pub fn index_value_seq(value: &[u8]) -> (r: Result<u64, Error>)
    ensures
        r is Ok <==> value@.len() == 8,
        r matches Ok(seq) ==> be64(seq) == value@,
        r matches Err(e) ==> is_corruption(e, "bad seq value in index CF"@),
{
    match be_u64(value) {
        Some(seq) => Ok(seq),
        None => Err(Error::Corruption("bad seq value in index CF".to_owned())),
    }
}

/// One step of a forward scan of the stored heads for sizes up to
/// `to_size` (inclusive): the tree size of the stored key, or `None` once
/// the scan has passed `to_size`.
pub fn head_range_step(key: &[u8], to_size: u64) -> (r: Result<Option<u64>, Error>)
    ensures
        key@.len() != 8 ==> (r matches Err(e) && is_corruption(e, "bad tree_size key length"@)),
        key@.len() == 8 ==> (r matches Ok(o) && exists|size: u64|
            #[trigger] be64(size) == key@ && o == if size > to_size {
                None::<u64>
            } else {
                Some(size)
            }),
{
    match be_u64(key) {
        Some(size) => {
            if size > to_size {
                Ok(None)
            } else {
                Ok(Some(size))
            }
        },
        None => Err(Error::Corruption("bad tree_size key length".to_owned())),
    }
}

} // verus!
