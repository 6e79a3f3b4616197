//! Signing-key records: one per key version, with the tree size from which
//! the key signs.
use vstd::prelude::*;
use crate::bytes::{array32, be32, be_bytes_u32, bytes_to_vec};
use crate::storage::types::{is_corruption, Error};

verus! {

/// A signing key's public half, its version, and the tree size from which
/// it signs.
pub struct KeyRecord {
    pub version: u32,
    pub public_key: [u8; 32],
    pub activated_at_tree_size: u64,
}

/// The stored form of a key record.
pub struct KeyRecordProto {
    pub version: u32,
    pub public_key: Vec<u8>,
    pub activated_at_tree_size: u64,
}

impl KeyRecordProto {
    /// The stored form of a key record.
    pub fn from(record: &KeyRecord) -> (p: KeyRecordProto)
        ensures
            p.version == record.version,
            p.public_key@ == record.public_key@,
            p.activated_at_tree_size == record.activated_at_tree_size,
    {
        KeyRecordProto {
            version: record.version,
            public_key: bytes_to_vec(record.public_key.as_slice()),
            activated_at_tree_size: record.activated_at_tree_size,
        }
    }
}

/// Storage key of a record: its version, big-endian.
pub fn key_record_key(version: u32) -> (k: [u8; 4])
    ensures
        k@ == be32(version),
{
    be_bytes_u32(version)
}

/// Checks a stored key record: the public key must have 32 bytes.
pub fn decode(proto: KeyRecordProto) -> (r: Result<KeyRecord, Error>)
    ensures
        r is Ok <==> proto.public_key@.len() == 32,
        r matches Ok(k) ==> k.version == proto.version && k.public_key@ == proto.public_key@
            && k.activated_at_tree_size == proto.activated_at_tree_size,
        r matches Err(e) ==> is_corruption(e, "KeyRecord public_key must be 32 bytes"@),
{
    let public_key = match array32(proto.public_key.as_slice()) {
        Some(k) => k,
        None => {
            return Err(Error::Corruption("KeyRecord public_key must be 32 bytes".to_owned()));
        },
    };
    Ok(KeyRecord {
        version: proto.version,
        public_key,
        activated_at_tree_size: proto.activated_at_tree_size,
    })
}

} // verus!
