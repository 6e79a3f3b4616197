//! A tamper-evident, append-only audit log built on an RFC 6962 Merkle tree.
//!
//! Entries are hashed into leaves, leaves into an append-only binary Merkle
//! tree, and the tree root is signed with Ed25519.  The library holds the
//! hashing, the tree, proof generation and verification, the signing
//! payload, and the decisions taken around storage, signing and witness
//! pushes.
pub mod hash;
pub mod tree_math;
pub mod merkle;
pub mod proofs;
pub mod rfc6962;
pub mod crypto;
pub mod sth;
pub mod sdk;
pub mod storage;
pub mod hex_codec;
pub mod bytes;
pub mod text;
pub mod wire;
pub mod server;
pub mod witness;
pub mod tools;
