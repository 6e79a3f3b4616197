//! Storage-layer logic: record types and their encodings, Merkle node
//! materialisation, and the checks applied to what is read back.
pub mod tree_store;
pub mod types;
pub mod verify;
pub mod keys;
pub mod settled;
pub mod db;
pub mod log;
