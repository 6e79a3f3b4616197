//! The client-side SDK: plain result types and a standalone verifier that
//! checks proofs and signed tree heads with no server connection.
pub mod client;
pub mod checks;
