//! The log server's decisions: request validation and answers, the
//! replay-then-follow watch stream, tree-head signing, and pushes of signed
//! heads to witness nodes.
pub mod errors;
pub mod service;
pub mod watch;
pub mod push;
pub mod signing;
pub mod state;
pub mod admin;
