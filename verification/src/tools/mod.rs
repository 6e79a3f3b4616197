//! The logic of the command-line tools: the checks the log checker runs on
//! what a server returns, and the demo's verification helpers and table
//! formatting.
pub mod check;
pub mod demo;
