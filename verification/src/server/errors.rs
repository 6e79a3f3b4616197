//! Errors of the log service and the status each is answered with.
use vstd::prelude::*;
use crate::proofs::{proof_error_text, ProofError};
use crate::storage::types::{storage_error_text, Error as StorageError};

verus! {

/// Why a request failed.
pub enum Error {
    Storage(StorageError),
    Proof(ProofError),
    NotFound(String),
    InvalidArgument(String),
}

/// The status codes the service answers with.
#[derive(PartialEq, Eq, Structural, Debug, Clone, Copy)]
pub enum Code {
    NotFound,
    InvalidArgument,
    Internal,
    ResourceExhausted,
}

/// A failed answer: a status code and its message.
pub struct Status {
    pub code: Code,
    pub message: String,
}

/// The status code an error is answered with.
pub open spec fn error_code(e: Error) -> Code {
    match e {
        Error::NotFound(_) => Code::NotFound,
        Error::InvalidArgument(_) => Code::InvalidArgument,
        Error::Storage(_) => Code::Internal,
        Error::Proof(_) => Code::Internal,
    }
}

/// The message an error is answered with.
pub open spec fn error_message(e: Error) -> Seq<char> {
    match e {
        Error::NotFound(m) => m@,
        Error::InvalidArgument(m) => m@,
        Error::Storage(s) => storage_error_text(s),
        Error::Proof(p) => proof_error_text(p),
    }
}

impl Status {
    /// The status an error is answered with: not-found and invalid-argument
    /// keep their message; storage and proof errors are internal errors
    /// carrying the error's text.
    pub fn from(e: Error) -> (s: Status)
        ensures
            s.code == error_code(e),
            s.message@ == error_message(e),
    {
        match e {
            Error::NotFound(m) => Status { code: Code::NotFound, message: m },
            Error::InvalidArgument(m) => Status { code: Code::InvalidArgument, message: m },
            Error::Storage(s) => Status { code: Code::Internal, message: s.message() },
            Error::Proof(p) => Status { code: Code::Internal, message: p.message() },
        }
    }
}

} // verus!
