//! Error classification shared by the API transports: each kind maps to the
//! HTTP status the gRPC status of the same name corresponds to.

use vstd::prelude::*;

verus! {

#[derive(Clone, Copy, Debug, PartialEq, Eq, Structural)]
pub enum ErrorKind {
    NotFound,
    InvalidArgument,
    FailedPrecondition,
    DeadlineExceeded,
    Internal,
}

/// The HTTP status of an error kind.
pub open spec fn status_of(k: ErrorKind) -> u16 {
    match k {
        ErrorKind::NotFound => 404,
        ErrorKind::InvalidArgument => 400,
        ErrorKind::FailedPrecondition => 412,
        ErrorKind::DeadlineExceeded => 504,
        ErrorKind::Internal => 500,
    }
}

/// An API failure: its kind and the message returned as `{"error": ...}`.
#[derive(Debug)]
pub struct ApiError {
    pub kind: ErrorKind,
    pub message: String,
}

impl ApiError {
    pub fn not_found(message: String) -> (e: ApiError)
        ensures
            e.kind == ErrorKind::NotFound,
            e.message == message,
    {
        ApiError { kind: ErrorKind::NotFound, message }
    }

    pub fn invalid_argument(message: String) -> (e: ApiError)
        ensures
            e.kind == ErrorKind::InvalidArgument,
            e.message == message,
    {
        ApiError { kind: ErrorKind::InvalidArgument, message }
    }

    pub fn failed_precondition(message: String) -> (e: ApiError)
        ensures
            e.kind == ErrorKind::FailedPrecondition,
            e.message == message,
    {
        ApiError { kind: ErrorKind::FailedPrecondition, message }
    }

    pub fn deadline_exceeded(message: String) -> (e: ApiError)
        ensures
            e.kind == ErrorKind::DeadlineExceeded,
            e.message == message,
    {
        ApiError { kind: ErrorKind::DeadlineExceeded, message }
    }

    /// The catch-all for a plain failed service call.
    pub fn internal(message: String) -> (e: ApiError)
        ensures
            e.kind == ErrorKind::Internal,
            e.message == message,
    {
        ApiError { kind: ErrorKind::Internal, message }
    }

    /// The HTTP status code of the response.
    pub fn status(&self) -> (s: u16)
        ensures
            s == status_of(self.kind),
    {
        match self.kind {
            ErrorKind::NotFound => 404,
            ErrorKind::InvalidArgument => 400,
            ErrorKind::FailedPrecondition => 412,
            ErrorKind::DeadlineExceeded => 504,
            ErrorKind::Internal => 500,
        }
    }
}

} // verus!
