//! Errors observed by callers of the client map, and the numeric codes the
//! handle-based shim reports across the foreign boundary.

use crate::num::{spec_udec, u64_to_string};
use vstd::prelude::*;
use vstd::string::StringExecFns;

verus! {

/// Errors surfaced by client map operations.
#[derive(Debug)]
pub enum Error {
    /// Transport failure while connecting or mid-stream.
    Transport(String),
    /// A structured remote error.
    Status(String),
    /// Optimistic concurrency control gave up; the payload is the number of
    /// conflicting responses observed.
    Conflict(usize),
    /// A streaming response ended before the expected reply.
    ConnectionClosed,
}

/// The description `message` returns for each error.
pub open spec fn spec_error_message(e: Error) -> Seq<char> {
    match e {
        Error::Transport(s) => "gRPC transport error: "@ + s@,
        Error::Status(s) => "gRPC status error: "@ + s@,
        Error::Conflict(n) => "write conflict after "@ + spec_udec(n as nat) + " retries"@,
        Error::ConnectionClosed => "connection closed"@,
    }
}

impl Error {
    /// A human-readable description of the error.
    pub fn message(&self) -> (m: String)
        ensures
            m@ == spec_error_message(*self),
    {
        match self {
            Error::Transport(s) => {
                let mut m = String::from_str("gRPC transport error: ");
                m.append(s.as_str());
                m
            },
            Error::Status(s) => {
                let mut m = String::from_str("gRPC status error: ");
                m.append(s.as_str());
                m
            },
            Error::Conflict(n) => {
                let mut m = String::from_str("write conflict after ");
                let count = u64_to_string(*n as u64);
                m.append(count.as_str());
                m.append(" retries");
                m
            },
            Error::ConnectionClosed => String::from_str("connection closed"),
        }
    }
}

/// The enumerated result codes of the shim surface.
#[derive(Clone, Copy, Debug, PartialEq, Eq, Structural)]
pub enum ErrorCode {
    Success,
    NullPointer,
    InvalidUtf8,
    ConnectError,
    GetError,
    InsertError,
    RemoveError,
    InternalError,
}

/// The numeric value each code is reported as.
pub open spec fn spec_error_code(c: ErrorCode) -> int {
    match c {
        ErrorCode::Success => 0,
        ErrorCode::NullPointer => 1,
        ErrorCode::InvalidUtf8 => 2,
        ErrorCode::ConnectError => 3,
        ErrorCode::GetError => 4,
        ErrorCode::InsertError => 5,
        ErrorCode::RemoveError => 6,
        ErrorCode::InternalError => 99,
    }
}

impl ErrorCode {
    /// The numeric code handed across the foreign boundary.
    pub fn code(&self) -> (c: i32)
        ensures
            c as int == spec_error_code(*self),
    {
        match self {
            ErrorCode::Success => 0,
            ErrorCode::NullPointer => 1,
            ErrorCode::InvalidUtf8 => 2,
            ErrorCode::ConnectError => 3,
            ErrorCode::GetError => 4,
            ErrorCode::InsertError => 5,
            ErrorCode::RemoveError => 6,
            ErrorCode::InternalError => 99,
        }
    }
}

/// How a map error is reported through the shim.
pub open spec fn spec_code_of_error(e: Error) -> ErrorCode {
    match e {
        Error::Transport(_) => ErrorCode::ConnectError,
        Error::Status(_) => ErrorCode::GetError,
        Error::Conflict(_) => ErrorCode::InsertError,
        Error::ConnectionClosed => ErrorCode::InternalError,
    }
}

impl From<Error> for ErrorCode {
    fn from(err: Error) -> (c: ErrorCode) {
        match err {
            Error::Transport(_) => ErrorCode::ConnectError,
            Error::Status(_) => ErrorCode::GetError,
            Error::Conflict(_) => ErrorCode::InsertError,
            Error::ConnectionClosed => ErrorCode::InternalError,
        }
    }
}

impl vstd::std_specs::convert::FromSpecImpl<Error> for ErrorCode {
    open spec fn obeys_from_spec() -> bool {
        true
    }

    open spec fn from_spec(err: Error) -> ErrorCode {
        spec_code_of_error(err)
    }
}

} // verus!
