//! The outcome of a failed request: a status code and a message.

use vstd::prelude::*;

verus! {

/// Status codes of remote procedure calls, numbered as gRPC numbers them.
#[derive(Debug, Clone, Copy, PartialEq, Eq)]
pub enum StatusCode {
    Success,
    Cancelled,
    Unknown,
    InvalidArgument,
    DeadlineExceeded,
    NotFound,
    AlreadyExists,
    PermissionDenied,
    ResourceExhausted,
    FailedPrecondition,
    Aborted,
    OutOfRange,
    Unimplemented,
    Internal,
    Unavailable,
    DataLoss,
    Unauthenticated,
}

impl StatusCode {
    /// The number of the code in the gRPC protocol.
    pub open spec fn number(self) -> i32 {
        match self {
            StatusCode::Success => 0,
            StatusCode::Cancelled => 1,
            StatusCode::Unknown => 2,
            StatusCode::InvalidArgument => 3,
            StatusCode::DeadlineExceeded => 4,
            StatusCode::NotFound => 5,
            StatusCode::AlreadyExists => 6,
            StatusCode::PermissionDenied => 7,
            StatusCode::ResourceExhausted => 8,
            StatusCode::FailedPrecondition => 9,
            StatusCode::Aborted => 10,
            StatusCode::OutOfRange => 11,
            StatusCode::Unimplemented => 12,
            StatusCode::Internal => 13,
            StatusCode::Unavailable => 14,
            StatusCode::DataLoss => 15,
            StatusCode::Unauthenticated => 16,
        }
    }

    /// The number of the code in the gRPC protocol.
    pub fn grpc_number(self) -> (number: i32)
        ensures
            number == self.number(),
    {
        match self {
            StatusCode::Success => 0,
            StatusCode::Cancelled => 1,
            StatusCode::Unknown => 2,
            StatusCode::InvalidArgument => 3,
            StatusCode::DeadlineExceeded => 4,
            StatusCode::NotFound => 5,
            StatusCode::AlreadyExists => 6,
            StatusCode::PermissionDenied => 7,
            StatusCode::ResourceExhausted => 8,
            StatusCode::FailedPrecondition => 9,
            StatusCode::Aborted => 10,
            StatusCode::OutOfRange => 11,
            StatusCode::Unimplemented => 12,
            StatusCode::Internal => 13,
            StatusCode::Unavailable => 14,
            StatusCode::DataLoss => 15,
            StatusCode::Unauthenticated => 16,
        }
    }
}

/// The status of a failed request.
#[derive(Debug)]
pub struct Status {
    /// What kind of failure it was.
    pub code: StatusCode,
    /// The failure in words.
    pub message: String,
}

/// What a status says.
#[verifier::ext_equal]
pub struct StatusView {
    pub code: StatusCode,
    pub message: Seq<char>,
}

impl View for Status {
    type V = StatusView;

    open spec fn view(&self) -> StatusView {
        StatusView { code: self.code, message: self.message@ }
    }
}

/// The status for an argument that is not acceptable, with the given message.
pub open spec fn invalid_argument(message: Seq<char>) -> StatusView {
    StatusView { code: StatusCode::InvalidArgument, message }
}

/// The status for a request that does not fit the state, with the given message.
pub open spec fn failed_precondition(message: Seq<char>) -> StatusView {
    StatusView { code: StatusCode::FailedPrecondition, message }
}

/// The status for something that does not exist, with the given message.
pub open spec fn not_found(message: Seq<char>) -> StatusView {
    StatusView { code: StatusCode::NotFound, message }
}

impl Status {
    /// Creates a status with the given code and message.
    pub fn new_with_message(code: StatusCode, message: String) -> (status: Status)
        ensures
            status@ == (StatusView { code, message: message@ }),
    {
        Status { code, message }
    }
}

} // verus!
