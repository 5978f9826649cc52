use vstd::prelude::*;
use crate::sender::FailureKind;

verus! {

/// Failures reported to the caller of a STREAM payment.
#[derive(Debug)]
pub enum Error {
    ConnectionError(String),
    PollError(String),
    SendMoneyError(String),
    TooManyRejectedPacketsError(String),
}

impl Error {
    /// The detail text carried by the error.
    pub fn detail(&self) -> (r: &String)
        ensures
            r == match self {
                Error::ConnectionError(s) => s,
                Error::PollError(s) => s,
                Error::SendMoneyError(s) => s,
                Error::TooManyRejectedPacketsError(s) => s,
            },
    {
        match self {
            Error::ConnectionError(s) => s,
            Error::PollError(s) => s,
            Error::SendMoneyError(s) => s,
            Error::TooManyRejectedPacketsError(s) => s,
        }
    }

    /// A distinct human-readable heading for each kind of error.
    pub fn heading(&self) -> (r: &'static str)
        ensures
            r@ == match self {
                Error::ConnectionError(_) => "Error connecting"@,
                Error::PollError(_) => "Error polling"@,
                Error::SendMoneyError(_) => "Error sending money"@,
                Error::TooManyRejectedPacketsError(_) => "Too many rejected packets"@,
            },
    {
        match self {
            Error::ConnectionError(_) => "Error connecting",
            Error::PollError(_) => "Error polling",
            Error::SendMoneyError(_) => "Error sending money",
            Error::TooManyRejectedPacketsError(_) => "Too many rejected packets",
        }
    }

    /// The error that reports a payment stopped for `kind`.
    pub fn from_failure(kind: FailureKind, detail: String) -> (r: Error)
        ensures
            r == match kind {
                FailureKind::Connection => Error::ConnectionError(detail),
                FailureKind::SendMoney => Error::SendMoneyError(detail),
                FailureKind::TooManyRejectedPackets => Error::TooManyRejectedPacketsError(detail),
            },
    {
        match kind {
            FailureKind::Connection => Error::ConnectionError(detail),
            FailureKind::SendMoney => Error::SendMoneyError(detail),
            FailureKind::TooManyRejectedPackets => Error::TooManyRejectedPacketsError(detail),
        }
    }
}

} // verus!
