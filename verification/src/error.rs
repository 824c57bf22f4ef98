//! Error taxonomy of the engine.

use vstd::prelude::*;

verus! {

/// Errors raised during scheduling or provider updates.
///
/// A `Fatal` error aborts startup (bad configuration, unknown vendor
/// kind); a `Retryable` error stays local to one provider attempt.
#[derive(Debug)]
pub enum CoreError {
    Fatal(String),
    Retryable(String),
}

impl CoreError {
    /// The human-readable text carried by the error.
    pub fn message(&self) -> (m: &String)
        ensures
            m@ == match *self {
                CoreError::Fatal(s) => s@,
                CoreError::Retryable(s) => s@,
            },
    {
        match self {
            CoreError::Fatal(s) => s,
            CoreError::Retryable(s) => s,
        }
    }
}

/// Why reading an address from a network interface failed.
#[derive(Debug, PartialEq, Eq, Structural)]
pub enum IfaceError {
    /// No interface of the requested name exists.
    NotFound,
    /// The interface exists but has no IPv4 address bound.
    NoIpv4,
}

} // verus!
