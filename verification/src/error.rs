//! Failures of input and output, as the callers of this library report them.

use vstd::prelude::*;

verus! {

/// What kind of failure an operation on a socket met with.
#[derive(Debug, Clone, Copy, PartialEq, Eq, Structural)]
pub enum IoErrorKind {
    /// Nothing arrived in time.
    TimedOut,
    /// The peer turned the connection down.
    ConnectionRefused,
    /// Any other failure.
    Other,
}

/// A failed operation on a socket or a device.
#[derive(Debug, Clone, PartialEq, Eq)]
pub struct IoError {
    /// The kind of failure.
    pub kind: IoErrorKind,
    /// What happened, for a human reader.
    pub message: String,
}

impl IoError {
    /// An error of the given kind.
    pub fn new(kind: IoErrorKind, message: &str) -> (e: Self)
        ensures
            e.kind == kind,
            e.message@ == message@,
    {
        IoError { kind, message: message.to_owned() }
    }
}

} // verus!
