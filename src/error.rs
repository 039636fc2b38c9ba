use vstd::prelude::*;

verus! {

/// What can go wrong when talking to the set subsystem.
#[derive(Debug, Clone, Copy, PartialEq, Eq, Structural)]
pub enum IpsetSysError {
    /// The kernel channel or the type registry could not be set up.
    CantInit,
    /// The kernel refused the command, or its reply could not be decoded.
    CantExecuteCommand,
    /// The command line does not describe a command.
    CommandInvalid,
    /// A name or string field is longer than the protocol allows.
    ArgTooLong,
    /// A timeout outside `0..=2147483` seconds.
    InvalidTimeout,
    /// A command text that holds a NUL byte.
    InvalidCommand,
    /// The session has already been closed.
    UseAfterClose,
}

} // verus!
