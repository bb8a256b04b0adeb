//! The failures that the library reports.
use vstd::prelude::*;

verus! {

/// What went wrong in a session operation or a replay.
#[derive(Clone, Copy, PartialEq, Eq, Debug, Structural)]
pub enum ErrorKind {
    /// A start was requested while a session handle exists.
    AlreadyRunning,
    /// A stop was requested while no session handle exists.
    NoActiveSession,
    /// The subprocess could not be started.
    SpawnFailure,
    /// The subprocess could not be terminated.
    TerminationFailure,
    /// The final persist of the log failed.
    PersistFailure,
    /// A persisted log could not be read.
    DecodeFailure,
    /// A log to replay holds no events.
    NoEvents,
}

} // verus!
