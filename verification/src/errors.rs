//! Error and log record types shared by the whole engine.
use vstd::prelude::*;

verus! {

/// Every failure a command can report.  No error here is fatal: callers
/// receive the variant and the engine's state stays consistent.
#[derive(Clone, Copy, Debug, PartialEq, Eq, Structural)]
pub enum CoreError {
    /// The acquisitor was unreachable or its open/read failed.
    Hardware,
    /// A connection command was issued from a state that has no such edge.
    InvalidTransition,
    /// A frozen-trace id that is not (or no longer) in the store.
    NotFound,
    /// A malformed configuration or record; the caller falls back to defaults.
    Config,
    /// A persistence sink reported a failure; the triggering command goes on.
    Persistence,
}

/// Severity of a log record handed to the external logging sink.
#[derive(Clone, Copy, Debug, PartialEq, Eq, Structural)]
pub enum LogType {
    Info,
    Warning,
    Error,
}

/// A log record: the engine only assembles these, an external sink
/// consumes them.
pub struct Log {
    pub msg: String,
    pub log_type: LogType,
}

/// Assembles a log record for the external sink.
pub fn new_log(msg: String, log_type: LogType) -> (r: Log)
    ensures
        r.msg == msg,
        r.log_type == log_type,
{
    Log { msg, log_type }
}

} // verus!
