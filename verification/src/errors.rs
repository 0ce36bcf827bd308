use vstd::prelude::*;

verus! {

/// Why a requested realtime-signal offset could not be resolved to an
/// absolute signal number.
///
/// Each variant carries the context needed for an actionable diagnostic:
/// the offset that was asked for, and (for the upper bound) the platform
/// bounds and the computed signal number.
#[derive(Debug)]
pub enum InvalidRTSignalError {
    /// The offset lies below the first usable slot.  Offsets start at 1:
    /// the base realtime signal itself is reserved by convention.
    BelowMinError { offset: i32 },
    /// `base + offset` exceeds the platform's highest realtime signal.
    AboveMaxError { offset: i32, base: i32, max: i32, computed: i64 },
}

/// The run-level error taxonomy: every unrecoverable failure of one run
/// is one of these.  Failures of outside facilities are carried as the
/// text they reported.
#[derive(Debug)]
pub enum TaskHookWaybarError {
    /// The logger could not be installed.
    SetLogger(String),
    /// A file could not be created or written.
    File(String),
    /// Process discovery matched nothing: the consumer is not running.
    ProcessNotFound,
    /// The process table itself could not be read.
    Proc(String),
    /// The requested signal offset was out of the platform's window.
    InvalidRTSignal(InvalidRTSignalError),
    /// Task input could not be parsed as the expected structure.
    Json(String),
}

/// A compact due timestamp did not have the required
/// `YYYYMMDDThhmmssZ` shape, or its fields were not a real calendar date
/// and time of day.
#[derive(Debug, PartialEq, Eq)]
pub struct TimestampFormatError;

} // verus!
