//! The interface of a logger, and a logger that stays silent.
use vstd::prelude::*;

use crate::common::configuration::LogLevel;

verus! {

/// Something that lines of a log can be written to.
pub trait Logger {
    /// How much this logger wants to be told.
    fn log_level(&self) -> LogLevel;

    /// Writes one line to the log.
    fn write_line(&self, s: &str);
}

/// A logger that drops every line.
pub struct NullLogger;

impl Logger for NullLogger {
    fn log_level(&self) -> (level: LogLevel)
        ensures
            level == LogLevel::Normal,
    {
        LogLevel::Normal
    }

    fn write_line(&self, s: &str) {
    }
}

} // verus!
