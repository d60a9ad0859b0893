//! Log severities and the per-sink filtering rule.
//!
//! Sinks, timestamps and the writes themselves are I/O and live outside the
//! library; the library fixes the severity order and the decision of which
//! messages a sink accepts.

use vstd::prelude::*;

verus! {

/// A log message's severity.
#[allow(non_camel_case_types)]
#[derive(Clone, Copy, Debug, PartialEq, Eq, Structural)]
pub enum LogLevel {
    DEBUG,
    INFO,
    WARN,
    ERROR,
}

impl LogLevel {
    /// The rank of this severity; higher is more severe.
    pub open spec fn spec_severity(self) -> u8 {
        match self {
            LogLevel::DEBUG => 0,
            LogLevel::INFO => 1,
            LogLevel::WARN => 2,
            LogLevel::ERROR => 3,
        }
    }

    /// The rank of this severity; higher is more severe.
    pub fn severity(&self) -> (r: u8)
        ensures
            r == self.spec_severity(),
    {
        match self {
            LogLevel::DEBUG => 0,
            LogLevel::INFO => 1,
            LogLevel::WARN => 2,
            LogLevel::ERROR => 3,
        }
    }
}

/// Whether a sink whose minimum severity is `sink_level` accepts a message
/// of severity `msg_level`: exactly when the message is at least as severe.
pub fn should_log(sink_level: &LogLevel, msg_level: &LogLevel) -> (r: bool)
    ensures
        r == (sink_level.spec_severity() <= msg_level.spec_severity()),
{
    sink_level.severity() <= msg_level.severity()
}

} // verus!
