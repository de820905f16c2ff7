//! Severity levels for the logging collaborator.
//!
//! The store layer reports every error path as `log(level, message, value)`.
//! Where the log lines are persisted is the sink's business; only the level
//! and its tag text are fixed here.

use vstd::prelude::*;

verus! {

/// Severity of a log event.
pub enum Level {
    Debug,
    Warning,
    Error,
}

/// The tag that opens a log line of the given level.
pub fn level_tag(level: &Level) -> (r: &'static str)
    ensures
        level is Debug ==> r@ == "[Debug]"@,
        level is Warning ==> r@ == "[WARN]"@,
        level is Error ==> r@ == "[ERROR]"@,
{
    match level {
        Level::Debug => "[Debug]",
        Level::Warning => "[WARN]",
        Level::Error => "[ERROR]",
    }
}

} // verus!
