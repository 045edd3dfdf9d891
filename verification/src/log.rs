//! The lines of the log. What is written where is left to the caller: this
//! module says what a line holds.

use vstd::prelude::*;
use vstd::string::StringExecFns;

verus! {

/// A line of the log: the time, the level in square brackets, the message.
pub open spec fn log_line(now: Seq<char>, level: Seq<char>, message: Seq<char>) -> Seq<char> {
    now + " ["@ + level + "] "@ + message
}

/// The line that reports `message` as an error at the time `now`.
pub fn error(message: &str, now: &str) -> (line: String)
    ensures
        line@ == log_line(now@, "ERROR"@, message@),
{
    log(message, "ERROR", now)
}

/// The line that reports `message` as information at the time `now`.
pub fn info(message: &str, now: &str) -> (line: String)
    ensures
        line@ == log_line(now@, "INFO"@, message@),
{
    log(message, "INFO", now)
}

/// The line that reports `message` at `level` at the time `now`.
fn log(message: &str, level: &str, now: &str) -> (line: String)
    ensures
        line@ == log_line(now@, level@, message@),
{
    now.to_string().concat(" [").concat(level).concat("] ").concat(message)
}

} // verus!
