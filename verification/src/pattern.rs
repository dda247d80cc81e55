//! The two regular expressions of the analyzer, matched with the `regex` crate.
//!
//! What a match gives is named, not restated: `logcat_line_match` and
//! `process_marker_match` stand for the result of the `regex` crate on the
//! fixed patterns below, as functions of the text alone.
use vstd::prelude::*;

use crate::compiled::{CompiledPattern, compile_pattern, logcat_captures, process_captures};

verus! {

/// A structured logcat line (threadtime format).
pub const LOGCAT_LINE_PATTERN: &'static str = r"^(?P<timestamp>\d{2}-\d{2}\s+\d{2}:\d{2}:\d{2}\.\d{3,6})\s+(?P<pid>\d+)\s+(?P<tid>\d+)\s+(?P<level>[VDIWEAF])\s+(?P<tag>[^:]+):\s?(?P<message>.*)$";

/// The `Process: <name>, PID: <pid>` marker of an Android crash report.
pub const PROCESS_MARKER_PATTERN: &'static str = r"Process:\s+([^,]+),\s+PID:\s+(\d+)";

/// The groups `timestamp`, `pid`, `tid`, `level`, `tag` and `message` that
/// `LOGCAT_LINE_PATTERN` captures in `line`, or `None` where it does not match.
pub uninterp spec fn logcat_line_match(line: Seq<char>) -> Option<
    (Seq<char>, Seq<char>, Seq<char>, Seq<char>, Seq<char>, Seq<char>),
>;

/// The two groups (process name, PID) of the leftmost match of
/// `PROCESS_MARKER_PATTERN` in `text`, or `None` where it does not occur.
pub uninterp spec fn process_marker_match(text: Seq<char>) -> Option<(Seq<char>, Seq<char>)>;

/// The groups of a structured logcat line.
pub struct LogcatCaptures {
    pub timestamp: String,
    pub pid: String,
    pub tid: String,
    pub level: String,
    pub tag: String,
    pub message: String,
}

impl View for LogcatCaptures {
    type V = (Seq<char>, Seq<char>, Seq<char>, Seq<char>, Seq<char>, Seq<char>);

    open spec fn view(&self) -> Self::V {
        (self.timestamp@, self.pid@, self.tid@, self.level@, self.tag@, self.message@)
    }
}

/// The compiled `LOGCAT_LINE_PATTERN`.
pub(crate) struct LogcatPattern {
    compiled: CompiledPattern,
}

impl LogcatPattern {
    /// The text of the pattern that is matched.
    pub(crate) closed spec fn source(&self) -> Seq<char> {
        self.compiled.source()
    }

    /// Compiles `LOGCAT_LINE_PATTERN`.
    pub(crate) fn new() -> (p: Self)
        ensures
            p.source() == LOGCAT_LINE_PATTERN@,
    {
        LogcatPattern { compiled: compile_pattern(LOGCAT_LINE_PATTERN) }
    }

    /// The groups that the logcat pattern captures in `line`.
    pub(crate) fn captures(&self, line: &str) -> (r: Option<LogcatCaptures>)
        requires
            self.source() == LOGCAT_LINE_PATTERN@,
        ensures
            match r {
                Some(c) => logcat_line_match(line@) == Some(c@),
                None => logcat_line_match(line@) is None,
            },
    {
        logcat_captures(&self.compiled, line)
    }
}

/// The compiled `PROCESS_MARKER_PATTERN`.
pub(crate) struct ProcessPattern {
    compiled: CompiledPattern,
}

impl ProcessPattern {
    /// The text of the pattern that is matched.
    pub(crate) closed spec fn source(&self) -> Seq<char> {
        self.compiled.source()
    }

    /// Compiles `PROCESS_MARKER_PATTERN`.
    pub(crate) fn new() -> (p: Self)
        ensures
            p.source() == PROCESS_MARKER_PATTERN@,
    {
        ProcessPattern { compiled: compile_pattern(PROCESS_MARKER_PATTERN) }
    }

    /// The process name and PID of the leftmost process marker in `text`.
    pub(crate) fn captures(&self, text: &str) -> (r: Option<(String, String)>)
        requires
            self.source() == PROCESS_MARKER_PATTERN@,
        ensures
            match r {
                Some(c) => process_marker_match(text@) == Some((c.0@, c.1@)),
                None => process_marker_match(text@) is None,
            },
    {
        process_captures(&self.compiled, text)
    }
}

} // verus!
