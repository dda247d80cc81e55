//! The `regex` crate behind the analyzer's two patterns. A `CompiledPattern`
//! is built only by `compile_pattern`, which compiles the text it records, so
//! its regex is always the one compiled from `source()`; nothing outside this
//! module can build or change one.
use vstd::prelude::*;

use crate::pattern::{
    LOGCAT_LINE_PATTERN, LogcatCaptures, PROCESS_MARKER_PATTERN, logcat_line_match,
    process_marker_match,
};

verus! {

#[verifier::external_type_specification]
#[verifier::external_body]
pub struct ExRegex(regex::Regex);

/// A regular expression together with the text it was compiled from.
pub struct CompiledPattern {
    re: regex::Regex,
    source: &'static str,
}

impl CompiledPattern {
    /// The text that the regular expression was compiled from.
    pub closed spec fn source(&self) -> Seq<char> {
        self.source@
    }
}

/// Compiles `pattern` with `regex::Regex::new` and records it as the
/// source. `Regex::new` succeeds on the two patterns accepted here.
#[verifier::external_body]
pub(crate) fn compile_pattern(pattern: &'static str) -> (p: CompiledPattern)
    requires
        pattern@ == LOGCAT_LINE_PATTERN@ || pattern@ == PROCESS_MARKER_PATTERN@,
    ensures
        p.source() == pattern@,
{
    CompiledPattern { re: regex::Regex::new(pattern).expect("the pattern compiles"), source: pattern }
}

/// `regex::Regex::captures` of the logcat pattern on `line`, each named group
/// copied to a `String`. Every group of the pattern takes part in any match,
/// so indexing a group of a match does not fail.
#[verifier::external_body]
pub(crate) fn logcat_captures(p: &CompiledPattern, line: &str) -> (r: Option<LogcatCaptures>)
    requires
        p.source() == LOGCAT_LINE_PATTERN@,
    ensures
        match r {
            Some(c) => logcat_line_match(line@) == Some(c@),
            None => logcat_line_match(line@) is None,
        },
{
    match p.re.captures(line) {
        Some(c) => Some(
            LogcatCaptures {
                timestamp: c["timestamp"].to_string(),
                pid: c["pid"].to_string(),
                tid: c["tid"].to_string(),
                level: c["level"].to_string(),
                tag: c["tag"].to_string(),
                message: c["message"].to_string(),
            },
        ),
        None => None,
    }
}

/// `regex::Regex::captures` of the process marker on `text`: the two groups
/// of the leftmost match, copied to `String`s. Both groups take part in any
/// match.
#[verifier::external_body]
pub(crate) fn process_captures(p: &CompiledPattern, text: &str) -> (r: Option<(String, String)>)
    requires
        p.source() == PROCESS_MARKER_PATTERN@,
    ensures
        match r {
            Some(c) => process_marker_match(text@) == Some((c.0@, c.1@)),
            None => process_marker_match(text@) is None,
        },
{
    match p.re.captures(text) {
        Some(c) => Some((c[1].to_string(), c[2].to_string())),
        None => None,
    }
}

} // verus!
