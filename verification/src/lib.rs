//! Analysis of Android logcat text: crash-related findings with their
//! evidence, repeated incidents counted together, and a text report.
pub mod aggregate;
pub mod analyzer;
pub mod compiled;
pub mod finding_laws;
pub mod laws;
pub mod model;
pub mod parser;
pub mod pattern;
pub mod report;
pub mod text;

pub use analyzer::analyze;
pub use model::{
    AnalysisReport, EvidenceLine, Finding, FindingKind, LogLevel, LogLine, ParseWarning,
    ReportSummary, Severity,
};
pub use parser::{ParsedLog, parse_lines};
pub use report::{OutputFormat, render_text};

use vstd::prelude::*;

verus! {

/// The report on the log text `input`.
pub open spec fn analysis_of_text(input: Seq<char>) -> model::ReportView {
    analyzer::analysis_of(parser::parse_log(input))
}

/// Parses the log text `input` and analyzes it.
pub fn analyze_text(input: &str) -> (report: AnalysisReport)
    ensures
        report@ == analysis_of_text(input@),
{
    let parsed = parse_lines(input);
    analyze(parsed)
}

} // verus!
