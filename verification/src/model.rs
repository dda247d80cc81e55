//! The domain model: parsed log lines, evidence, findings and reports,
//! each with the mathematical value (its view) that the contracts speak of.
use vstd::prelude::*;

verus! {

/// One line of the input log.
#[derive(Debug, Clone, PartialEq, Eq)]
pub struct LogLine {
    pub line_number: usize,
    pub timestamp: Option<String>,
    pub pid: Option<u32>,
    pub tid: Option<u32>,
    pub level: Option<LogLevel>,
    pub tag: Option<String>,
    pub message: String,
    pub raw: String,
    pub structured: bool,
}

#[derive(Debug, Clone, Copy, PartialEq, Eq)]
pub enum LogLevel {
    Verbose,
    Debug,
    Info,
    Warn,
    Error,
    Fatal,
}

/// A non-blank line that is not in the structured logcat format.
#[derive(Debug, Clone, PartialEq, Eq)]
pub struct ParseWarning {
    pub line_number: usize,
    pub raw: String,
    pub reason: String,
}

/// A line of the log quoted as evidence for a finding.
#[derive(Debug, Clone, PartialEq, Eq)]
pub struct EvidenceLine {
    pub line_number: usize,
    pub message: String,
}

/// A crash-related incident, with the lines that support it and the number
/// of incidents with the same signature that it stands for.
#[derive(Debug, Clone, PartialEq, Eq)]
pub struct Finding {
    pub kind: FindingKind,
    pub severity: Severity,
    pub title: String,
    pub rationale: String,
    pub line_start: usize,
    pub line_end: usize,
    pub package: Option<String>,
    pub process: Option<String>,
    pub thread: Option<String>,
    pub exception: Option<String>,
    pub root_cause: Option<String>,
    pub signature: String,
    pub occurrence_count: usize,
    pub evidence: Vec<EvidenceLine>,
}

#[derive(Debug, Clone, Copy, PartialEq, Eq)]
pub enum FindingKind {
    FatalException,
    Anr,
    NativeCrash,
    Abort,
    OutOfMemory,
    JniError,
}

#[derive(Debug, Clone, Copy, PartialEq, Eq, PartialOrd, Ord)]
pub enum Severity {
    Low,
    Medium,
    High,
    Critical,
}

#[derive(Debug, Clone, PartialEq, Eq)]
pub struct ReportSummary {
    pub total_findings: usize,
    pub parse_warning_count: usize,
    pub top_severity: Option<Severity>,
    pub root_cause_candidates: Vec<String>,
}

#[derive(Debug, Clone, PartialEq, Eq)]
pub struct AnalysisReport {
    pub summary: ReportSummary,
    pub findings: Vec<Finding>,
    pub parse_warnings: Vec<ParseWarning>,
}

// ---------------------------------------------------------------------------
// Views
// ---------------------------------------------------------------------------

/// The characters of an optional string.
pub open spec fn opt_text(o: Option<String>) -> Option<Seq<char>> {
    match o {
        Some(s) => Some(s@),
        None => None,
    }
}

pub struct LogLineView {
    pub line_number: usize,
    pub timestamp: Option<Seq<char>>,
    pub pid: Option<u32>,
    pub tid: Option<u32>,
    pub level: Option<LogLevel>,
    pub tag: Option<Seq<char>>,
    pub message: Seq<char>,
    pub raw: Seq<char>,
    pub structured: bool,
}

impl View for LogLine {
    type V = LogLineView;

    open spec fn view(&self) -> LogLineView {
        LogLineView {
            line_number: self.line_number,
            timestamp: opt_text(self.timestamp),
            pid: self.pid,
            tid: self.tid,
            level: self.level,
            tag: opt_text(self.tag),
            message: self.message@,
            raw: self.raw@,
            structured: self.structured,
        }
    }
}

pub struct ParseWarningView {
    pub line_number: usize,
    pub raw: Seq<char>,
    pub reason: Seq<char>,
}

impl View for ParseWarning {
    type V = ParseWarningView;

    open spec fn view(&self) -> ParseWarningView {
        ParseWarningView { line_number: self.line_number, raw: self.raw@, reason: self.reason@ }
    }
}

pub struct EvidenceView {
    pub line_number: usize,
    pub message: Seq<char>,
}

impl View for EvidenceLine {
    type V = EvidenceView;

    open spec fn view(&self) -> EvidenceView {
        EvidenceView { line_number: self.line_number, message: self.message@ }
    }
}

pub struct FindingView {
    pub kind: FindingKind,
    pub severity: Severity,
    pub title: Seq<char>,
    pub rationale: Seq<char>,
    pub line_start: usize,
    pub line_end: usize,
    pub package: Option<Seq<char>>,
    pub process: Option<Seq<char>>,
    pub thread: Option<Seq<char>>,
    pub exception: Option<Seq<char>>,
    pub root_cause: Option<Seq<char>>,
    pub signature: Seq<char>,
    pub occurrence_count: nat,
    pub evidence: Seq<EvidenceView>,
}

impl View for Finding {
    type V = FindingView;

    open spec fn view(&self) -> FindingView {
        FindingView {
            kind: self.kind,
            severity: self.severity,
            title: self.title@,
            rationale: self.rationale@,
            line_start: self.line_start,
            line_end: self.line_end,
            package: opt_text(self.package),
            process: opt_text(self.process),
            thread: opt_text(self.thread),
            exception: opt_text(self.exception),
            root_cause: opt_text(self.root_cause),
            signature: self.signature@,
            occurrence_count: self.occurrence_count as nat,
            evidence: evidence_view(self.evidence@),
        }
    }
}

pub struct SummaryView {
    pub total_findings: nat,
    pub parse_warning_count: nat,
    pub top_severity: Option<Severity>,
    pub root_cause_candidates: Seq<Seq<char>>,
}

impl View for ReportSummary {
    type V = SummaryView;

    open spec fn view(&self) -> SummaryView {
        SummaryView {
            total_findings: self.total_findings as nat,
            parse_warning_count: self.parse_warning_count as nat,
            top_severity: self.top_severity,
            root_cause_candidates: texts_view(self.root_cause_candidates@),
        }
    }
}

pub struct ReportView {
    pub summary: SummaryView,
    pub findings: Seq<FindingView>,
    pub parse_warnings: Seq<ParseWarningView>,
}

impl View for AnalysisReport {
    type V = ReportView;

    open spec fn view(&self) -> ReportView {
        ReportView {
            summary: self.summary@,
            findings: findings_view(self.findings@),
            parse_warnings: warnings_view(self.parse_warnings@),
        }
    }
}

pub open spec fn lines_view(v: Seq<LogLine>) -> Seq<LogLineView> {
    v.map_values(|l: LogLine| l@)
}

pub open spec fn warnings_view(v: Seq<ParseWarning>) -> Seq<ParseWarningView> {
    v.map_values(|w: ParseWarning| w@)
}

pub open spec fn evidence_view(v: Seq<EvidenceLine>) -> Seq<EvidenceView> {
    v.map_values(|e: EvidenceLine| e@)
}

pub open spec fn findings_view(v: Seq<Finding>) -> Seq<FindingView> {
    v.map_values(|f: Finding| f@)
}

pub open spec fn texts_view(v: Seq<String>) -> Seq<Seq<char>> {
    v.map_values(|s: String| s@)
}

} // verus!
