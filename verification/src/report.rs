//! The human-readable text report.
use vstd::prelude::*;

use crate::analyzer::{kind_name, kind_name_str};
use crate::model::{
    AnalysisReport, EvidenceLine, EvidenceView, Finding, FindingView, ReportView, Severity,
    evidence_view, findings_view, opt_text, texts_view,
};
use crate::text::{decimal, push_decimal, push_str};

verus! {

/// The formats a report can be rendered in.
#[derive(Debug, Clone, Copy, PartialEq, Eq)]
pub enum OutputFormat {
    Text,
    Json,
}

/// The name of a severity in the text report.
pub open spec fn severity_name(s: Severity) -> Seq<char> {
    match s {
        Severity::Low => "low"@,
        Severity::Medium => "medium"@,
        Severity::High => "high"@,
        Severity::Critical => "critical"@,
    }
}

pub fn severity_label(s: Severity) -> (r: &'static str)
    ensures
        r@ == severity_name(s),
{
    match s {
        Severity::Low => "low",
        Severity::Medium => "medium",
        Severity::High => "high",
        Severity::Critical => "critical",
    }
}

/// `label` and the value, on a line of its own, where there is a value.
pub open spec fn optional_line(label: Seq<char>, value: Option<Seq<char>>) -> Seq<char> {
    match value {
        Some(v) => label + v + "\n"@,
        None => seq![],
    }
}

/// The evidence lines: `L<number> <text>`, indented.
pub open spec fn evidence_text(ev: Seq<EvidenceView>) -> Seq<char>
    decreases ev.len(),
{
    if ev.len() == 0 {
        seq![]
    } else {
        evidence_text(ev.drop_last()) + "     L"@ + decimal(ev.last().line_number as nat) + " "@
            + ev.last().message + "\n"@
    }
}

/// The block of the finding `f`, numbered `index + 1`.
pub open spec fn finding_text(index: nat, f: FindingView) -> Seq<char> {
    "\n"@ + decimal(index + 1) + ". ["@ + severity_name(f.severity) + "] "@ + kind_name(f.kind)
        + " at lines "@ + decimal(f.line_start as nat) + "-"@ + decimal(f.line_end as nat)
        + "\n"@ + "   Title: "@ + f.title + "\n"@ + "   Why: "@ + f.rationale + "\n"@
        + "   Signature: "@ + f.signature + "\n"@ + "   Occurrences: "@ + decimal(
        f.occurrence_count,
    ) + "\n"@ + optional_line("   Process: "@, f.process) + optional_line(
        "   Thread: "@,
        f.thread,
    ) + optional_line("   Root cause: "@, f.root_cause) + "   Evidence:\n"@ + evidence_text(
        f.evidence,
    )
}

/// The blocks of the findings, in order.
pub open spec fn findings_text(fs: Seq<FindingView>) -> Seq<char>
    decreases fs.len(),
{
    if fs.len() == 0 {
        seq![]
    } else {
        findings_text(fs.drop_last()) + finding_text((fs.len() - 1) as nat, fs.last())
    }
}

/// The list of likely root causes, one per line.
pub open spec fn causes_text(cs: Seq<Seq<char>>) -> Seq<char>
    decreases cs.len(),
{
    if cs.len() == 0 {
        seq![]
    } else {
        causes_text(cs.drop_last()) + "- "@ + cs.last() + "\n"@
    }
}

/// The block of likely root causes, where there are any.
pub open spec fn causes_block(cs: Seq<Seq<char>>) -> Seq<char> {
    if cs.len() > 0 {
        "Likely root causes:\n"@ + causes_text(cs)
    } else {
        seq![]
    }
}

/// The name of the top severity, or `unknown`.
pub open spec fn top_label(s: Option<Severity>) -> Seq<char> {
    match s {
        Some(s) => severity_name(s),
        None => "unknown"@,
    }
}

/// The summary block that opens a report with findings.
pub open spec fn summary_block(r: ReportView) -> Seq<char> {
    "Summary\n"@ + "Findings: "@ + decimal(r.summary.total_findings) + "\n"@ + "Top severity: "@
        + top_label(r.summary.top_severity) + "\n"@ + causes_block(
        r.summary.root_cause_candidates,
    ) + "\nFindings\n"@
}

/// The report without its closing note: a summary and the findings, or a
/// line saying there are none.
pub open spec fn report_body(r: ReportView) -> Seq<char> {
    if r.findings.len() == 0 {
        "No high-confidence crash findings detected.\n"@
    } else {
        summary_block(r) + findings_text(r.findings)
    }
}

/// The note on parse warnings, where there are any.
pub open spec fn warnings_note(count: nat) -> Seq<char> {
    if count > 0 {
        "\nParse warnings: "@ + decimal(count) + " line(s) did not match a structured logcat format.\n"@
    } else {
        seq![]
    }
}

/// The text report: the body, then the note on parse warnings.
pub open spec fn report_text(r: ReportView) -> Seq<char> {
    report_body(r) + warnings_note(r.parse_warnings.len())
}

fn push_optional_line(out: &mut String, label: &str, value: &Option<String>)
    ensures
        final(out)@ == old(out)@ + optional_line(label@, opt_text(*value)),
{
    match value {
        Some(v) => {
            let mut line = String::from_str(label);
            push_str(&mut line, v.as_str());
            push_str(&mut line, "\n");
            push_str(out, line.as_str());
        },
        None => {
            assert(out@ =~= old(out)@ + optional_line(label@, opt_text(*value)));
        },
    }
}

fn evidence_string(ev: &Vec<EvidenceLine>) -> (r: String)
    ensures
        r@ == evidence_text(evidence_view(ev@)),
{
    let ghost evv = evidence_view(ev@);
    let mut out = String::new();
    let mut i: usize = 0;
    assert(evv.take(0) =~= Seq::<EvidenceView>::empty());
    while i < ev.len()
        invariant
            i <= ev@.len(),
            evv == evidence_view(ev@),
            out@ == evidence_text(evv.take(i as int)),
        decreases ev@.len() - i,
    {
        let e = &ev[i];
        push_str(&mut out, "     L");
        push_decimal(&mut out, e.line_number);
        push_str(&mut out, " ");
        push_str(&mut out, e.message.as_str());
        push_str(&mut out, "\n");
        assert(evv.take(i + 1).drop_last() =~= evv.take(i as int));
        assert(evv.take(i + 1).last() == e@);
        i += 1;
    }
    assert(evv.take(i as int) =~= evv);
    out
}

fn write_finding(index: usize, f: &Finding) -> (r: String)
    requires
        index < usize::MAX,
    ensures
        r@ == finding_text(index as nat, f@),
{
    let mut out = String::from_str("\n");
    push_decimal(&mut out, index + 1);
    push_str(&mut out, ". [");
    push_str(&mut out, severity_label(f.severity));
    push_str(&mut out, "] ");
    push_str(&mut out, kind_name_str(f.kind));
    push_str(&mut out, " at lines ");
    push_decimal(&mut out, f.line_start);
    push_str(&mut out, "-");
    push_decimal(&mut out, f.line_end);
    push_str(&mut out, "\n");
    push_str(&mut out, "   Title: ");
    push_str(&mut out, f.title.as_str());
    push_str(&mut out, "\n");
    push_str(&mut out, "   Why: ");
    push_str(&mut out, f.rationale.as_str());
    push_str(&mut out, "\n");
    push_str(&mut out, "   Signature: ");
    push_str(&mut out, f.signature.as_str());
    push_str(&mut out, "\n");
    push_str(&mut out, "   Occurrences: ");
    push_decimal(&mut out, f.occurrence_count);
    push_str(&mut out, "\n");
    push_optional_line(&mut out, "   Process: ", &f.process);
    push_optional_line(&mut out, "   Thread: ", &f.thread);
    push_optional_line(&mut out, "   Root cause: ", &f.root_cause);
    push_str(&mut out, "   Evidence:\n");
    let ev = evidence_string(&f.evidence);
    push_str(&mut out, ev.as_str());
    out
}

fn findings_string(findings: &Vec<Finding>) -> (r: String)
    ensures
        r@ == findings_text(findings_view(findings@)),
{
    let ghost fv = findings_view(findings@);
    let mut out = String::new();
    let mut i: usize = 0;
    assert(fv.take(0) =~= Seq::<FindingView>::empty());
    while i < findings.len()
        invariant
            i <= findings@.len(),
            fv == findings_view(findings@),
            out@ == findings_text(fv.take(i as int)),
        decreases findings@.len() - i,
    {
        let block = write_finding(i, &findings[i]);
        push_str(&mut out, block.as_str());
        assert(fv.take(i + 1).drop_last() =~= fv.take(i as int));
        assert(fv.take(i + 1).last() == findings@[i as int]@);
        i += 1;
    }
    assert(fv.take(i as int) =~= fv);
    out
}

fn causes_string(causes: &Vec<String>) -> (r: String)
    ensures
        r@ == causes_block(texts_view(causes@)),
{
    let ghost cv = texts_view(causes@);
    if causes.len() == 0 {
        return String::new();
    }
    let mut list = String::new();
    let mut i: usize = 0;
    assert(cv.take(0) =~= Seq::<Seq<char>>::empty());
    while i < causes.len()
        invariant
            i <= causes@.len(),
            cv == texts_view(causes@),
            list@ == causes_text(cv.take(i as int)),
        decreases causes@.len() - i,
    {
        push_str(&mut list, "- ");
        push_str(&mut list, causes[i].as_str());
        push_str(&mut list, "\n");
        assert(cv.take(i + 1).drop_last() =~= cv.take(i as int));
        assert(cv.take(i + 1).last() == causes@[i as int]@);
        i += 1;
    }
    assert(cv.take(i as int) =~= cv);
    let mut out = String::from_str("Likely root causes:\n");
    push_str(&mut out, list.as_str());
    out
}

/// Renders `report` as human-readable text.
pub fn render_text(report: &AnalysisReport) -> (r: String)
    ensures
        r@ == report_text(report@),
{
    let mut out = if report.findings.len() == 0 {
        String::from_str("No high-confidence crash findings detected.\n")
    } else {
        let mut head = String::from_str("Summary\n");
        push_str(&mut head, "Findings: ");
        push_decimal(&mut head, report.summary.total_findings);
        push_str(&mut head, "\n");
        push_str(&mut head, "Top severity: ");
        let label = match report.summary.top_severity {
            Some(s) => severity_label(s),
            None => "unknown",
        };
        push_str(&mut head, label);
        push_str(&mut head, "\n");
        let causes = causes_string(&report.summary.root_cause_candidates);
        push_str(&mut head, causes.as_str());
        push_str(&mut head, "\nFindings\n");
        let blocks = findings_string(&report.findings);
        push_str(&mut head, blocks.as_str());
        head
    };
    if report.parse_warnings.len() > 0 {
        let mut note = String::from_str("\nParse warnings: ");
        push_decimal(&mut note, report.parse_warnings.len());
        push_str(&mut note, " line(s) did not match a structured logcat format.\n");
        push_str(&mut out, note.as_str());
    } else {
        assert(out@ =~= out@ + warnings_note(0));
    }
    out
}

} // verus!
