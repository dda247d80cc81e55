//! Counting repeated incidents together, and the summary of a report.
use vstd::prelude::*;

use crate::model::{
    Finding, FindingView, ReportSummary, Severity, SummaryView, findings_view, texts_view,
};

verus! {

// ---------------------------------------------------------------------------
// Repeated incidents
// ---------------------------------------------------------------------------

/// The first index, from `i` on, of a finding with the signature `sig`.
pub open spec fn signature_index(fs: Seq<FindingView>, sig: Seq<char>, i: int) -> Option<int>
    decreases fs.len() - i,
{
    if 0 <= i < fs.len() {
        if fs[i].signature == sig {
            Some(i)
        } else {
            signature_index(fs, sig, i + 1)
        }
    } else {
        None
    }
}

/// `f` standing for `count` incidents.
pub open spec fn with_count(f: FindingView, count: nat) -> FindingView {
    FindingView {
        kind: f.kind,
        severity: f.severity,
        title: f.title,
        rationale: f.rationale,
        line_start: f.line_start,
        line_end: f.line_end,
        package: f.package,
        process: f.process,
        thread: f.thread,
        exception: f.exception,
        root_cause: f.root_cause,
        signature: f.signature,
        occurrence_count: count,
        evidence: f.evidence,
    }
}

/// `f` standing for one more incident.
pub open spec fn counted_once_more(f: FindingView) -> FindingView {
    with_count(f, f.occurrence_count + 1)
}

/// The number of incidents in `raw` with the signature `sig`.
pub open spec fn occurrences(raw: Seq<FindingView>, sig: Seq<char>) -> nat
    decreases raw.len(),
{
    if raw.len() == 0 {
        0
    } else {
        occurrences(raw.drop_last(), sig) + if raw.last().signature == sig {
            1nat
        } else {
            0nat
        }
    }
}

/// Adds the incident `f` to the findings `prev`: the finding with its
/// signature counts one more, or `f` comes last where there is none.
pub open spec fn merge_step(prev: Seq<FindingView>, f: FindingView) -> Seq<FindingView> {
    match signature_index(prev, f.signature, 0) {
        Some(k) => prev.update(k, counted_once_more(prev[k])),
        None => prev.push(f),
    }
}

/// The incidents `raw` with those of one signature counted together in the
/// first of them, in the order in which the signatures first occur.
pub open spec fn merge(raw: Seq<FindingView>) -> Seq<FindingView>
    decreases raw.len(),
{
    if raw.len() == 0 {
        seq![]
    } else {
        merge_step(merge(raw.drop_last()), raw.last())
    }
}

pub proof fn lemma_signature_index(fs: Seq<FindingView>, sig: Seq<char>, i: int)
    requires
        0 <= i,
    ensures
        match signature_index(fs, sig, i) {
            Some(k) => i <= k < fs.len() && fs[k].signature == sig && forall|j: int|
                i <= j < k ==> fs[j].signature != sig,
            None => forall|j: int| i <= j < fs.len() ==> fs[j].signature != sig,
        },
    decreases fs.len() - i,
{
    if 0 <= i < fs.len() && fs[i].signature != sig {
        lemma_signature_index(fs, sig, i + 1);
    }
}

/// No finding counts more than `bound + 1` incidents after one more is added,
/// where none counted more than `bound` before.
pub proof fn lemma_merge_step_count_bound(prev: Seq<FindingView>, f: FindingView, bound: nat)
    requires
        forall|k: int| 0 <= k < prev.len() ==> prev[k].occurrence_count <= bound,
        f.occurrence_count <= bound + 1,
    ensures
        forall|k: int|
            0 <= k < merge_step(prev, f).len() ==> merge_step(prev, f)[k].occurrence_count <= bound
                + 1,
{
    lemma_signature_index(prev, f.signature, 0);
}

/// Adds the incident `f` to `merged`.
pub(crate) fn merge_into(merged: &mut Vec<Finding>, f: Finding)
    requires
        forall|k: int| 0 <= k < old(merged)@.len() ==> old(merged)@[k].occurrence_count < usize::MAX,
    ensures
        findings_view(final(merged)@) == merge_step(findings_view(old(merged)@), f@),
{
    let ghost before = findings_view(merged@);
    let mut i: usize = 0;
    while i < merged.len()
        invariant
            i <= merged@.len(),
            merged@ == old(merged)@,
            forall|k: int|
                0 <= k < old(merged)@.len() ==> old(merged)@[k].occurrence_count < usize::MAX,
            before == findings_view(merged@),
            signature_index(before, f@.signature, 0) == signature_index(
                before,
                f@.signature,
                i as int,
            ),
        decreases merged@.len() - i,
    {
        if merged[i].signature == f.signature {
            let count = merged[i].occurrence_count;
            merged[i].occurrence_count = count + 1;
            assert(findings_view(merged@) =~= before.update(
                i as int,
                counted_once_more(before[i as int]),
            ));
            return ;
        }
        i += 1;
    }
    merged.push(f);
    assert(findings_view(merged@) =~= before.push(f@));
}

// ---------------------------------------------------------------------------
// Summary
// ---------------------------------------------------------------------------

/// Severities in increasing order.
pub open spec fn severity_rank(s: Severity) -> int {
    match s {
        Severity::Low => 0,
        Severity::Medium => 1,
        Severity::High => 2,
        Severity::Critical => 3,
    }
}

fn severity_rank_of(s: Severity) -> (r: u8)
    ensures
        r == severity_rank(s),
{
    match s {
        Severity::Low => 0,
        Severity::Medium => 1,
        Severity::High => 2,
        Severity::Critical => 3,
    }
}

/// The highest severity among the findings (the first of equal ones).
pub open spec fn top_severity(fs: Seq<FindingView>) -> Option<Severity>
    decreases fs.len(),
{
    if fs.len() == 0 {
        None
    } else {
        let s = fs.last().severity;
        match top_severity(fs.drop_last()) {
            None => Some(s),
            Some(t) => if severity_rank(s) > severity_rank(t) {
                Some(s)
            } else {
                Some(t)
            },
        }
    }
}

/// The root causes of the findings, each once, in order of first occurrence.
pub open spec fn root_causes(fs: Seq<FindingView>) -> Seq<Seq<char>>
    decreases fs.len(),
{
    if fs.len() == 0 {
        seq![]
    } else {
        let prev = root_causes(fs.drop_last());
        match fs.last().root_cause {
            Some(r) => if prev.contains(r) {
                prev
            } else {
                prev.push(r)
            },
            None => prev,
        }
    }
}

/// The summary of the findings `fs` of a log with `warning_count` warnings.
pub open spec fn summarize(fs: Seq<FindingView>, warning_count: nat) -> SummaryView {
    SummaryView {
        total_findings: fs.len(),
        parse_warning_count: warning_count,
        top_severity: top_severity(fs),
        root_cause_candidates: root_causes(fs),
    }
}

fn contains_text(v: &Vec<String>, s: &String) -> (r: bool)
    ensures
        r == texts_view(v@).contains(s@),
{
    let ghost tv = texts_view(v@);
    let mut i: usize = 0;
    while i < v.len()
        invariant
            i <= v@.len(),
            tv == texts_view(v@),
            forall|j: int| 0 <= j < i ==> tv[j] != s@,
        decreases v@.len() - i,
    {
        if v[i] == *s {
            assert(tv[i as int] == s@);
            return true;
        }
        i += 1;
    }
    false
}

/// The summary of `findings`, for a log with `warning_count` warnings.
pub fn summarize_findings(findings: &Vec<Finding>, warning_count: usize) -> (r: ReportSummary)
    ensures
        r@ == summarize(findings_view(findings@), warning_count as nat),
{
    let ghost fv = findings_view(findings@);
    let mut top: Option<Severity> = None;
    let mut causes: Vec<String> = Vec::new();
    let mut i: usize = 0;
    while i < findings.len()
        invariant
            i <= findings@.len(),
            fv == findings_view(findings@),
            top == top_severity(fv.take(i as int)),
            texts_view(causes@) == root_causes(fv.take(i as int)),
        decreases findings@.len() - i,
    {
        let f = &findings[i];
        assert(fv.take(i + 1).drop_last() =~= fv.take(i as int));
        assert(fv.take(i + 1).last() == f@);
        top = match top {
            None => Some(f.severity),
            Some(t) => if severity_rank_of(f.severity) > severity_rank_of(t) {
                Some(f.severity)
            } else {
                Some(t)
            },
        };
        match &f.root_cause {
            Some(r) => {
                if !contains_text(&causes, r) {
                    let ghost before = texts_view(causes@);
                    causes.push(r.clone());
                    assert(texts_view(causes@) =~= before.push(r@));
                }
            },
            None => {},
        }
        i += 1;
    }
    assert(fv.take(i as int) =~= fv);
    ReportSummary {
        total_findings: findings.len(),
        parse_warning_count: warning_count,
        top_severity: top,
        root_cause_candidates: causes,
    }
}

} // verus!
