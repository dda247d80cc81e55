//! Laws that say, in terms of the input, what each part of a finding, of a
//! parsed line and of the text report is.
use vstd::prelude::*;

use crate::analyzer::{
    Clue, clue_in, evidence_limit, evidence_of, evidence_start, finding_at, first_hit, last_hit,
    lemma_walk_bounds, message_parts, root_cause_of, walk,
};
use crate::laws::numbered;
use crate::model::{EvidenceView, FindingKind, FindingView, LogLevel, LogLineView};
use crate::text::{after_first, starts_with, strip_prefix, trim};
use crate::parser::{is_blank, lines_of, parse_log};
use crate::pattern::logcat_line_match;
use crate::report::{evidence_text, finding_text};

verus! {

/// The level of a structured line is fixed by its one-letter priority:
/// `V` Verbose, `D` Debug, `I` Info, `W` Warn, `E` Error, `F` and `A` Fatal;
/// any other priority text gives no level.
pub proof fn law_level_follows_priority_letter(input: Seq<char>, i: int)
    requires
        0 <= i < lines_of(input).len(),
        !is_blank(lines_of(input)[i]),
        logcat_line_match(lines_of(input)[i]) is Some,
    ensures
        ({
            let c = logcat_line_match(lines_of(input)[i])->0;
            let p = c.3;
            let level = parse_log(input).lines[i].level;
            &&& parse_log(input).lines[i].structured
            &&& p == seq!['V'] ==> level == Some(LogLevel::Verbose)
            &&& p == seq!['D'] ==> level == Some(LogLevel::Debug)
            &&& p == seq!['I'] ==> level == Some(LogLevel::Info)
            &&& p == seq!['W'] ==> level == Some(LogLevel::Warn)
            &&& p == seq!['E'] ==> level == Some(LogLevel::Error)
            &&& p == seq!['F'] ==> level == Some(LogLevel::Fatal)
            &&& p == seq!['A'] ==> level == Some(LogLevel::Fatal)
            &&& (p.len() != 1 || !(p[0] == 'V' || p[0] == 'D' || p[0] == 'I' || p[0] == 'W'
                || p[0] == 'E' || p[0] == 'F' || p[0] == 'A')) ==> level is None
        }),
{
}

/// `f` with the root cause `r`.
pub open spec fn with_root_cause(f: FindingView, r: Option<Seq<char>>) -> FindingView {
    FindingView {
        kind: f.kind,
        severity: f.severity,
        title: f.title,
        rationale: f.rationale,
        line_start: f.line_start,
        line_end: f.line_end,
        package: f.package,
        process: f.process,
        thread: f.thread,
        exception: f.exception,
        root_cause: r,
        signature: f.signature,
        occurrence_count: f.occurrence_count,
        evidence: f.evidence,
    }
}

/// The root cause shows in a finding's block as the line
/// `   Root cause: <root cause>` just before the evidence, and only there:
/// the block of a finding with a root cause is that of the same finding
/// without one, with that line put in before `   Evidence:`.
pub proof fn law_root_cause_line_shows_root_cause(index: nat, f: FindingView, r: Seq<char>)
    ensures
        exists|a: Seq<char>|
            #![trigger a + "   Evidence:\n"@]
            finding_text(index, with_root_cause(f, None)) == a + "   Evidence:\n"@ + evidence_text(
                f.evidence,
            ) && finding_text(index, with_root_cause(f, Some(r))) == a + "   Root cause: "@ + r
                + "\n"@ + "   Evidence:\n"@ + evidence_text(f.evidence),
{
    let g = with_root_cause(f, None);
    let h = with_root_cause(f, Some(r));
    let a = finding_text(index, g).take(
        finding_text(index, g).len() - "   Evidence:\n"@.len() - evidence_text(f.evidence).len(),
    );
    assert(finding_text(index, g) =~= a + "   Evidence:\n"@ + evidence_text(f.evidence));
    assert(finding_text(index, h) =~= a + "   Root cause: "@ + r + "\n"@ + "   Evidence:\n"@
        + evidence_text(f.evidence));
}

// ---------------------------------------------------------------------------
// Exception, root cause and signature of a finding
// ---------------------------------------------------------------------------

/// The message of a quoted log line: what follows its first `": "`, or the
/// whole line, without surrounding whitespace.
pub open spec fn quoted_message(line: Seq<char>) -> Seq<char> {
    trim(
        match after_first(line, ": "@) {
            Some(r) => r,
            None => line,
        },
    )
}

/// A message that names an exception or its cause.
pub open spec fn names_exception(t: Seq<char>) -> bool {
    starts_with(t, "java."@) || starts_with(t, "kotlin."@) || starts_with(t, "android."@)
        || starts_with(t, "Caused by:"@)
}

/// A message that names a cause.
pub open spec fn names_cause(t: Seq<char>) -> bool {
    starts_with(t, "Caused by:"@)
}

proof fn lemma_first_hit_at(ms: Seq<Seq<char>>, clue: Clue, i: int, j: int)
    requires
        0 <= i <= j < ms.len(),
        clue_in(clue, ms[j]) is Some,
        forall|t: int| i <= t < j ==> clue_in(clue, #[trigger] ms[t]) is None,
    ensures
        first_hit(ms, clue, i) == clue_in(clue, ms[j]),
    decreases j - i,
{
    if i < j {
        lemma_first_hit_at(ms, clue, i + 1, j);
    }
}

proof fn lemma_first_hit_none(ms: Seq<Seq<char>>, clue: Clue, i: int)
    requires
        0 <= i <= ms.len(),
        forall|t: int| i <= t < ms.len() ==> clue_in(clue, #[trigger] ms[t]) is None,
    ensures
        first_hit(ms, clue, i) is None,
    decreases ms.len() - i,
{
    if i < ms.len() {
        lemma_first_hit_none(ms, clue, i + 1);
    }
}

proof fn lemma_last_hit_at(ms: Seq<Seq<char>>, clue: Clue, k: int, j: int)
    requires
        0 <= j < k <= ms.len(),
        clue_in(clue, ms[j]) is Some,
        forall|t: int| j < t < k ==> clue_in(clue, #[trigger] ms[t]) is None,
    ensures
        last_hit(ms, clue, k) == clue_in(clue, ms[j]),
    decreases k,
{
    if j < k - 1 {
        lemma_last_hit_at(ms, clue, k - 1, j);
    }
}

proof fn lemma_last_hit_none(ms: Seq<Seq<char>>, clue: Clue, k: int)
    requires
        0 <= k <= ms.len(),
        forall|t: int| 0 <= t < k ==> clue_in(clue, #[trigger] ms[t]) is None,
    ensures
        last_hit(ms, clue, k) is None,
    decreases k,
{
    if k > 0 {
        lemma_last_hit_none(ms, clue, k - 1);
    }
}

proof fn lemma_clues(ev: Seq<EvidenceView>, t: int)
    requires
        0 <= t < ev.len(),
    ensures
        clue_in(Clue::Exception, message_parts(ev)[t]) == if names_exception(
            quoted_message(ev[t].message),
        ) {
            Some(quoted_message(ev[t].message))
        } else {
            None
        },
        clue_in(Clue::Cause, message_parts(ev)[t]) == if names_cause(
            quoted_message(ev[t].message),
        ) {
            Some(trim(quoted_message(ev[t].message).skip("Caused by:"@.len() as int)))
        } else {
            None
        },
{
    let m = message_parts(ev)[t];
    assert(strip_prefix(trim(m), "Caused by:"@) == if names_cause(trim(m)) {
        Some(trim(m).skip("Caused by:"@.len() as int))
    } else {
        None
    });
}

/// A finding's exception is the first quoted message of its evidence that
/// starts with `java.`, `kotlin.`, `android.` or `Caused by:`, and there is
/// none where no quoted message does.
pub proof fn law_exception_is_first_exception_line(
    lines: Seq<LogLineView>,
    anchor: int,
    kind: FindingKind,
)
    requires
        0 <= anchor < lines.len(),
    ensures
        ({
            let f = finding_at(lines, anchor, kind);
            let ev = f.evidence;
            &&& forall|j: int|
                0 <= j < ev.len() && names_exception(quoted_message(ev[j].message)) && (forall|
                    i: int,
                | 0 <= i < j ==> !names_exception(quoted_message(#[trigger] ev[i].message)))
                    ==> f.exception == Some(quoted_message(ev[j].message))
            &&& (forall|j: int|
                0 <= j < ev.len() ==> !names_exception(quoted_message(#[trigger] ev[j].message)))
                ==> f.exception is None
        }),
{
    let f = finding_at(lines, anchor, kind);
    let ev = f.evidence;
    let ms = message_parts(ev);
    assert forall|j: int|
        0 <= j < ev.len() && names_exception(quoted_message(ev[j].message)) && (forall|i: int|
            0 <= i < j ==> !names_exception(quoted_message(#[trigger] ev[i].message))) implies f.exception
        == Some(quoted_message(ev[j].message)) by {
        assert forall|t: int| 0 <= t < j implies clue_in(Clue::Exception, #[trigger] ms[t]) is None by {
            lemma_clues(ev, t);
        }
        lemma_clues(ev, j);
        lemma_first_hit_at(ms, Clue::Exception, 0, j);
    }
    if forall|j: int| 0 <= j < ev.len() ==> !names_exception(quoted_message(#[trigger] ev[j].message)) {
        assert forall|t: int| 0 <= t < ms.len() implies clue_in(Clue::Exception, #[trigger] ms[t]) is None by {
            lemma_clues(ev, t);
        }
        lemma_first_hit_none(ms, Clue::Exception, 0);
    }
}

/// A finding's root cause is the cause named by the last quoted message of
/// its evidence that starts with `Caused by:` (the innermost cause), and its
/// exception where there is no such message.
pub proof fn law_root_cause_is_innermost_cause(
    lines: Seq<LogLineView>,
    anchor: int,
    kind: FindingKind,
)
    requires
        0 <= anchor < lines.len(),
    ensures
        ({
            let f = finding_at(lines, anchor, kind);
            let ev = f.evidence;
            &&& forall|j: int|
                0 <= j < ev.len() && names_cause(quoted_message(ev[j].message)) && (forall|i: int|
                    j < i < ev.len() ==> !names_cause(quoted_message(#[trigger] ev[i].message)))
                    ==> f.root_cause == Some(
                    trim(quoted_message(ev[j].message).skip("Caused by:"@.len() as int)),
                )
            &&& (forall|j: int|
                0 <= j < ev.len() ==> !names_cause(quoted_message(#[trigger] ev[j].message)))
                ==> f.root_cause == f.exception
        }),
{
    let f = finding_at(lines, anchor, kind);
    let ev = f.evidence;
    let ms = message_parts(ev);
    assert(f.root_cause == root_cause_of(ms));
    assert forall|j: int|
        0 <= j < ev.len() && names_cause(quoted_message(ev[j].message)) && (forall|i: int|
            j < i < ev.len() ==> !names_cause(quoted_message(#[trigger] ev[i].message))) implies f.root_cause
        == Some(trim(quoted_message(ev[j].message).skip("Caused by:"@.len() as int))) by {
        assert forall|t: int| j < t < ms.len() implies clue_in(Clue::Cause, #[trigger] ms[t]) is None by {
            lemma_clues(ev, t);
        }
        lemma_clues(ev, j);
        lemma_last_hit_at(ms, Clue::Cause, ms.len() as int, j);
    }
    if forall|j: int| 0 <= j < ev.len() ==> !names_cause(quoted_message(#[trigger] ev[j].message)) {
        assert forall|t: int| 0 <= t < ms.len() implies clue_in(Clue::Cause, #[trigger] ms[t]) is None by {
            lemma_clues(ev, t);
        }
        lemma_last_hit_none(ms, Clue::Cause, ms.len() as int);
    }
}

/// How a kind is written in a signature.
pub open spec fn kind_word(kind: FindingKind) -> Seq<char> {
    match kind {
        FindingKind::FatalException => "FatalException"@,
        FindingKind::Anr => "Anr"@,
        FindingKind::NativeCrash => "NativeCrash"@,
        FindingKind::Abort => "Abort"@,
        FindingKind::OutOfMemory => "OutOfMemory"@,
        FindingKind::JniError => "JniError"@,
    }
}

/// The package of a finding, or nothing.
pub open spec fn package_word(f: FindingView) -> Seq<char> {
    match f.package {
        Some(p) => p,
        None => seq![],
    }
}

/// A finding with a root cause has the signature
/// `<kind>|<package, or nothing>|<root cause>`.
pub proof fn law_signature_names_root_cause(lines: Seq<LogLineView>, anchor: int, kind: FindingKind)
    requires
        0 <= anchor < lines.len(),
    ensures
        finding_at(lines, anchor, kind).kind == kind,
        finding_at(lines, anchor, kind).root_cause is Some ==> finding_at(lines, anchor, kind).signature
            == kind_word(kind) + "|"@ + package_word(finding_at(lines, anchor, kind)) + "|"@
            + finding_at(lines, anchor, kind).root_cause->0,
{
}

/// Incidents of one kind and package with different root causes never
/// share a signature, so they are never counted together.
pub proof fn law_distinct_root_causes_distinct_signatures(
    lines1: Seq<LogLineView>,
    anchor1: int,
    lines2: Seq<LogLineView>,
    anchor2: int,
    kind: FindingKind,
)
    requires
        0 <= anchor1 < lines1.len(),
        0 <= anchor2 < lines2.len(),
        finding_at(lines1, anchor1, kind).package == finding_at(lines2, anchor2, kind).package,
        finding_at(lines1, anchor1, kind).root_cause is Some,
        finding_at(lines2, anchor2, kind).root_cause is Some,
        finding_at(lines1, anchor1, kind).root_cause != finding_at(lines2, anchor2, kind).root_cause,
    ensures
        finding_at(lines1, anchor1, kind).signature != finding_at(lines2, anchor2, kind).signature,
{
    let f1 = finding_at(lines1, anchor1, kind);
    let f2 = finding_at(lines2, anchor2, kind);
    law_signature_names_root_cause(lines1, anchor1, kind);
    law_signature_names_root_cause(lines2, anchor2, kind);
    let prefix = kind_word(kind) + "|"@ + package_word(f1) + "|"@;
    assert(f1.signature == prefix + f1.root_cause->0);
    assert(f2.signature == prefix + f2.root_cause->0);
    if f1.signature == f2.signature {
        assert((prefix + f1.root_cause->0).skip(prefix.len() as int) =~= f1.root_cause->0);
        assert((prefix + f2.root_cause->0).skip(prefix.len() as int) =~= f2.root_cause->0);
    }
}

// ---------------------------------------------------------------------------
// Evidence
// ---------------------------------------------------------------------------

/// Line `j` comes from the anchor's process (a known pid), has the anchor's
/// tag and a non-empty message.
pub open spec fn same_process_and_tag(lines: Seq<LogLineView>, anchor: int, j: int) -> bool {
    &&& lines[anchor].pid is Some
    &&& lines[j].pid == lines[anchor].pid
    &&& lines[j].tag == lines[anchor].tag
    &&& lines[j].message.len() > 0
}

proof fn lemma_walk_run(lines: Seq<LogLineView>, a: int, m: int, k: int)
    requires
        0 <= a,
        a + m < lines.len(),
        a + 1 <= k <= a + 1 + m,
        forall|j: int| a < j <= a + m ==> #[trigger] same_process_and_tag(lines, a, j),
    ensures
        !walk(lines, a, k).stopped,
        walk(lines, a, k).trailing == 0,
        walk(lines, a, k).end == k - 1,
        walk(lines, a, k).evidence.len() == (a + 1 - evidence_start(a)) + (k - 1 - a),
        forall|j: int|
            a < j < k ==> walk(lines, a, k).evidence[(a + 1 - evidence_start(a)) + (j - a - 1)]
                == evidence_of(#[trigger] lines[j]),
    decreases k - a,
{
    if k > a + 1 {
        lemma_walk_run(lines, a, m, k - 1);
        assert(same_process_and_tag(lines, a, k - 1));
        let w = walk(lines, a, k - 1);
        let base = a + 1 - evidence_start(a);
        assert forall|j: int| a < j < k implies walk(lines, a, k).evidence[base + (j - a - 1)]
            == evidence_of(#[trigger] lines[j]) by {
            if j < k - 1 {
                assert(walk(lines, a, k).evidence[base + (j - a - 1)] == w.evidence[base + (j - a
                    - 1)]);
            }
        }
    }
}

proof fn lemma_walk_grows(lines: Seq<LogLineView>, a: int, k: int, k2: int)
    requires
        0 <= a < lines.len(),
        a + 1 <= k <= k2 <= lines.len(),
    ensures
        walk(lines, a, k).evidence.len() <= walk(lines, a, k2).evidence.len(),
        forall|i: int|
            0 <= i < walk(lines, a, k).evidence.len() ==> walk(lines, a, k2).evidence[i]
                == #[trigger] walk(lines, a, k).evidence[i],
        walk(lines, a, k).end <= walk(lines, a, k2).end,
    decreases k2 - k,
{
    if k2 > k {
        lemma_walk_grows(lines, a, k, k2 - 1);
        lemma_walk_bounds(lines, a, k2 - 1);
    }
}

/// The lines that follow an anchor from a known process, from that process,
/// with the anchor's tag and a non-empty message, within the 24 lines after
/// it, belong to its finding whether or not they look like a stack trace:
/// each is quoted in the evidence, and the finding ends no earlier than the
/// last of them.
pub proof fn law_same_process_and_tag_lines_join_evidence(
    lines: Seq<LogLineView>,
    anchor: int,
    m: int,
    kind: FindingKind,
)
    requires
        0 <= anchor,
        0 <= m <= 24,
        anchor + m < lines.len(),
        forall|j: int| anchor < j <= anchor + m ==> #[trigger] same_process_and_tag(lines, anchor, j),
    ensures
        forall|j: int|
            anchor < j <= anchor + m ==> finding_at(lines, anchor, kind).evidence.contains(
                EvidenceView { line_number: (#[trigger] lines[j]).line_number, message: lines[j].raw },
            ),
        numbered(lines) ==> finding_at(lines, anchor, kind).line_end >= lines[anchor
            + m].line_number,
{
    let limit = evidence_limit(lines.len() as int, anchor);
    let k = anchor + 1 + m;
    lemma_walk_run(lines, anchor, m, k);
    lemma_walk_grows(lines, anchor, k, limit);
    lemma_walk_bounds(lines, anchor, limit);
    let w = walk(lines, anchor, k);
    let ev = finding_at(lines, anchor, kind).evidence;
    let base = anchor + 1 - evidence_start(anchor);
    assert forall|j: int| anchor < j <= anchor + m implies ev.contains(
        EvidenceView { line_number: (#[trigger] lines[j]).line_number, message: lines[j].raw },
    ) by {
        let idx = base + (j - anchor - 1);
        assert(w.evidence[idx] == evidence_of(lines[j]));
        assert(ev[idx] == w.evidence[idx]);
    }
    if numbered(lines) {
        let e = walk(lines, anchor, limit).end;
        assert(lines[e].line_number == e + 1);
        assert(lines[anchor + m].line_number == anchor + m + 1);
    }
}

} // verus!
