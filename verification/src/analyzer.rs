//! Detection of crash-related incidents in parsed lines, and the evidence,
//! context and explanation gathered for each.
use vstd::prelude::*;

use crate::aggregate::{
    lemma_merge_step_count_bound, merge, merge_into, summarize, summarize_findings,
};
use crate::model::{
    AnalysisReport, EvidenceLine, EvidenceView, Finding, FindingKind, FindingView, LogLine,
    LogLineView, ReportView, Severity, evidence_view, findings_view, lines_view, opt_text,
};
use crate::parser::{ParsedLog, ParsedLogView};
use crate::pattern::{PROCESS_MARKER_PATTERN, ProcessPattern, process_marker_match};
use crate::text::{
    after_first, after_first_chars, before_char, before_char_chars, chars_of, contains,
    contains_chars, push_str, starts_with, starts_with_chars, string_of, strip_prefix,
    strip_prefix_chars, trim, trim_chars, trim_start, trim_start_chars,
};

verus! {

// ---------------------------------------------------------------------------
// Detection
// ---------------------------------------------------------------------------

/// The kind of incident whose marker a message holds, if any; the first
/// matching rule wins.
pub open spec fn anchor_kind(message: Seq<char>) -> Option<FindingKind> {
    if contains(message, "FATAL EXCEPTION"@) {
        Some(FindingKind::FatalException)
    } else if contains(message, "ANR in "@) || contains(message, "Application Not Responding"@) {
        Some(FindingKind::Anr)
    } else if contains(message, "Fatal signal"@) || contains(message, "SIGSEGV"@) || contains(
        message,
        "SIGABRT"@,
    ) {
        Some(FindingKind::NativeCrash)
    } else if contains(message, "Abort message:"@) {
        Some(FindingKind::Abort)
    } else if contains(message, "OutOfMemoryError"@) {
        Some(FindingKind::OutOfMemory)
    } else if contains(message, "JNI DETECTED ERROR IN APPLICATION"@) {
        Some(FindingKind::JniError)
    } else {
        None
    }
}

fn has(message: &Vec<char>, marker: &str) -> (r: bool)
    ensures
        r == contains(message@, marker@),
{
    contains_chars(message, &chars_of(marker))
}

fn detect_anchor(message: &Vec<char>) -> (r: Option<FindingKind>)
    ensures
        r == anchor_kind(message@),
{
    if has(message, "FATAL EXCEPTION") {
        Some(FindingKind::FatalException)
    } else if has(message, "ANR in ") || has(message, "Application Not Responding") {
        Some(FindingKind::Anr)
    } else if has(message, "Fatal signal") || has(message, "SIGSEGV") || has(message, "SIGABRT") {
        Some(FindingKind::NativeCrash)
    } else if has(message, "Abort message:") {
        Some(FindingKind::Abort)
    } else if has(message, "OutOfMemoryError") {
        Some(FindingKind::OutOfMemory)
    } else if has(message, "JNI DETECTED ERROR IN APPLICATION") {
        Some(FindingKind::JniError)
    } else {
        None
    }
}

/// Fatal exceptions, native crashes and aborts are critical; the other kinds
/// are high.
pub open spec fn severity_of_kind(kind: FindingKind) -> Severity {
    match kind {
        FindingKind::FatalException | FindingKind::NativeCrash | FindingKind::Abort => {
            Severity::Critical
        },
        FindingKind::Anr | FindingKind::OutOfMemory | FindingKind::JniError => Severity::High,
    }
}

fn severity_for(kind: FindingKind) -> (r: Severity)
    ensures
        r == severity_of_kind(kind),
{
    match kind {
        FindingKind::FatalException | FindingKind::NativeCrash | FindingKind::Abort => {
            Severity::Critical
        },
        FindingKind::Anr | FindingKind::OutOfMemory | FindingKind::JniError => Severity::High,
    }
}

// ---------------------------------------------------------------------------
// Context lines
// ---------------------------------------------------------------------------

/// A message that continues a crash report: a stack frame, a cause, or one
/// of the context lines that crash reports print.
pub open spec fn is_report_context(message: Seq<char>) -> bool {
    let t = trim_start(message);
    ||| starts_with(t, "Process:"@)
    ||| starts_with(t, "java."@)
    ||| starts_with(t, "kotlin."@)
    ||| starts_with(t, "android."@)
    ||| starts_with(t, "Caused by:"@)
    ||| starts_with(t, "at "@)
    ||| starts_with(t, "..."@)
    ||| starts_with(t, "#"@)
    ||| starts_with(t, "backtrace:"@)
    ||| starts_with(t, "Abort message:"@)
    ||| starts_with(t, "Reason:"@)
    ||| starts_with(t, "Cmd line:"@)
    ||| starts_with(t, "Build fingerprint:"@)
}

fn begins(t: &Vec<char>, prefix: &str) -> (r: bool)
    ensures
        r == starts_with(t@, prefix@),
{
    starts_with_chars(t, &chars_of(prefix))
}

fn is_stack_or_context_line(message: &Vec<char>) -> (r: bool)
    ensures
        r == is_report_context(message@),
{
    let t = trim_start_chars(message);
    begins(&t, "Process:") || begins(&t, "java.") || begins(&t, "kotlin.") || begins(
        &t,
        "android.",
    ) || begins(&t, "Caused by:") || begins(&t, "at ") || begins(&t, "...") || begins(&t, "#")
        || begins(&t, "backtrace:") || begins(&t, "Abort message:") || begins(&t, "Reason:")
        || begins(&t, "Cmd line:") || begins(&t, "Build fingerprint:")
}

/// A line after the anchor belongs to the incident: a non-empty message that
/// continues a crash report or, from the anchor's process, one with the
/// anchor's tag.
pub open spec fn follows_anchor(
    anchor: LogLineView,
    candidate: LogLineView,
    anchor_pid: Option<u32>,
) -> bool {
    if candidate.message.len() == 0 {
        false
    } else if anchor_pid is Some && anchor_pid == candidate.pid {
        is_report_context(candidate.message) || candidate.tag == anchor.tag
    } else {
        is_report_context(candidate.message)
    }
}

fn same_text(a: &Option<String>, b: &Option<String>) -> (r: bool)
    ensures
        r == (opt_text(*a) == opt_text(*b)),
{
    match (a, b) {
        (Some(x), Some(y)) => *x == *y,
        (None, None) => true,
        _ => false,
    }
}

fn should_include_following_line(anchor: &LogLine, candidate: &LogLine, anchor_pid: Option<u32>) -> (r:
    bool)
    ensures
        r == follows_anchor(anchor@, candidate@, anchor_pid),
{
    let message = chars_of(candidate.message.as_str());
    if message.len() == 0 {
        return false;
    }
    let same_process = match (anchor_pid, candidate.pid) {
        (Some(a), Some(c)) => a == c,
        _ => false,
    };
    if same_process {
        is_stack_or_context_line(&message) || same_text(&candidate.tag, &anchor.tag)
    } else {
        is_stack_or_context_line(&message)
    }
}

// ---------------------------------------------------------------------------
// Evidence
// ---------------------------------------------------------------------------

/// A line quoted as evidence: its number and its raw text.
pub open spec fn evidence_of(line: LogLineView) -> EvidenceView {
    EvidenceView { line_number: line.line_number, message: line.raw }
}

fn to_evidence(line: &LogLine) -> (r: EvidenceLine)
    ensures
        r@ == evidence_of(line@),
{
    EvidenceLine { line_number: line.line_number, message: line.raw.clone() }
}

/// The first index of the evidence: two lines before the anchor, or the
/// start of the log.
pub open spec fn evidence_start(anchor: int) -> int {
    if anchor >= 2 {
        anchor - 2
    } else {
        0
    }
}

/// One past the last index that may follow the anchor as evidence: at most
/// 24 lines after it.
pub open spec fn evidence_limit(len: int, anchor: int) -> int {
    if anchor + 25 < len {
        anchor + 25
    } else {
        len
    }
}

/// The state of the walk over the lines after an anchor: the evidence so
/// far, the index of the last line taken, how many lines in a row were left
/// out, and whether the walk has stopped (after two lines in a row left out).
pub struct Walk {
    pub evidence: Seq<EvidenceView>,
    pub end: int,
    pub trailing: int,
    pub stopped: bool,
}

/// The walk after it has looked at `lines[k]`.
pub open spec fn walk_step(w: Walk, lines: Seq<LogLineView>, anchor: int, k: int) -> Walk {
    if w.stopped {
        w
    } else if follows_anchor(lines[anchor], lines[k], lines[anchor].pid) {
        Walk { evidence: w.evidence.push(evidence_of(lines[k])), end: k, trailing: 0, stopped: false }
    } else if w.trailing + 1 >= 2 {
        Walk { evidence: w.evidence, end: w.end, trailing: w.trailing + 1, stopped: true }
    } else {
        Walk { evidence: w.evidence, end: w.end, trailing: w.trailing + 1, stopped: false }
    }
}

/// The walk after it has looked at the lines before index `k`: it starts
/// with the anchor and the lines just before it.
pub open spec fn walk(lines: Seq<LogLineView>, anchor: int, k: int) -> Walk
    decreases k - anchor,
{
    if k <= anchor + 1 {
        Walk {
            evidence: lines.subrange(evidence_start(anchor), anchor + 1).map_values(
                |l: LogLineView| evidence_of(l),
            ),
            end: anchor,
            trailing: 0,
            stopped: false,
        }
    } else {
        walk_step(walk(lines, anchor, k - 1), lines, anchor, k - 1)
    }
}

/// The finished walk after the anchor at index `anchor`.
pub open spec fn evidence_walk(lines: Seq<LogLineView>, anchor: int) -> Walk {
    walk(lines, anchor, evidence_limit(lines.len() as int, anchor))
}

proof fn lemma_walk_stays_stopped(lines: Seq<LogLineView>, anchor: int, k: int, m: int)
    requires
        anchor + 1 <= k <= m,
        walk(lines, anchor, k).stopped,
    ensures
        walk(lines, anchor, m) == walk(lines, anchor, k),
    decreases m - k,
{
    if m > k {
        lemma_walk_stays_stopped(lines, anchor, k, m - 1);
    }
}

pub proof fn lemma_walk_bounds(lines: Seq<LogLineView>, anchor: int, k: int)
    requires
        0 <= anchor < lines.len(),
        anchor + 1 <= k <= lines.len(),
    ensures
        anchor <= walk(lines, anchor, k).end < k,
        1 <= walk(lines, anchor, k).evidence.len() <= k - evidence_start(anchor),
    decreases k - anchor,
{
    if k > anchor + 1 {
        lemma_walk_bounds(lines, anchor, k - 1);
    }
}

/// Collects the evidence around the anchor at `anchor`: the anchor, up to two
/// lines before it, and the lines after it that belong to the incident.
/// Returns the first and last line numbers and the evidence.
fn collect_evidence(lines: &Vec<LogLine>, anchor: usize) -> (r: (usize, usize, Vec<EvidenceLine>))
    requires
        anchor < lines@.len(),
    ensures
        r.0 == lines@[evidence_start(anchor as int)].line_number,
        r.1 == lines@[evidence_walk(lines_view(lines@), anchor as int).end].line_number,
        evidence_view(r.2@) == evidence_walk(lines_view(lines@), anchor as int).evidence,
{
    let ghost lv = lines_view(lines@);
    let n = lines.len();
    let start = if anchor >= 2 {
        anchor - 2
    } else {
        0
    };
    let mut evidence: Vec<EvidenceLine> = Vec::new();
    let mut i = start;
    while i <= anchor
        invariant
            lv == lines_view(lines@),
            start <= i <= anchor + 1,
            anchor < lines@.len(),
            n == lines@.len(),
            start == evidence_start(anchor as int),
            evidence_view(evidence@) == lv.subrange(start as int, i as int).map_values(
                |l: LogLineView| evidence_of(l),
            ),
        decreases anchor + 1 - i,
    {
        let ghost before = evidence_view(evidence@);
        let e = to_evidence(&lines[i]);
        evidence.push(e);
        assert(evidence_view(evidence@) =~= before.push(evidence_of(lv[i as int])));
        assert(lv.subrange(start as int, i + 1).map_values(|l: LogLineView| evidence_of(l))
            =~= lv.subrange(start as int, i as int).map_values(|l: LogLineView| evidence_of(l)).push(
            evidence_of(lv[i as int]),
        ));
        i += 1;
        assert(evidence_view(evidence@) =~= lv.subrange(start as int, i as int).map_values(
            |l: LogLineView| evidence_of(l),
        ));
    }
    let limit = if n - anchor > 25 {
        anchor + 25
    } else {
        n
    };
    let anchor_line = &lines[anchor];
    let anchor_pid = anchor_line.pid;
    let mut end = anchor;
    let mut trailing: usize = 0;
    let mut stopped = false;
    let mut k = anchor + 1;
    while k < limit && !stopped
        invariant
            lv == lines_view(lines@),
            n == lines@.len(),
            anchor < n,
            anchor + 1 <= k <= limit,
            limit == evidence_limit(n as int, anchor as int),
            anchor_line == lines@[anchor as int],
            anchor_pid == anchor_line.pid,
            trailing <= 2,
            walk(lv, anchor as int, k as int) == (Walk {
                evidence: evidence_view(evidence@),
                end: end as int,
                trailing: trailing as int,
                stopped,
            }),
        decreases limit - k,
    {
        let ghost before = evidence_view(evidence@);
        if should_include_following_line(anchor_line, &lines[k], anchor_pid) {
            evidence.push(to_evidence(&lines[k]));
            assert(evidence_view(evidence@) =~= before.push(evidence_of(lv[k as int])));
            end = k;
            trailing = 0;
        } else {
            trailing += 1;
            if trailing >= 2 {
                stopped = true;
            }
        }
        k += 1;
    }
    proof {
        if stopped {
            lemma_walk_stays_stopped(lv, anchor as int, k as int, limit as int);
        }
        lemma_walk_bounds(lv, anchor as int, limit as int);
    }
    (lines[start].line_number, lines[end].line_number, evidence)
}

// ---------------------------------------------------------------------------
// What the evidence tells: thread, package, process, exception, root cause
// ---------------------------------------------------------------------------

/// The message part of a quoted line: what follows its first `": "`, or the
/// whole line.
pub open spec fn message_part(m: Seq<char>) -> Seq<char> {
    match after_first(m, ": "@) {
        Some(r) => r,
        None => m,
    }
}

/// The message parts of the evidence lines, in order.
pub open spec fn message_parts(ev: Seq<EvidenceView>) -> Seq<Seq<char>> {
    ev.map_values(|e: EvidenceView| message_part(e.message))
}

/// How a process is named in a finding: `<name> (PID <pid>)`.
pub open spec fn process_text(name: Seq<char>, pid: Seq<char>) -> Seq<char> {
    name + " (PID "@ + pid + ")"@
}

/// Names a process from the two groups of the process marker.
pub fn process_label(name: &String, pid: &String) -> (r: String)
    ensures
        r@ == process_text(name@, pid@),
{
    let mut r = name.clone();
    push_str(&mut r, " (PID ");
    push_str(&mut r, pid.as_str());
    push_str(&mut r, ")");
    r
}

/// The facts that a single evidence message can tell.
pub enum Clue {
    /// `FATAL EXCEPTION: <thread>`
    Thread,
    /// `Process: <package>, ...`
    Package,
    /// `Process: <name>, PID: <pid>`
    Process,
    /// A line that starts with `java.`, `kotlin.`, `android.` or `Caused by:`
    Exception,
    /// `Caused by: <cause>`
    Cause,
}

/// What the message `m` tells of `clue`, if anything.
pub open spec fn clue_in(clue: Clue, m: Seq<char>) -> Option<Seq<char>> {
    match clue {
        Clue::Thread => match strip_prefix(m, "FATAL EXCEPTION: "@) {
            Some(t) => Some(trim(t)),
            None => None,
        },
        Clue::Package => match strip_prefix(m, "Process: "@) {
            Some(r) => Some(trim(before_char(r, ','))),
            None => None,
        },
        Clue::Process => match process_marker_match(m) {
            Some(c) => Some(process_text(c.0, c.1)),
            None => None,
        },
        Clue::Exception => {
            let t = trim(m);
            if starts_with(t, "java."@) || starts_with(t, "kotlin."@) || starts_with(t, "android."@)
                || starts_with(t, "Caused by:"@) {
                Some(t)
            } else {
                None
            }
        },
        Clue::Cause => match strip_prefix(trim(m), "Caused by:"@) {
            Some(r) => Some(trim(r)),
            None => None,
        },
    }
}

/// What the first of the messages from index `i` on that tells of `clue`
/// tells.
pub open spec fn first_hit(ms: Seq<Seq<char>>, clue: Clue, i: int) -> Option<Seq<char>>
    decreases ms.len() - i,
{
    if 0 <= i < ms.len() {
        match clue_in(clue, ms[i]) {
            Some(x) => Some(x),
            None => first_hit(ms, clue, i + 1),
        }
    } else {
        None
    }
}

/// What the last of the first `k` messages that tells of `clue` tells.
pub open spec fn last_hit(ms: Seq<Seq<char>>, clue: Clue, k: int) -> Option<Seq<char>>
    decreases k,
{
    if 0 < k <= ms.len() {
        match clue_in(clue, ms[k - 1]) {
            Some(x) => Some(x),
            None => last_hit(ms, clue, k - 1),
        }
    } else {
        None
    }
}

/// The root cause: the innermost `Caused by:` of the evidence, or else its
/// exception.
pub open spec fn root_cause_of(ms: Seq<Seq<char>>) -> Option<Seq<char>> {
    match last_hit(ms, Clue::Cause, ms.len() as int) {
        Some(c) => Some(c),
        None => first_hit(ms, Clue::Exception, 0),
    }
}

pub open spec fn opt_chars(o: Option<Vec<char>>) -> Option<Seq<char>> {
    match o {
        Some(v) => Some(v@),
        None => None,
    }
}

pub open spec fn chars_view(v: Seq<Vec<char>>) -> Seq<Seq<char>> {
    v.map_values(|x: Vec<char>| x@)
}

fn evidence_message(m: &Vec<char>) -> (r: Vec<char>)
    ensures
        r@ == message_part(m@),
{
    match after_first_chars(m, &chars_of(": ")) {
        Some(rest) => rest,
        None => crate::text::slice_chars(m, 0, m.len()),
    }
}

fn message_parts_of(ev: &Vec<EvidenceLine>) -> (r: Vec<Vec<char>>)
    ensures
        chars_view(r@) == message_parts(evidence_view(ev@)),
{
    let mut r: Vec<Vec<char>> = Vec::new();
    let mut i: usize = 0;
    while i < ev.len()
        invariant
            i <= ev@.len(),
            chars_view(r@) == message_parts(evidence_view(ev@)).take(i as int),
        decreases ev@.len() - i,
    {
        let m = evidence_message(&chars_of(ev[i].message.as_str()));
        let ghost before = chars_view(r@);
        r.push(m);
        assert(chars_view(r@) =~= before.push(m@));
        i += 1;
        assert(chars_view(r@) =~= message_parts(evidence_view(ev@)).take(i as int));
    }
    assert(message_parts(evidence_view(ev@)).take(i as int) =~= message_parts(
        evidence_view(ev@),
    ));
    r
}

fn clue_in_chars(clue: &Clue, m: &Vec<char>, processes: &ProcessPattern) -> (r: Option<Vec<char>>)
    requires
        processes.source() == PROCESS_MARKER_PATTERN@,
    ensures
        opt_chars(r) == clue_in(*clue, m@),
{
    match clue {
        Clue::Thread => match strip_prefix_chars(m, &chars_of("FATAL EXCEPTION: ")) {
            Some(t) => Some(trim_chars(&t)),
            None => None,
        },
        Clue::Package => match strip_prefix_chars(m, &chars_of("Process: ")) {
            Some(rest) => Some(trim_chars(&before_char_chars(&rest, ','))),
            None => None,
        },
        Clue::Process => {
            let text = string_of(m);
            match processes.captures(text.as_str()) {
                Some((name, pid)) => {
                    let r = process_label(&name, &pid);
                    Some(chars_of(r.as_str()))
                },
                None => None,
            }
        },
        Clue::Exception => {
            let t = trim_chars(m);
            if begins(&t, "java.") || begins(&t, "kotlin.") || begins(&t, "android.") || begins(
                &t,
                "Caused by:",
            ) {
                Some(t)
            } else {
                None
            }
        },
        Clue::Cause => {
            let t = trim_chars(m);
            match strip_prefix_chars(&t, &chars_of("Caused by:")) {
                Some(rest) => Some(trim_chars(&rest)),
                None => None,
            }
        },
    }
}

fn first_hit_chars(ms: &Vec<Vec<char>>, clue: Clue, processes: &ProcessPattern) -> (r: Option<
    Vec<char>,
>)
    requires
        processes.source() == PROCESS_MARKER_PATTERN@,
    ensures
        opt_chars(r) == first_hit(chars_view(ms@), clue, 0),
{
    let ghost cv = chars_view(ms@);
    let mut i: usize = 0;
    while i < ms.len()
        invariant
            i <= ms@.len(),
            cv == chars_view(ms@),
            processes.source() == PROCESS_MARKER_PATTERN@,
            first_hit(cv, clue, 0) == first_hit(cv, clue, i as int),
        decreases ms@.len() - i,
    {
        let hit = clue_in_chars(&clue, &ms[i], processes);
        if hit.is_some() {
            return hit;
        }
        i += 1;
    }
    None
}

fn last_hit_chars(ms: &Vec<Vec<char>>, clue: Clue, processes: &ProcessPattern) -> (r: Option<
    Vec<char>,
>)
    requires
        processes.source() == PROCESS_MARKER_PATTERN@,
    ensures
        opt_chars(r) == last_hit(chars_view(ms@), clue, ms@.len() as int),
{
    let ghost cv = chars_view(ms@);
    let mut k: usize = ms.len();
    while k > 0
        invariant
            k <= ms@.len(),
            cv == chars_view(ms@),
            processes.source() == PROCESS_MARKER_PATTERN@,
            last_hit(cv, clue, ms@.len() as int) == last_hit(cv, clue, k as int),
        decreases k,
    {
        let hit = clue_in_chars(&clue, &ms[k - 1], processes);
        if hit.is_some() {
            return hit;
        }
        k -= 1;
    }
    None
}

/// The thread named by the first `FATAL EXCEPTION: <thread>` message.
fn extract_thread(ms: &Vec<Vec<char>>, processes: &ProcessPattern) -> (r: Option<Vec<char>>)
    requires
        processes.source() == PROCESS_MARKER_PATTERN@,
    ensures
        opt_chars(r) == first_hit(chars_view(ms@), Clue::Thread, 0),
{
    first_hit_chars(ms, Clue::Thread, processes)
}

/// The package named by the first `Process: <package>, ...` message.
fn extract_package(ms: &Vec<Vec<char>>, processes: &ProcessPattern) -> (r: Option<Vec<char>>)
    requires
        processes.source() == PROCESS_MARKER_PATTERN@,
    ensures
        opt_chars(r) == first_hit(chars_view(ms@), Clue::Package, 0),
{
    first_hit_chars(ms, Clue::Package, processes)
}

/// `<name> (PID <pid>)` from the first message with the process marker.
fn extract_process(ms: &Vec<Vec<char>>, processes: &ProcessPattern) -> (r: Option<Vec<char>>)
    requires
        processes.source() == PROCESS_MARKER_PATTERN@,
    ensures
        opt_chars(r) == first_hit(chars_view(ms@), Clue::Process, 0),
{
    first_hit_chars(ms, Clue::Process, processes)
}

/// The first message that names an exception or a cause.
fn extract_exception(ms: &Vec<Vec<char>>, processes: &ProcessPattern) -> (r: Option<Vec<char>>)
    requires
        processes.source() == PROCESS_MARKER_PATTERN@,
    ensures
        opt_chars(r) == first_hit(chars_view(ms@), Clue::Exception, 0),
{
    first_hit_chars(ms, Clue::Exception, processes)
}

/// The innermost cause, or else the exception.
fn extract_root_cause(ms: &Vec<Vec<char>>, processes: &ProcessPattern) -> (r: Option<Vec<char>>)
    requires
        processes.source() == PROCESS_MARKER_PATTERN@,
    ensures
        opt_chars(r) == root_cause_of(chars_view(ms@)),
{
    match last_hit_chars(ms, Clue::Cause, processes) {
        Some(c) => Some(c),
        None => extract_exception(ms, processes),
    }
}

// ---------------------------------------------------------------------------
// Explanations and signatures
// ---------------------------------------------------------------------------

/// The name of a kind, as `{:?}` writes it.
pub open spec fn kind_name(kind: FindingKind) -> Seq<char> {
    match kind {
        FindingKind::FatalException => "FatalException"@,
        FindingKind::Anr => "Anr"@,
        FindingKind::NativeCrash => "NativeCrash"@,
        FindingKind::Abort => "Abort"@,
        FindingKind::OutOfMemory => "OutOfMemory"@,
        FindingKind::JniError => "JniError"@,
    }
}

pub fn kind_name_str(kind: FindingKind) -> (r: &'static str)
    ensures
        r@ == kind_name(kind),
{
    match kind {
        FindingKind::FatalException => "FatalException",
        FindingKind::Anr => "Anr",
        FindingKind::NativeCrash => "NativeCrash",
        FindingKind::Abort => "Abort",
        FindingKind::OutOfMemory => "OutOfMemory",
        FindingKind::JniError => "JniError",
    }
}

/// The start of a finding's title; the anchor's message follows it.
pub open spec fn title_prefix(kind: FindingKind) -> Seq<char> {
    match kind {
        FindingKind::FatalException => "Fatal exception detected: "@,
        FindingKind::Anr => "ANR detected: "@,
        FindingKind::NativeCrash => "Native crash signal detected: "@,
        FindingKind::Abort => "Abort message detected: "@,
        FindingKind::OutOfMemory => "OutOfMemoryError detected: "@,
        FindingKind::JniError => "JNI application error detected: "@,
    }
}

fn title_prefix_str(kind: FindingKind) -> (r: &'static str)
    ensures
        r@ == title_prefix(kind),
{
    match kind {
        FindingKind::FatalException => "Fatal exception detected: ",
        FindingKind::Anr => "ANR detected: ",
        FindingKind::NativeCrash => "Native crash signal detected: ",
        FindingKind::Abort => "Abort message detected: ",
        FindingKind::OutOfMemory => "OutOfMemoryError detected: ",
        FindingKind::JniError => "JNI application error detected: ",
    }
}

/// The start of a finding's rationale; the anchor's message, quoted in
/// backticks, and a full stop follow it.
pub open spec fn rationale_prefix(kind: FindingKind) -> Seq<char> {
    match kind {
        FindingKind::FatalException => "The log contains an explicit Android fatal exception marker: `"@,
        FindingKind::Anr => "The log indicates the app stopped responding, which commonly precedes or explains user-visible failure: `"@,
        FindingKind::NativeCrash => "The log contains a native crash signal or fatal signal marker: `"@,
        FindingKind::Abort => "The log contains an abort message that usually accompanies a fatal native termination: `"@,
        FindingKind::OutOfMemory => "The log contains an OutOfMemoryError, which is a strong crash candidate: `"@,
        FindingKind::JniError => "The log contains a JNI runtime error marker that often terminates the process: `"@,
    }
}

fn rationale_prefix_str(kind: FindingKind) -> (r: &'static str)
    ensures
        r@ == rationale_prefix(kind),
{
    match kind {
        FindingKind::FatalException => "The log contains an explicit Android fatal exception marker: `",
        FindingKind::Anr => "The log indicates the app stopped responding, which commonly precedes or explains user-visible failure: `",
        FindingKind::NativeCrash => "The log contains a native crash signal or fatal signal marker: `",
        FindingKind::Abort => "The log contains an abort message that usually accompanies a fatal native termination: `",
        FindingKind::OutOfMemory => "The log contains an OutOfMemoryError, which is a strong crash candidate: `",
        FindingKind::JniError => "The log contains a JNI runtime error marker that often terminates the process: `",
    }
}

/// The title of a finding whose anchor has the message `message`.
pub open spec fn title_text(kind: FindingKind, message: Seq<char>) -> Seq<char> {
    title_prefix(kind) + message
}

/// The rationale of a finding whose anchor has the message `message`.
pub open spec fn rationale_text(kind: FindingKind, message: Seq<char>) -> Seq<char> {
    rationale_prefix(kind) + message + "`."@
}

fn title_for(kind: FindingKind, message: &String) -> (r: String)
    ensures
        r@ == title_text(kind, message@),
{
    let mut r = String::new();
    push_str(&mut r, title_prefix_str(kind));
    push_str(&mut r, message.as_str());
    r
}

fn rationale_for(kind: FindingKind, message: &String) -> (r: String)
    ensures
        r@ == rationale_text(kind, message@),
{
    let mut r = String::new();
    push_str(&mut r, rationale_prefix_str(kind));
    push_str(&mut r, message.as_str());
    push_str(&mut r, "`.");
    r
}

/// What two incidents must share to count as one: the kind, the package
/// (empty where unknown) and the root cause (the anchor's message where
/// there is none), joined by `|`.
pub open spec fn signature_of(
    kind: FindingKind,
    package: Option<Seq<char>>,
    root_cause: Option<Seq<char>>,
    anchor_message: Seq<char>,
) -> Seq<char> {
    let p = match package {
        Some(p) => p,
        None => seq![],
    };
    let cause = match root_cause {
        Some(c) => c,
        None => anchor_message,
    };
    kind_name(kind) + "|"@ + p + "|"@ + cause
}

fn signature_chars(
    kind: FindingKind,
    package: &Option<Vec<char>>,
    root_cause: &Option<Vec<char>>,
    anchor_message: &String,
) -> (r: String)
    ensures
        r@ == signature_of(kind, opt_chars(*package), opt_chars(*root_cause), anchor_message@),
{
    let mut r = String::new();
    push_str(&mut r, kind_name_str(kind));
    push_str(&mut r, "|");
    match package {
        Some(p) => crate::text::push_chars(&mut r, p),
        None => {},
    }
    push_str(&mut r, "|");
    match root_cause {
        Some(c) => crate::text::push_chars(&mut r, c),
        None => push_str(&mut r, anchor_message.as_str()),
    }
    assert(r@ =~= signature_of(
        kind,
        opt_chars(*package),
        opt_chars(*root_cause),
        anchor_message@,
    ));
    r
}

fn opt_string(o: &Option<Vec<char>>) -> (r: Option<String>)
    ensures
        opt_text(r) == opt_chars(*o),
{
    match o {
        Some(v) => Some(string_of(v)),
        None => None,
    }
}

// ---------------------------------------------------------------------------
// Findings
// ---------------------------------------------------------------------------

/// The finding of kind `kind` whose anchor is the line at index `anchor`.
pub open spec fn finding_at(lines: Seq<LogLineView>, anchor: int, kind: FindingKind) -> FindingView {
    let w = evidence_walk(lines, anchor);
    let ms = message_parts(w.evidence);
    let package = first_hit(ms, Clue::Package, 0);
    let root = root_cause_of(ms);
    FindingView {
        kind,
        severity: severity_of_kind(kind),
        title: title_text(kind, lines[anchor].message),
        rationale: rationale_text(kind, lines[anchor].message),
        line_start: lines[evidence_start(anchor)].line_number,
        line_end: lines[w.end].line_number,
        package,
        process: first_hit(ms, Clue::Process, 0),
        thread: first_hit(ms, Clue::Thread, 0),
        exception: first_hit(ms, Clue::Exception, 0),
        root_cause: root,
        signature: signature_of(kind, package, root, lines[anchor].message),
        occurrence_count: 1,
        evidence: w.evidence,
    }
}

fn build_finding(lines: &Vec<LogLine>, anchor: usize, kind: FindingKind, processes: &ProcessPattern) -> (r:
    Finding)
    requires
        anchor < lines@.len(),
        processes.source() == PROCESS_MARKER_PATTERN@,
    ensures
        r@ == finding_at(lines_view(lines@), anchor as int, kind),
{
    let (line_start, line_end, evidence) = collect_evidence(lines, anchor);
    let ghost lv = lines_view(lines@);
    proof {
        lemma_walk_bounds(lv, anchor as int, evidence_limit(lv.len() as int, anchor as int));
        let e = evidence_walk(lv, anchor as int).end;
        assert(lv[e] == lines@[e]@);
        assert(lv[evidence_start(anchor as int)] == lines@[evidence_start(anchor as int)]@);
        assert(lv[anchor as int] == lines@[anchor as int]@);
    }
    let ms = message_parts_of(&evidence);
    let package = extract_package(&ms, processes);
    let process = extract_process(&ms, processes);
    let thread = extract_thread(&ms, processes);
    let exception = extract_exception(&ms, processes);
    let root_cause = extract_root_cause(&ms, processes);
    let message = &lines[anchor].message;
    let signature = signature_chars(kind, &package, &root_cause, message);
    Finding {
        kind,
        severity: severity_for(kind),
        title: title_for(kind, message),
        rationale: rationale_for(kind, message),
        line_start,
        line_end,
        package: opt_string(&package),
        process: opt_string(&process),
        thread: opt_string(&thread),
        exception: opt_string(&exception),
        root_cause: opt_string(&root_cause),
        signature,
        occurrence_count: 1,
        evidence,
    }
}

/// The incidents found in the first `i` lines, each at an anchor line that
/// no earlier incident covers, with the line number that the last one ends
/// at (0 before any).
pub open spec fn scan(lines: Seq<LogLineView>, i: int) -> (Seq<FindingView>, int)
    decreases i,
{
    if i <= 0 || lines.len() < i {
        (seq![], 0)
    } else {
        let prev = scan(lines, i - 1);
        let line = lines[i - 1];
        if line.line_number <= prev.1 {
            prev
        } else {
            match anchor_kind(line.message) {
                Some(kind) => {
                    let f = finding_at(lines, i - 1, kind);
                    (prev.0.push(f), f.line_end as int)
                },
                None => prev,
            }
        }
    }
}

/// Every incident of the log, before repeated ones are counted together.
pub open spec fn incidents(lines: Seq<LogLineView>) -> Seq<FindingView> {
    scan(lines, lines.len() as int).0
}

/// The report on a parsed log: its incidents with repeated ones counted
/// together, their summary, and the parse warnings.
pub open spec fn analysis_of(p: ParsedLogView) -> ReportView {
    let fs = merge(incidents(p.lines));
    ReportView {
        summary: summarize(fs, p.warnings.len()),
        findings: fs,
        parse_warnings: p.warnings,
    }
}

/// Finds the crash-related incidents of a parsed log, gathers evidence and
/// an explanation for each, counts repeated incidents together and
/// summarizes them.
pub fn analyze(parsed: ParsedLog) -> (report: AnalysisReport)
    ensures
        report@ == analysis_of(parsed@),
{
    let ParsedLog { lines, warnings } = parsed;
    let ghost lv = lines_view(lines@);
    let processes = ProcessPattern::new();
    let n = lines.len();
    let mut merged: Vec<Finding> = Vec::new();
    let ghost mut raw: Seq<FindingView> = seq![];
    let mut last: usize = 0;
    let mut i: usize = 0;
    while i < n
        invariant
            lv == lines_view(lines@),
            n == lines@.len(),
            i <= n,
            scan(lv, i as int) == (raw, last as int),
            findings_view(merged@) == merge(raw),
            raw.len() <= i,
            forall|k: int| 0 <= k < merged@.len() ==> merged@[k].occurrence_count <= raw.len(),
            processes.source() == PROCESS_MARKER_PATTERN@,
        decreases n - i,
    {
        let line = &lines[i];
        assert(lv[i as int] == line@);
        if line.line_number > last {
            match detect_anchor(&chars_of(line.message.as_str())) {
                Some(kind) => {
                    let f = build_finding(&lines, i, kind, &processes);
                    last = f.line_end;
                    let ghost fv = f@;
                    proof {
                        lemma_merge_step_count_bound(findings_view(merged@), fv, raw.len());
                    }
                    merge_into(&mut merged, f);
                    assert forall|k: int| 0 <= k < merged@.len() implies merged@[k].occurrence_count
                        <= raw.len() + 1 by {
                        assert(findings_view(merged@)[k] == merged@[k]@);
                    }
                    proof {
                        let prev_raw = raw;
                        raw = raw.push(fv);
                        assert(raw.drop_last() =~= prev_raw);
                    }
                },
                None => {},
            }
        }
        i += 1;
    }
    let summary = summarize_findings(&merged, warnings.len());
    AnalysisReport { summary, findings: merged, parse_warnings: warnings }
}

} // verus!
