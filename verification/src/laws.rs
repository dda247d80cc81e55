//! Properties of the library as a whole, stated over the specifications that
//! the functions' contracts use, and proved.
use vstd::prelude::*;

use crate::aggregate::{
    lemma_signature_index, merge, occurrences, root_causes, severity_rank, signature_index,
    top_severity, with_count,
};
use crate::analyzer::{
    anchor_kind, evidence_limit, evidence_start, evidence_walk, finding_at, incidents,
    lemma_walk_bounds, scan, severity_of_kind, analysis_of,
};
use crate::model::{FindingView, LogLineView, ParseWarningView};
use crate::parser::{
    ParsedLogView, is_blank, lemma_newline_from_bounds, line_view, line_warning, lines_from,
    lines_of, newline_from, parse_log, parsed_lines, strip_cr, warnings_of,
};
use crate::pattern::logcat_line_match;
use crate::text::trim;

verus! {

proof fn lemma_occurrence_has_witness(raw: Seq<FindingView>, sig: Seq<char>)
    requires
        occurrences(raw, sig) > 0,
    ensures
        exists|i: int| 0 <= i < raw.len() && raw[i].signature == sig,
    decreases raw.len(),
{
    if raw.last().signature != sig {
        lemma_occurrence_has_witness(raw.drop_last(), sig);
        let i = choose|i: int| 0 <= i < raw.drop_last().len() && raw.drop_last()[i].signature == sig;
        assert(raw[i] == raw.drop_last()[i]);
    } else {
        assert(raw[raw.len() - 1].signature == sig);
    }
}

/// Some finding of `fs` has the signature `sig`.
pub open spec fn signature_found(fs: Seq<FindingView>, sig: Seq<char>) -> bool {
    exists|k: int| 0 <= k < fs.len() && fs[k].signature == sig
}

/// The signatures of the merged findings: pairwise distinct, each that of
/// some incident, and every incident's among them.
pub proof fn lemma_merge_signatures(raw: Seq<FindingView>)
    ensures
        merge(raw).len() <= raw.len(),
        forall|i: int, j: int|
            0 <= i < j < merge(raw).len() ==> merge(raw)[i].signature != merge(raw)[j].signature,
        forall|i: int|
            0 <= i < raw.len() ==> #[trigger] signature_found(merge(raw), raw[i].signature),
    decreases raw.len(),
{
    if raw.len() == 0 {
        return ;
    }
    let prev = raw.drop_last();
    let f = raw.last();
    let last = raw.len() - 1;
    lemma_merge_signatures(prev);
    let m0 = merge(prev);
    let m = merge(raw);
    lemma_signature_index(m0, f.signature, 0);
    match signature_index(m0, f.signature, 0) {
        Some(k0) => {
            assert(m == m0.update(k0, with_count(m0[k0], m0[k0].occurrence_count + 1)));
            assert forall|i: int, j: int| 0 <= i < j < m.len() implies m[i].signature
                != m[j].signature by {
                assert(m[i].signature == m0[i].signature);
                assert(m[j].signature == m0[j].signature);
            }
            assert forall|i: int| 0 <= i < raw.len() implies #[trigger] signature_found(
                m,
                raw[i].signature,
            ) by {
                if i < last {
                    assert(raw[i] == prev[i]);
                    assert(signature_found(m0, prev[i].signature));
                    let k = choose|k: int| 0 <= k < m0.len() && m0[k].signature == prev[i].signature;
                    assert(m[k].signature == m0[k].signature);
                } else {
                    assert(m[k0].signature == raw[i].signature);
                }
            }
        },
        None => {
            assert(m == m0.push(f));
            assert forall|i: int, j: int| 0 <= i < j < m.len() implies m[i].signature
                != m[j].signature by {
                assert(m[i] == m0[i]);
                if j < m0.len() {
                    assert(m[j] == m0[j]);
                }
            }
            assert forall|i: int| 0 <= i < raw.len() implies #[trigger] signature_found(
                m,
                raw[i].signature,
            ) by {
                if i < last {
                    assert(raw[i] == prev[i]);
                    assert(signature_found(m0, prev[i].signature));
                    let k = choose|k: int| 0 <= k < m0.len() && m0[k].signature == prev[i].signature;
                    assert(m[k] == m0[k]);
                } else {
                    assert(m[m0.len() as int] == f);
                }
            }
        },
    }
}

proof fn lemma_occurrences_last(raw: Seq<FindingView>, s: Seq<char>)
    requires
        raw.len() > 0,
    ensures
        occurrences(raw, s) == occurrences(raw.drop_last(), s) + if raw.last().signature == s {
            1nat
        } else {
            0nat
        },
{
}

/// Each merged finding counts exactly the incidents with its signature.
pub proof fn lemma_merge_counts(raw: Seq<FindingView>)
    requires
        forall|i: int| 0 <= i < raw.len() ==> raw[i].occurrence_count == 1,
    ensures
        forall|k: int|
            0 <= k < merge(raw).len() ==> merge(raw)[k].occurrence_count == occurrences(
                raw,
                merge(raw)[k].signature,
            ),
    decreases raw.len(),
{
    if raw.len() == 0 {
        return ;
    }
    let prev = raw.drop_last();
    let f = raw.last();
    assert forall|i: int| 0 <= i < prev.len() implies prev[i].occurrence_count == 1 by {
        assert(prev[i] == raw[i]);
    }
    lemma_merge_counts(prev);
    lemma_merge_signatures(prev);
    let m0 = merge(prev);
    let m = merge(raw);
    lemma_signature_index(m0, f.signature, 0);
    match signature_index(m0, f.signature, 0) {
        Some(k0) => {
            assert(m == m0.update(k0, with_count(m0[k0], m0[k0].occurrence_count + 1)));
            assert forall|k: int| 0 <= k < m.len() implies m[k].occurrence_count == occurrences(
                raw,
                m[k].signature,
            ) by {
                lemma_occurrences_last(raw, m[k].signature);
                if k != k0 {
                    assert(m0[k].signature != m0[k0].signature);
                }
            }
        },
        None => {
            assert(m == m0.push(f));
            assert(occurrences(prev, f.signature) == 0) by {
                if occurrences(prev, f.signature) > 0 {
                    lemma_occurrence_has_witness(prev, f.signature);
                    let i = choose|i: int| 0 <= i < prev.len() && prev[i].signature == f.signature;
                    assert(signature_found(m0, prev[i].signature));
                    let k = choose|k: int| 0 <= k < m0.len() && m0[k].signature == prev[i].signature;
                    assert(false);
                }
            }
            assert forall|k: int| 0 <= k < m.len() implies m[k].occurrence_count == occurrences(
                raw,
                m[k].signature,
            ) by {
                lemma_occurrences_last(raw, m[k].signature);
                if k < m0.len() {
                    assert(m[k] == m0[k]);
                } else {
                    assert(m[k] == f);
                    assert(raw[raw.len() - 1] == f);
                }
            }
        },
    }
}

proof fn lemma_signature_index_push(prev: Seq<FindingView>, f: FindingView, sig: Seq<char>, i: int)
    requires
        0 <= i <= prev.len(),
    ensures
        signature_index(prev.push(f), sig, i) == match signature_index(prev, sig, i) {
            Some(j) => Some(j),
            None => if f.signature == sig {
                Some(prev.len() as int)
            } else {
                None
            },
        },
    decreases prev.len() - i,
{
    let raw = prev.push(f);
    if i < prev.len() {
        assert(raw[i] == prev[i]);
        if prev[i].signature != sig {
            lemma_signature_index_push(prev, f, sig, i + 1);
        }
    } else {
        assert(raw[i] == f);
        assert(signature_index(raw, sig, i + 1) is None);
    }
}

/// Each merged finding is, but for its count, the first incident with its
/// signature.
pub proof fn lemma_merge_keeps_first(raw: Seq<FindingView>)
    ensures
        forall|k: int|
            #![trigger merge(raw)[k]]
            0 <= k < merge(raw).len() ==> signature_index(raw, merge(raw)[k].signature, 0) is Some
                && merge(raw)[k] == with_count(
                raw[signature_index(raw, merge(raw)[k].signature, 0)->0],
                merge(raw)[k].occurrence_count,
            ),
    decreases raw.len(),
{
    if raw.len() == 0 {
        return ;
    }
    let prev = raw.drop_last();
    let f = raw.last();
    let last = raw.len() - 1;
    assert(raw =~= prev.push(f));
    lemma_merge_keeps_first(prev);
    lemma_merge_signatures(prev);
    let m0 = merge(prev);
    let m = merge(raw);
    lemma_signature_index(m0, f.signature, 0);
    assert forall|k: int| #![trigger m[k]] 0 <= k < m.len() implies signature_index(
        raw,
        m[k].signature,
        0,
    ) is Some && m[k] == with_count(
        raw[signature_index(raw, m[k].signature, 0)->0],
        m[k].occurrence_count,
    ) by {
        if k < m0.len() {
            let sig = m0[k].signature;
            let j = signature_index(prev, sig, 0)->0;
            lemma_signature_index_push(prev, f, sig, 0);
            lemma_signature_index(prev, sig, 0);
            assert(raw[j] == prev[j]);
            match signature_index(m0, f.signature, 0) {
                Some(k0) => {
                    assert(m == m0.update(k0, with_count(m0[k0], m0[k0].occurrence_count + 1)));
                },
                None => {
                    assert(m == m0.push(f));
                    assert(m[k] == m0[k]);
                },
            }
        } else {
            assert(signature_index(m0, f.signature, 0) is None);
            assert(m == m0.push(f));
            assert(m[k] == f);
            lemma_signature_index_push(prev, f, f.signature, 0);
            lemma_signature_index(prev, f.signature, 0);
            if signature_index(prev, f.signature, 0) is Some {
                let j = signature_index(prev, f.signature, 0)->0;
                assert(prev[j].signature == f.signature);
                assert(signature_found(m0, prev[j].signature));
                let kk = choose|kk: int| 0 <= kk < m0.len() && m0[kk].signature == prev[j].signature;
                assert(false);
            }
            assert(raw[last] == f);
        }
    }
}

/// The merged findings come in the order in which their signatures first
/// occur among the incidents.
pub proof fn lemma_merge_order(raw: Seq<FindingView>)
    ensures
        forall|k: int, l: int|
            0 <= k < l < merge(raw).len() ==> signature_index(
                raw,
                (#[trigger] merge(raw)[k]).signature,
                0,
            )->0 < signature_index(raw, (#[trigger] merge(raw)[l]).signature, 0)->0,
    decreases raw.len(),
{
    if raw.len() == 0 {
        return ;
    }
    let prev = raw.drop_last();
    let f = raw.last();
    assert(raw =~= prev.push(f));
    lemma_merge_order(prev);
    lemma_merge_keeps_first(prev);
    lemma_merge_signatures(prev);
    let m0 = merge(prev);
    let m = merge(raw);
    lemma_signature_index(m0, f.signature, 0);
    assert forall|k: int| 0 <= k < m0.len() implies #[trigger] m[k].signature == m0[k].signature
        && signature_index(raw, m0[k].signature, 0) == signature_index(prev, m0[k].signature, 0)
        && signature_index(prev, m0[k].signature, 0) is Some by {
        lemma_signature_index_push(prev, f, m0[k].signature, 0);
        match signature_index(m0, f.signature, 0) {
            Some(k0) => {
                assert(m == m0.update(k0, with_count(m0[k0], m0[k0].occurrence_count + 1)));
            },
            None => {
                assert(m == m0.push(f));
            },
        }
    }
    assert forall|k: int, l: int| 0 <= k < l < m.len() implies signature_index(
        raw,
        (#[trigger] m[k]).signature,
        0,
    )->0 < signature_index(raw, (#[trigger] m[l]).signature, 0)->0 by {
        if l < m0.len() {
            assert(m[k].signature == m0[k].signature);
            assert(m[l].signature == m0[l].signature);
        } else {
            assert(signature_index(m0, f.signature, 0) is None);
            assert(m == m0.push(f));
            assert(m[l] == f);
            assert(m[k].signature == m0[k].signature);
            lemma_signature_index(prev, m0[k].signature, 0);
            lemma_signature_index_push(prev, f, f.signature, 0);
            if signature_index(prev, f.signature, 0) is Some {
                let j = signature_index(prev, f.signature, 0)->0;
                lemma_signature_index(prev, f.signature, 0);
                assert(signature_found(m0, prev[j].signature));
                let kk = choose|kk: int| 0 <= kk < m0.len() && m0[kk].signature == prev[j].signature;
                assert(false);
            }
        }
    }
}

/// Repeated incidents are counted together, and distinct ones stay apart:
/// after merging single incidents, no two findings share a signature; each
/// finding counts exactly the incidents with its signature and is, but for
/// its count, the first of them; every incident's signature has a finding;
/// and the findings come in the order in which their signatures first occur.
pub proof fn law_repeated_incidents_counted_together(raw: Seq<FindingView>)
    requires
        forall|i: int| 0 <= i < raw.len() ==> raw[i].occurrence_count == 1,
    ensures
        merge(raw).len() <= raw.len(),
        forall|i: int, j: int|
            0 <= i < j < merge(raw).len() ==> merge(raw)[i].signature != merge(raw)[j].signature,
        forall|k: int|
            0 <= k < merge(raw).len() ==> merge(raw)[k].occurrence_count == occurrences(
                raw,
                merge(raw)[k].signature,
            ),
        forall|i: int|
            0 <= i < raw.len() ==> #[trigger] signature_found(merge(raw), raw[i].signature),
        forall|k: int|
            #![trigger merge(raw)[k]]
            0 <= k < merge(raw).len() ==> signature_index(raw, merge(raw)[k].signature, 0) is Some
                && merge(raw)[k] == with_count(
                raw[signature_index(raw, merge(raw)[k].signature, 0)->0],
                merge(raw)[k].occurrence_count,
            ),
        forall|k: int, l: int|
            0 <= k < l < merge(raw).len() ==> signature_index(
                raw,
                (#[trigger] merge(raw)[k]).signature,
                0,
            )->0 < signature_index(raw, (#[trigger] merge(raw)[l]).signature, 0)->0,
{
    lemma_merge_signatures(raw);
    lemma_merge_counts(raw);
    lemma_merge_keeps_first(raw);
    lemma_merge_order(raw);
}

/// The top severity of the findings: there is one exactly when there are
/// findings, it is the severity of one of them, and none is higher.
pub proof fn law_top_severity_is_highest(fs: Seq<FindingView>)
    ensures
        top_severity(fs) is None <==> fs.len() == 0,
        top_severity(fs) is Some ==> (exists|i: int|
            0 <= i < fs.len() && fs[i].severity == top_severity(fs)->0),
        top_severity(fs) is Some ==> forall|i: int|
            0 <= i < fs.len() ==> severity_rank(#[trigger] fs[i].severity) <= severity_rank(
                top_severity(fs)->0,
            ),
    decreases fs.len(),
{
    if fs.len() == 0 {
        return ;
    }
    let prev = fs.drop_last();
    law_top_severity_is_highest(prev);
    let t = top_severity(fs)->0;
    let last = fs.len() - 1;
    assert(fs[last] == fs.last());
    if top_severity(prev) is Some && t == top_severity(prev)->0 {
        let i = choose|i: int| 0 <= i < prev.len() && prev[i].severity == top_severity(prev)->0;
        assert(fs[i] == prev[i]);
    }
    assert forall|i: int| 0 <= i < fs.len() implies severity_rank(#[trigger] fs[i].severity)
        <= severity_rank(t) by {
        if i < last {
            assert(fs[i] == prev[i]);
        }
    }
}

/// The likely root causes: each once, each the root cause of some finding,
/// and the root cause of every finding that has one among them.
pub proof fn law_root_causes_listed_once(fs: Seq<FindingView>)
    ensures
        forall|i: int, j: int|
            0 <= i < j < root_causes(fs).len() ==> root_causes(fs)[i] != root_causes(fs)[j],
        forall|c: Seq<char>|
            #[trigger] root_causes(fs).contains(c) ==> exists|i: int|
                0 <= i < fs.len() && fs[i].root_cause == Some(c),
        forall|i: int|
            0 <= i < fs.len() && (#[trigger] fs[i].root_cause) is Some ==> root_causes(
                fs,
            ).contains(fs[i].root_cause->0),
    decreases fs.len(),
{
    if fs.len() == 0 {
        return ;
    }
    let prev = fs.drop_last();
    law_root_causes_listed_once(prev);
    let last = fs.len() - 1;
    assert(fs[last] == fs.last());
    let pc = root_causes(prev);
    let rc = root_causes(fs);
    assert forall|c: Seq<char>| #[trigger] rc.contains(c) implies exists|i: int|
        0 <= i < fs.len() && fs[i].root_cause == Some(c) by {
        if pc.contains(c) {
            let i = choose|i: int| 0 <= i < prev.len() && prev[i].root_cause == Some(c);
            assert(fs[i] == prev[i]);
        } else {
            let j = choose|j: int| 0 <= j < rc.len() && rc[j] == c;
            assert(rc == pc.push(fs.last().root_cause->0));
            if j < pc.len() {
                assert(pc.contains(c));
            }
        }
    }
    assert forall|i: int| 0 <= i < fs.len() && (#[trigger] fs[i].root_cause) is Some implies rc.contains(
        fs[i].root_cause->0,
    ) by {
        if i < last {
            assert(fs[i] == prev[i]);
            let r = prev[i].root_cause->0;
            assert(pc.contains(r));
            let j = choose|j: int| 0 <= j < pc.len() && pc[j] == r;
            if rc != pc {
                assert(rc == pc.push(fs.last().root_cause->0));
                assert(rc[j] == r);
            }
        } else {
            let r = fs.last().root_cause->0;
            if !pc.contains(r) {
                assert(rc == pc.push(r));
                assert(rc[pc.len() as int] == r);
            }
        }
    }
}

/// Line `i` of `lines` has the number `i + 1`, as the parser numbers lines.
pub open spec fn numbered(lines: Seq<LogLineView>) -> bool {
    forall|i: int| 0 <= i < lines.len() ==> #[trigger] lines[i].line_number == i + 1
}

/// What holds of the incidents found in the first `i` lines.
proof fn lemma_scan(lines: Seq<LogLineView>, i: int)
    requires
        0 <= i <= lines.len(),
    ensures
        scan(lines, i).0.len() <= i,
        forall|k: int|
            0 <= k < scan(lines, i).0.len() ==> (#[trigger] scan(lines, i).0[k]).occurrence_count
                == 1 && scan(lines, i).0[k].severity == severity_of_kind(scan(lines, i).0[k].kind)
                && 1 <= scan(lines, i).0[k].evidence.len() <= 27,
        scan(lines, i).0.len() == 0 ==> scan(lines, i).1 == 0,
        scan(lines, i).0.len() > 0 ==> scan(lines, i).1 == scan(lines, i).0.last().line_end,
        numbered(lines) ==> forall|k: int|
            0 <= k < scan(lines, i).0.len() ==> (#[trigger] scan(lines, i).0[k]).line_start
                <= scan(lines, i).0[k].line_end,
        numbered(lines) ==> forall|k: int, j: int|
            0 <= k < j < scan(lines, i).0.len() ==> (#[trigger] scan(lines, i).0[k]).line_end
                < (#[trigger] scan(lines, i).0[j]).line_end,
    decreases i,
{
    if i == 0 {
        return ;
    }
    lemma_scan(lines, i - 1);
    let prev = scan(lines, i - 1);
    let line = lines[i - 1];
    if line.line_number > prev.1 {
        match anchor_kind(line.message) {
            Some(kind) => {
                let a = i - 1;
                let f = finding_at(lines, a, kind);
                let limit = evidence_limit(lines.len() as int, a);
                lemma_walk_bounds(lines, a, limit);
                let w = evidence_walk(lines, a);
                let fs = scan(lines, i).0;
                assert(fs == prev.0.push(f));
                assert(fs[fs.len() - 1] == f);
                assert forall|k: int| 0 <= k < fs.len() implies (#[trigger] fs[k]).occurrence_count
                    == 1 && fs[k].severity == severity_of_kind(fs[k].kind) && 1 <= fs[k].evidence.len()
                    <= 27 by {
                    if k < prev.0.len() {
                        assert(fs[k] == prev.0[k]);
                    }
                }
                if numbered(lines) {
                    assert(lines[a].line_number == a + 1);
                    assert(lines[w.end].line_number == w.end + 1);
                    assert(lines[evidence_start(a)].line_number == evidence_start(a) + 1);
                    assert forall|k: int| 0 <= k < fs.len() implies (#[trigger] fs[k]).line_start
                        <= fs[k].line_end by {
                        if k < prev.0.len() {
                            assert(fs[k] == prev.0[k]);
                        }
                    }
                    assert forall|k: int, j: int| 0 <= k < j < fs.len() implies (
                    #[trigger] fs[k]).line_end < (#[trigger] fs[j]).line_end by {
                        assert(fs[k] == prev.0[k]);
                        if j < prev.0.len() {
                            assert(fs[j] == prev.0[j]);
                        } else {
                            if prev.0.len() > 0 {
                                assert(prev.0.last() == prev.0[prev.0.len() - 1]);
                                assert(prev.0[k].line_end <= prev.1) by {
                                    if k < prev.0.len() - 1 {
                                        assert(prev.0[k].line_end < prev.0[prev.0.len() - 1].line_end);
                                    }
                                }
                            }
                        }
                    }
                }
            },
            None => {},
        }
    }
}

/// A log none of whose lines holds a crash marker has no findings.
pub proof fn law_quiet_log_has_no_findings(p: ParsedLogView)
    requires
        forall|i: int| 0 <= i < p.lines.len() ==> anchor_kind(#[trigger] p.lines[i].message) is None,
    ensures
        analysis_of(p).findings.len() == 0,
        analysis_of(p).summary.top_severity is None,
        analysis_of(p).summary.root_cause_candidates.len() == 0,
{
    assert forall|i: int| 0 <= i <= p.lines.len() implies #[trigger] scan(p.lines, i).0.len() == 0 by {
        lemma_quiet_scan(p, i);
    }
    assert(incidents(p.lines).len() == 0);
    assert(incidents(p.lines) =~= Seq::<FindingView>::empty());
}

proof fn lemma_quiet_scan(p: ParsedLogView, i: int)
    requires
        forall|i: int| 0 <= i < p.lines.len() ==> anchor_kind(#[trigger] p.lines[i].message) is None,
        0 <= i <= p.lines.len(),
    ensures
        scan(p.lines, i).0.len() == 0,
        scan(p.lines, i).1 == 0,
    decreases i,
{
    if i > 0 {
        lemma_quiet_scan(p, i - 1);
        assert(anchor_kind(p.lines[i - 1].message) is None);
    }
}

/// The incidents of a log whose lines are numbered in order: each stands
/// for itself alone, has the severity of its kind, cites between one and 27
/// lines, starts no later than it ends, and ends after the one before it.
pub proof fn law_incidents_in_order(lines: Seq<LogLineView>)
    ensures
        forall|k: int|
            0 <= k < incidents(lines).len() ==> (#[trigger] incidents(lines)[k]).occurrence_count
                == 1 && incidents(lines)[k].severity == severity_of_kind(incidents(lines)[k].kind)
                && 1 <= incidents(lines)[k].evidence.len() <= 27,
        numbered(lines) ==> forall|k: int|
            0 <= k < incidents(lines).len() ==> (#[trigger] incidents(lines)[k]).line_start
                <= incidents(lines)[k].line_end,
        numbered(lines) ==> forall|k: int, j: int|
            0 <= k < j < incidents(lines).len() ==> (#[trigger] incidents(lines)[k]).line_end
                < (#[trigger] incidents(lines)[j]).line_end,
{
    lemma_scan(lines, lines.len() as int);
}

proof fn lemma_lines_from(s: Seq<char>, i: int)
    requires
        0 <= i <= s.len(),
    ensures
        lines_from(s, i).len() <= s.len() - i,
        forall|k: int, c: int|
            0 <= k < lines_from(s, i).len() && 0 <= c < lines_from(s, i)[k].len() ==> (
            #[trigger] lines_from(s, i)[k][c]) != '\n',
    decreases s.len() - i,
{
    if i < s.len() {
        let j = newline_from(s, i);
        lemma_newline_from_bounds(s, i);
        let ls = lines_from(s, i);
        if j < s.len() {
            lemma_lines_from(s, j + 1);
            let piece = strip_cr(s.subrange(i, j));
            assert(ls == seq![piece] + lines_from(s, j + 1));
            assert forall|k: int, c: int| 0 <= k < ls.len() && 0 <= c < ls[k].len() implies (
            #[trigger] ls[k][c]) != '\n' by {
                if k == 0 {
                    assert(ls[k] == piece);
                    assert(piece[c] == s[i + c]);
                } else {
                    assert(ls[k] == lines_from(s, j + 1)[k - 1]);
                }
            }
        } else {
            let piece = s.subrange(i, s.len() as int);
            assert(ls == seq![piece]);
            assert forall|k: int, c: int| 0 <= k < ls.len() && 0 <= c < ls[k].len() implies (
            #[trigger] ls[k][c]) != '\n' by {
                assert(ls[k] == piece);
                assert(piece[c] == s[i + c]);
            }
        }
    }
}

/// Every line of the text is kept, in order and numbered from 1: the parse
/// has one line for each line of the text (none holding a line break),
/// with that line's text and number.
pub proof fn law_parse_keeps_every_line(input: Seq<char>)
    requires
        input.len() < usize::MAX,
    ensures
        parse_log(input).lines.len() == lines_of(input).len() <= input.len(),
        forall|i: int, c: int|
            0 <= i < lines_of(input).len() && 0 <= c < lines_of(input)[i].len() ==> (
            #[trigger] lines_of(input)[i][c]) != '\n',
        forall|i: int|
            0 <= i < parse_log(input).lines.len() ==> (#[trigger] parse_log(input).lines[i]).raw
                == lines_of(input)[i],
        numbered(parse_log(input).lines),
{
    lemma_lines_from(input, 0);
    let lines = parse_log(input).lines;
    assert forall|i: int| 0 <= i < lines.len() implies #[trigger] lines[i].line_number == i + 1 by {
    }
}

proof fn lemma_warnings_of(ls: Seq<Seq<char>>)
    requires
        ls.len() < usize::MAX,
    ensures
        forall|k: int|
            0 <= k < warnings_of(ls).len() ==> 1 <= (#[trigger] warnings_of(ls)[k]).line_number
                <= ls.len() && warnings_of(ls)[k].raw == ls[warnings_of(ls)[k].line_number - 1]
                && !parsed_lines(ls)[warnings_of(ls)[k].line_number - 1].structured && !is_blank(
                ls[warnings_of(ls)[k].line_number - 1],
            ) && warnings_of(ls)[k].reason == "unstructured log line"@,
        forall|k: int, j: int|
            0 <= k < j < warnings_of(ls).len() ==> (#[trigger] warnings_of(ls)[k]).line_number
                < (#[trigger] warnings_of(ls)[j]).line_number,
        forall|i: int|
            0 <= i < ls.len() && !(#[trigger] parsed_lines(ls)[i]).structured && !is_blank(ls[i])
                ==> exists|k: int|
                0 <= k < warnings_of(ls).len() && warnings_of(ls)[k].line_number == i + 1,
    decreases ls.len(),
{
    if ls.len() == 0 {
        return ;
    }
    let prev = ls.drop_last();
    lemma_warnings_of(prev);
    let ws = warnings_of(ls);
    let pw = warnings_of(prev);
    let last = ls.len() - 1;
    assert(ls[last] == ls.last());
    assert forall|i: int| 0 <= i < prev.len() implies #[trigger] parsed_lines(ls)[i]
        == parsed_lines(prev)[i] && ls[i] == prev[i] by {}
    assert forall|k: int| 0 <= k < ws.len() implies 1 <= (#[trigger] ws[k]).line_number <= ls.len()
        && ws[k].raw == ls[ws[k].line_number - 1] && !parsed_lines(ls)[ws[k].line_number
        - 1].structured && !is_blank(ls[ws[k].line_number - 1]) && ws[k].reason
        == "unstructured log line"@ by {
        if k < pw.len() {
            assert(ws[k] == pw[k]);
            assert(parsed_lines(ls)[pw[k].line_number - 1] == parsed_lines(prev)[pw[k].line_number
                - 1]);
        }
    }
    assert forall|k: int, j: int| 0 <= k < j < ws.len() implies (#[trigger] ws[k]).line_number < (
    #[trigger] ws[j]).line_number by {
        assert(ws[k] == pw[k]);
        if j < pw.len() {
            assert(ws[j] == pw[j]);
        }
    }
    assert forall|i: int| 0 <= i < ls.len() && !(#[trigger] parsed_lines(ls)[i]).structured
        && !is_blank(ls[i]) implies exists|k: int|
        0 <= k < ws.len() && ws[k].line_number == i + 1 by {
        if i < last {
            let k = choose|k: int| 0 <= k < pw.len() && pw[k].line_number == i + 1;
            assert(ws[k] == pw[k]);
        } else {
            assert(ws[pw.len() as int].line_number == i + 1);
        }
    }
}

/// The parse warnings are exactly the lines that are neither blank nor in
/// the structured logcat format, in order: each names such a line (not
/// blank, not structured) with its text, and every such line has one.
pub proof fn law_warnings_are_unstructured_lines(input: Seq<char>)
    requires
        input.len() < usize::MAX,
    ensures
        forall|k: int|
            0 <= k < parse_log(input).warnings.len() ==> 1 <= (
            #[trigger] parse_log(input).warnings[k]).line_number <= parse_log(input).lines.len()
                && parse_log(input).warnings[k].raw == parse_log(input).lines[parse_log(
                input,
            ).warnings[k].line_number - 1].raw && !parse_log(input).lines[parse_log(
                input,
            ).warnings[k].line_number - 1].structured && !is_blank(
                parse_log(input).warnings[k].raw,
            ) && parse_log(input).warnings[k].reason == "unstructured log line"@,
        forall|k: int, j: int|
            0 <= k < j < parse_log(input).warnings.len() ==> (
            #[trigger] parse_log(input).warnings[k]).line_number < (
            #[trigger] parse_log(input).warnings[j]).line_number,
        forall|i: int|
            0 <= i < parse_log(input).lines.len() && !(
            #[trigger] parse_log(input).lines[i]).structured && !is_blank(
                parse_log(input).lines[i].raw,
            ) ==> exists|k: int|
                0 <= k < parse_log(input).warnings.len() && parse_log(input).warnings[k].line_number
                    == i + 1,
{
    lemma_lines_from(input, 0);
    lemma_warnings_of(lines_of(input));
}

/// The number of incidents that the findings `fs` stand for together.
pub open spec fn total_count(fs: Seq<FindingView>) -> nat
    decreases fs.len(),
{
    if fs.len() == 0 {
        0
    } else {
        total_count(fs.drop_last()) + fs.last().occurrence_count
    }
}

proof fn lemma_total_count_update(fs: Seq<FindingView>, k: int, f: FindingView)
    requires
        0 <= k < fs.len(),
    ensures
        total_count(fs.update(k, f)) + fs[k].occurrence_count == total_count(fs)
            + f.occurrence_count,
    decreases fs.len(),
{
    let u = fs.update(k, f);
    if k == fs.len() - 1 {
        assert(u.drop_last() =~= fs.drop_last());
    } else {
        assert(u.drop_last() =~= fs.drop_last().update(k, f));
        lemma_total_count_update(fs.drop_last(), k, f);
    }
}

/// Every incident is counted exactly once: the counts of the merged
/// findings add up to the number of single incidents merged.
pub proof fn law_every_incident_counted_once(raw: Seq<FindingView>)
    requires
        forall|i: int| 0 <= i < raw.len() ==> raw[i].occurrence_count == 1,
    ensures
        total_count(merge(raw)) == raw.len(),
    decreases raw.len(),
{
    if raw.len() == 0 {
        return ;
    }
    let prev = raw.drop_last();
    let f = raw.last();
    assert forall|i: int| 0 <= i < prev.len() implies prev[i].occurrence_count == 1 by {
        assert(prev[i] == raw[i]);
    }
    law_every_incident_counted_once(prev);
    assert(raw[raw.len() - 1] == f);
    let m0 = merge(prev);
    match signature_index(m0, f.signature, 0) {
        Some(k0) => {
            lemma_signature_index(m0, f.signature, 0);
            lemma_total_count_update(m0, k0, with_count(m0[k0], m0[k0].occurrence_count + 1));
        },
        None => {
            assert(merge(raw).drop_last() =~= m0);
        },
    }
}

/// The report on a log counts repeated incidents together: its findings
/// have pairwise distinct signatures, each counts exactly the incidents of
/// the log with its signature and is, but for its count, the first of them
/// (so it has the severity of its kind), every incident of the log is
/// counted by one finding, and the counts add up to the number of incidents.
pub proof fn law_report_counts_repeated_incidents(p: ParsedLogView)
    ensures
        forall|i: int, j: int|
            0 <= i < j < analysis_of(p).findings.len() ==> analysis_of(p).findings[i].signature
                != analysis_of(p).findings[j].signature,
        forall|k: int|
            0 <= k < analysis_of(p).findings.len() ==> (
            #[trigger] analysis_of(p).findings[k]).occurrence_count == occurrences(
                incidents(p.lines),
                analysis_of(p).findings[k].signature,
            ) && analysis_of(p).findings[k].occurrence_count >= 1 && analysis_of(p).findings[k].severity
                == severity_of_kind(analysis_of(p).findings[k].kind),
        forall|i: int|
            0 <= i < incidents(p.lines).len() ==> #[trigger] signature_found(
                analysis_of(p).findings,
                incidents(p.lines)[i].signature,
            ),
        total_count(analysis_of(p).findings) == incidents(p.lines).len(),
        analysis_of(p).summary.total_findings == analysis_of(p).findings.len(),
        analysis_of(p).summary.parse_warning_count == p.warnings.len(),
{
    let raw = incidents(p.lines);
    law_incidents_in_order(p.lines);
    law_repeated_incidents_counted_together(raw);
    law_every_incident_counted_once(raw);
    let fs = analysis_of(p).findings;
    assert forall|k: int| 0 <= k < fs.len() implies (#[trigger] fs[k]).occurrence_count
        == occurrences(raw, fs[k].signature) && fs[k].occurrence_count >= 1 && fs[k].severity
        == severity_of_kind(fs[k].kind) by {
        let j = signature_index(raw, fs[k].signature, 0)->0;
        lemma_signature_index(raw, fs[k].signature, 0);
        assert(raw[j].occurrence_count == 1);
        lemma_occurrences_positive(raw, j);
    }
}

proof fn lemma_occurrences_positive(raw: Seq<FindingView>, j: int)
    requires
        0 <= j < raw.len(),
    ensures
        occurrences(raw, raw[j].signature) >= 1,
    decreases raw.len(),
{
    if j < raw.len() - 1 {
        assert(raw.drop_last()[j] == raw[j]);
        lemma_occurrences_positive(raw.drop_last(), j);
    }
}

/// The summary of a report describes its findings: it counts them and the
/// parse warnings; its top severity is there exactly when there are findings,
/// is the severity of one of them and none is higher; and its likely root
/// causes are the findings' root causes, each once.
pub proof fn law_report_summary_describes_findings(p: ParsedLogView)
    ensures
        analysis_of(p).summary.total_findings == analysis_of(p).findings.len(),
        analysis_of(p).summary.parse_warning_count == p.warnings.len(),
        analysis_of(p).summary.top_severity is None <==> analysis_of(p).findings.len() == 0,
        analysis_of(p).summary.top_severity is Some ==> (exists|i: int|
            0 <= i < analysis_of(p).findings.len() && analysis_of(p).findings[i].severity
                == analysis_of(p).summary.top_severity->0),
        analysis_of(p).summary.top_severity is Some ==> forall|i: int|
            0 <= i < analysis_of(p).findings.len() ==> severity_rank(
                #[trigger] analysis_of(p).findings[i].severity,
            ) <= severity_rank(analysis_of(p).summary.top_severity->0),
        forall|i: int, j: int|
            0 <= i < j < analysis_of(p).summary.root_cause_candidates.len() ==> analysis_of(
                p,
            ).summary.root_cause_candidates[i] != analysis_of(p).summary.root_cause_candidates[j],
        forall|c: Seq<char>|
            #[trigger] analysis_of(p).summary.root_cause_candidates.contains(c) ==> exists|i: int|
                0 <= i < analysis_of(p).findings.len() && analysis_of(p).findings[i].root_cause
                    == Some(c),
        forall|i: int|
            0 <= i < analysis_of(p).findings.len() && (
            #[trigger] analysis_of(p).findings[i].root_cause) is Some
                ==> analysis_of(p).summary.root_cause_candidates.contains(
                analysis_of(p).findings[i].root_cause->0,
            ),
{
    law_top_severity_is_highest(analysis_of(p).findings);
    law_root_causes_listed_once(analysis_of(p).findings);
}

/// `l` as the line one further down.
pub open spec fn shifted_line(l: LogLineView) -> LogLineView {
    LogLineView {
        line_number: (l.line_number + 1) as usize,
        timestamp: l.timestamp,
        pid: l.pid,
        tid: l.tid,
        level: l.level,
        tag: l.tag,
        message: l.message,
        raw: l.raw,
        structured: l.structured,
    }
}

/// `w` about the line one further down.
pub open spec fn shifted_warning(w: ParseWarningView) -> ParseWarningView {
    ParseWarningView { line_number: (w.line_number + 1) as usize, raw: w.raw, reason: w.reason }
}

proof fn lemma_newline_shift(s: Seq<char>, i: int)
    requires
        0 <= i <= s.len(),
    ensures
        newline_from(seq!['\n'] + s, i + 1) == newline_from(s, i) + 1,
    decreases s.len() - i,
{
    let t = seq!['\n'] + s;
    if i < s.len() {
        assert(t[i + 1] == s[i]);
        if s[i] != '\n' {
            lemma_newline_shift(s, i + 1);
        }
    }
}

proof fn lemma_lines_shift(s: Seq<char>, i: int)
    requires
        0 <= i <= s.len(),
    ensures
        lines_from(seq!['\n'] + s, i + 1) == lines_from(s, i),
    decreases s.len() - i,
{
    let t = seq!['\n'] + s;
    if i < s.len() {
        lemma_newline_shift(s, i);
        lemma_newline_from_bounds(s, i);
        let j = newline_from(s, i);
        assert(t.subrange(i + 1, j + 1) =~= s.subrange(i, j));
        if j < s.len() {
            lemma_lines_shift(s, j + 1);
        } else {
            assert(t.subrange(i + 1, t.len() as int) =~= s.subrange(i, s.len() as int));
        }
    }
}

proof fn lemma_warnings_shift(ls: Seq<Seq<char>>)
    requires
        ls.len() + 1 < usize::MAX,
    ensures
        warnings_of(seq![seq![]] + ls) == warnings_of(ls).map_values(
            |w: ParseWarningView| shifted_warning(w),
        ),
    decreases ls.len(),
{
    let t = seq![Seq::<char>::empty()] + ls;
    if ls.len() == 0 {
        assert(t.drop_last() =~= Seq::<Seq<char>>::empty());
        assert(t.last() == Seq::<char>::empty());
        assert(trim(Seq::<char>::empty()) =~= Seq::<char>::empty());
        assert(is_blank(Seq::<char>::empty()));
        assert(warnings_of(t.drop_last()) =~= Seq::<ParseWarningView>::empty());
        assert(warnings_of(t) =~= Seq::<ParseWarningView>::empty());
        assert(warnings_of(t) =~= warnings_of(ls).map_values(
            |w: ParseWarningView| shifted_warning(w),
        ));
    } else {
        lemma_warnings_shift(ls.drop_last());
        assert(t.drop_last() =~= seq![Seq::<char>::empty()] + ls.drop_last());
        assert(t.last() == ls.last());
        let prev = warnings_of(ls.drop_last());
        let r = ls.last();
        let wt = line_warning(t.len() as usize, r, logcat_line_match(r));
        let ws = line_warning(ls.len() as usize, r, logcat_line_match(r));
        match ws {
            Some(w) => {
                assert(wt == Some(shifted_warning(w)));
                assert(prev.push(w).map_values(|w: ParseWarningView| shifted_warning(w))
                    =~= prev.map_values(|w: ParseWarningView| shifted_warning(w)).push(
                    shifted_warning(w),
                ));
            },
            None => {},
        }
    }
}

/// A blank line put in front of a text shifts its parse by one line: the
/// parse gains a blank first line, every other line and every warning is
/// that of the text one line further down, and no warning is added.
pub proof fn law_leading_blank_line_shifts_parse(s: Seq<char>)
    requires
        s.len() + 1 < usize::MAX,
    ensures
        parse_log(seq!['\n'] + s).lines.len() == parse_log(s).lines.len() + 1,
        parse_log(seq!['\n'] + s).lines[0] == (LogLineView {
            line_number: 1,
            timestamp: None,
            pid: None,
            tid: None,
            level: None,
            tag: None,
            message: seq![],
            raw: seq![],
            structured: false,
        }),
        forall|i: int|
            0 <= i < parse_log(s).lines.len() ==> parse_log(seq!['\n'] + s).lines[i + 1]
                == shifted_line(#[trigger] parse_log(s).lines[i]),
        parse_log(seq!['\n'] + s).warnings == parse_log(s).warnings.map_values(
            |w: ParseWarningView| shifted_warning(w),
        ),
{
    let t = seq!['\n'] + s;
    lemma_lines_shift(s, 0);
    lemma_lines_from(s, 0);
    lemma_newline_from_bounds(t, 0);
    assert(newline_from(t, 0) == 0);
    assert(strip_cr(t.subrange(0, 0)) =~= Seq::<char>::empty());
    assert(lines_of(t) =~= seq![Seq::<char>::empty()] + lines_of(s));
    let lt = lines_of(t);
    let ls = lines_of(s);
    assert(trim(Seq::<char>::empty()) =~= Seq::<char>::empty());
    assert(lt[0] == Seq::<char>::empty());
    assert forall|i: int| 0 <= i < ls.len() implies parsed_lines(lt)[i + 1] == shifted_line(
        #[trigger] parsed_lines(ls)[i],
    ) by {
        assert(lt[i + 1] == ls[i]);
    }
    lemma_warnings_shift(ls);
}

} // verus!
