//! Parsing of logcat text into lines with structured fields.
use vstd::prelude::*;

use crate::model::{
    LogLevel, LogLine, LogLineView, ParseWarning, ParseWarningView, lines_view, warnings_view,
};
use crate::pattern::{LOGCAT_LINE_PATTERN, LogcatCaptures, LogcatPattern, logcat_line_match};
use crate::text::{
    chars_of, parse_u32, parse_u32_chars, slice_chars, string_of, trim, trim_chars, trim_end,
    trim_end_chars,
};

verus! {

/// The lines of a log and the warnings about the lines that are not in the
/// structured logcat format.
pub struct ParsedLog {
    pub lines: Vec<LogLine>,
    pub warnings: Vec<ParseWarning>,
}

pub struct ParsedLogView {
    pub lines: Seq<LogLineView>,
    pub warnings: Seq<ParseWarningView>,
}

impl View for ParsedLog {
    type V = ParsedLogView;

    open spec fn view(&self) -> ParsedLogView {
        ParsedLogView { lines: lines_view(self.lines@), warnings: warnings_view(self.warnings@) }
    }
}

// ---------------------------------------------------------------------------
// Splitting text into lines (`str::lines`)
// ---------------------------------------------------------------------------

/// The position of the first `'\n'` at or after `i`, or the end of `s`.
pub open spec fn newline_from(s: Seq<char>, i: int) -> int
    decreases s.len() - i,
{
    if 0 <= i < s.len() && s[i] != '\n' {
        newline_from(s, i + 1)
    } else {
        i
    }
}

pub proof fn lemma_newline_from_bounds(s: Seq<char>, i: int)
    requires
        0 <= i <= s.len(),
    ensures
        i <= newline_from(s, i) <= s.len(),
        newline_from(s, i) < s.len() ==> s[newline_from(s, i)] == '\n',
        forall|k: int| i <= k < newline_from(s, i) ==> s[k] != '\n',
    decreases s.len() - i,
{
    if i < s.len() && s[i] != '\n' {
        lemma_newline_from_bounds(s, i + 1);
    }
}

/// `l` without one final carriage return.
pub open spec fn strip_cr(l: Seq<char>) -> Seq<char> {
    if l.len() > 0 && l.last() == '\r' {
        l.drop_last()
    } else {
        l
    }
}

/// The lines of `s` that start at or after position `i`: pieces ended by
/// `'\n'` (with a `'\r'` before it removed) or by the end of `s`.
pub open spec fn lines_from(s: Seq<char>, i: int) -> Seq<Seq<char>>
    decreases s.len() - i,
{
    if i < 0 || i >= s.len() {
        seq![]
    } else {
        let j = newline_from(s, i);
        proof {
            lemma_newline_from_bounds(s, i);
        }
        if j < s.len() {
            seq![strip_cr(s.subrange(i, j))] + lines_from(s, j + 1)
        } else {
            seq![s.subrange(i, s.len() as int)]
        }
    }
}

/// The lines of `s`, as `str::lines` gives them.
pub open spec fn lines_of(s: Seq<char>) -> Seq<Seq<char>> {
    lines_from(s, 0)
}

// ---------------------------------------------------------------------------
// One line
// ---------------------------------------------------------------------------

/// The level that a one-letter logcat priority stands for.
pub open spec fn level_of(s: Seq<char>) -> Option<LogLevel> {
    if s.len() != 1 {
        None
    } else if s[0] == 'V' {
        Some(LogLevel::Verbose)
    } else if s[0] == 'D' {
        Some(LogLevel::Debug)
    } else if s[0] == 'I' {
        Some(LogLevel::Info)
    } else if s[0] == 'W' {
        Some(LogLevel::Warn)
    } else if s[0] == 'E' {
        Some(LogLevel::Error)
    } else if s[0] == 'F' || s[0] == 'A' {
        Some(LogLevel::Fatal)
    } else {
        None
    }
}

/// A line with nothing but whitespace.
pub open spec fn is_blank(raw: Seq<char>) -> bool {
    trim(raw).len() == 0
}

/// The captured groups of an optional match.
pub open spec fn captures_view(c: Option<LogcatCaptures>) -> Option<
    (Seq<char>, Seq<char>, Seq<char>, Seq<char>, Seq<char>, Seq<char>),
> {
    match c {
        Some(c) => Some(c@),
        None => None,
    }
}

/// Line `n` with text `raw`, given the groups that the logcat pattern
/// captured in it: a blank line, a structured line, or an unstructured line
/// whose message is the whole text.
pub open spec fn line_view(
    n: usize,
    raw: Seq<char>,
    caps: Option<(Seq<char>, Seq<char>, Seq<char>, Seq<char>, Seq<char>, Seq<char>)>,
) -> LogLineView {
    if is_blank(raw) {
        LogLineView {
            line_number: n,
            timestamp: None,
            pid: None,
            tid: None,
            level: None,
            tag: None,
            message: seq![],
            raw,
            structured: false,
        }
    } else {
        match caps {
            Some(c) => LogLineView {
                line_number: n,
                timestamp: Some(c.0),
                pid: parse_u32(c.1),
                tid: parse_u32(c.2),
                level: level_of(c.3),
                tag: Some(trim(c.4)),
                message: trim_end(c.5),
                raw,
                structured: true,
            },
            None => LogLineView {
                line_number: n,
                timestamp: None,
                pid: None,
                tid: None,
                level: None,
                tag: None,
                message: raw,
                raw,
                structured: false,
            },
        }
    }
}

/// The warning about line `n`: there is one exactly when the line is not
/// blank and the logcat pattern does not match it.
pub open spec fn line_warning(
    n: usize,
    raw: Seq<char>,
    caps: Option<(Seq<char>, Seq<char>, Seq<char>, Seq<char>, Seq<char>, Seq<char>)>,
) -> Option<ParseWarningView> {
    if !is_blank(raw) && caps is None {
        Some(ParseWarningView { line_number: n, raw, reason: "unstructured log line"@ })
    } else {
        None
    }
}

fn parse_level(value: &str) -> (r: Option<LogLevel>)
    ensures
        r == level_of(value@),
{
    let v = chars_of(value);
    if v.len() != 1 {
        return None;
    }
    match v[0] {
        'V' => Some(LogLevel::Verbose),
        'D' => Some(LogLevel::Debug),
        'I' => Some(LogLevel::Info),
        'W' => Some(LogLevel::Warn),
        'E' => Some(LogLevel::Error),
        'F' | 'A' => Some(LogLevel::Fatal),
        _ => None,
    }
}

fn is_blank_chars(raw: &Vec<char>) -> (r: bool)
    ensures
        r == is_blank(raw@),
{
    trim_chars(raw).len() == 0
}

/// Builds line `line_number` from its text and the groups that the logcat
/// pattern captured in it (`None` where it did not match), with the warning
/// that an unstructured line gets.
pub fn line_from_captures(line_number: usize, raw: String, captures: Option<LogcatCaptures>) -> (r:
    (LogLine, Option<ParseWarning>))
    ensures
        r.0@ == line_view(line_number, raw@, captures_view(captures)),
        match r.1 {
            Some(w) => line_warning(line_number, raw@, captures_view(captures)) == Some(w@),
            None => line_warning(line_number, raw@, captures_view(captures)) is None,
        },
{
    let raw_chars = chars_of(raw.as_str());
    if is_blank_chars(&raw_chars) {
        let line = LogLine {
            line_number,
            timestamp: None,
            pid: None,
            tid: None,
            level: None,
            tag: None,
            message: String::new(),
            raw,
            structured: false,
        };
        return (line, None);
    }
    match captures {
        Some(c) => {
            let tag = string_of(&trim_chars(&chars_of(c.tag.as_str())));
            let message = string_of(&trim_end_chars(&chars_of(c.message.as_str())));
            let pid = parse_u32_chars(&chars_of(c.pid.as_str()));
            let tid = parse_u32_chars(&chars_of(c.tid.as_str()));
            let level = parse_level(c.level.as_str());
            let line = LogLine {
                line_number,
                timestamp: Some(c.timestamp),
                pid,
                tid,
                level,
                tag: Some(tag),
                message,
                raw,
                structured: true,
            };
            (line, None)
        },
        None => {
            let warning = ParseWarning {
                line_number,
                raw: raw.clone(),
                reason: String::from_str("unstructured log line"),
            };
            let line = LogLine {
                line_number,
                timestamp: None,
                pid: None,
                tid: None,
                level: None,
                tag: None,
                message: raw.clone(),
                raw,
                structured: false,
            };
            (line, Some(warning))
        },
    }
}

// ---------------------------------------------------------------------------
// A whole log
// ---------------------------------------------------------------------------

/// The parsed form of the lines `ls`, numbered from 1.
pub open spec fn parsed_lines(ls: Seq<Seq<char>>) -> Seq<LogLineView> {
    Seq::new(ls.len(), |i: int| line_view((i + 1) as usize, ls[i], logcat_line_match(ls[i])))
}

/// The warnings about the lines `ls`, numbered from 1, in order.
pub open spec fn warnings_of(ls: Seq<Seq<char>>) -> Seq<ParseWarningView>
    decreases ls.len(),
{
    if ls.len() == 0 {
        seq![]
    } else {
        let prev = warnings_of(ls.drop_last());
        match line_warning(ls.len() as usize, ls.last(), logcat_line_match(ls.last())) {
            Some(w) => prev.push(w),
            None => prev,
        }
    }
}

/// The parse of the text `input`.
pub open spec fn parse_log(input: Seq<char>) -> ParsedLogView {
    ParsedLogView {
        lines: parsed_lines(lines_of(input)),
        warnings: warnings_of(lines_of(input)),
    }
}

/// Splits `input` into lines and parses each: blank lines, lines in the
/// structured logcat format, and other lines, each of which also gets a
/// warning.
pub fn parse_lines(input: &str) -> (parsed: ParsedLog)
    ensures
        parsed@ == parse_log(input@),
{
    let s = chars_of(input);
    let n = s.len();
    let pattern = LogcatPattern::new();
    let mut lines: Vec<LogLine> = Vec::new();
    let mut warnings: Vec<ParseWarning> = Vec::new();
    let ghost mut done: Seq<Seq<char>> = seq![];
    let mut start: usize = 0;
    assert(lines_of(input@) == done + lines_from(s@, 0));
    while start < n
        invariant
            n == s@.len(),
            s@ == input@,
            start <= n,
            lines_of(input@) == done + lines_from(s@, start as int),
            lines@.len() == done.len(),
            done.len() <= start,
            lines_view(lines@) == parsed_lines(done),
            warnings_view(warnings@) == warnings_of(done),
            pattern.source() == LOGCAT_LINE_PATTERN@,
        decreases n - start,
    {
        let mut j = start;
        while j < n && s[j] != '\n'
            invariant
                n == s@.len(),
                start <= j <= n,
                newline_from(s@, start as int) == newline_from(s@, j as int),
            decreases n - j,
        {
            j += 1;
        }
        proof {
            lemma_newline_from_bounds(s@, start as int);
        }
        let ghost piece: Seq<char>;
        let raw_chars = if j < n {
            let seg = slice_chars(&s, start, j);
            proof {
                piece = strip_cr(seg@);
            }
            if seg.len() > 0 && seg[seg.len() - 1] == '\r' {
                let r = slice_chars(&seg, 0, seg.len() - 1);
                assert(r@ =~= seg@.drop_last());
                r
            } else {
                seg
            }
        } else {
            let seg = slice_chars(&s, start, n);
            proof {
                piece = seg@;
            }
            seg
        };
        assert(raw_chars@ == piece);
        let raw = string_of(&raw_chars);
        let line_number = lines.len() + 1;
        let caps = if is_blank_chars(&raw_chars) {
            None
        } else {
            pattern.captures(raw.as_str())
        };
        let ghost caps_v = captures_view(caps);
        proof {
            if !is_blank(piece) {
                assert(caps_v == logcat_line_match(piece));
            }
        }
        let (line, warning) = line_from_captures(line_number, raw, caps);
        assert(line@ == line_view(line_number, piece, logcat_line_match(piece)));
        proof {
            assert(lines_from(s@, start as int) == seq![piece] + lines_from(
                s@,
                if j < n {
                    j + 1
                } else {
                    n as int
                },
            ));
        }
        let ghost prev_done = done;
        proof {
            done = done.push(piece);
            assert(done.drop_last() =~= prev_done);
        }
        let ghost old_view = lines_view(lines@);
        lines.push(line);
        assert(lines_view(lines@) =~= old_view.push(line@));
        assert(parsed_lines(done) =~= parsed_lines(prev_done).push(
            line_view(line_number, piece, logcat_line_match(piece)),
        ));
        match warning {
            Some(w) => {
                warnings.push(w);
            },
            None => {},
        }
        assert(lines_view(lines@) =~= parsed_lines(done));
        assert(warnings_view(warnings@) =~= warnings_of(done));
        start = if j < n {
            j + 1
        } else {
            n
        };
        assert(lines_of(input@) =~= done + lines_from(s@, start as int));
    }
    assert(done + lines_from(s@, start as int) =~= done);
    ParsedLog { lines, warnings }
}

} // verus!
