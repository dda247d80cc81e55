use android_log_analyzer::analyzer::process_label;
use android_log_analyzer::parser::line_from_captures;
use android_log_analyzer::pattern::LogcatCaptures;
use android_log_analyzer::text::{chars_of, parse_u32_chars, push_decimal, trim_chars};
use android_log_analyzer::{analyze_text, parse_lines, render_text, FindingKind, LogLevel, Severity};

#[test]
fn single_anchor_renders_exact_text() {
    let report =
        analyze_text("03-18 10:15:09.123  2456  2456 E AndroidRuntime: FATAL EXCEPTION: main");
    let text = render_text(&report);
    let expected = "Summary\n\
Findings: 1\n\
Top severity: critical\n\
\n\
Findings\n\
\n\
1. [critical] FatalException at lines 1-1\n\
\x20  Title: Fatal exception detected: FATAL EXCEPTION: main\n\
\x20  Why: The log contains an explicit Android fatal exception marker: `FATAL EXCEPTION: main`.\n\
\x20  Signature: FatalException||FATAL EXCEPTION: main\n\
\x20  Occurrences: 1\n\
\x20  Thread: main\n\
\x20  Evidence:\n\
\x20    L1 03-18 10:15:09.123  2456  2456 E AndroidRuntime: FATAL EXCEPTION: main\n";
    assert_eq!(text, expected);
}

#[test]
fn empty_report_text_and_warning_note() {
    let report = analyze_text("");
    assert_eq!(render_text(&report), "No high-confidence crash findings detected.\n");

    let report = analyze_text("just text\nmore text\n");
    assert_eq!(
        render_text(&report),
        "No high-confidence crash findings detected.\n\nParse warnings: 2 line(s) did not match a structured logcat format.\n"
    );
    assert_eq!(report.summary.top_severity, None);
    assert_eq!(report.summary.total_findings, 0);
}

#[test]
fn anr_oom_and_jni_are_high_severity() {
    let anr = analyze_text("03-18 12:00:00.000  1000  1010 E ActivityManager: ANR in com.example.demo (com.example.demo/.MainActivity)\n03-18 12:00:00.001  1000  1010 E ActivityManager: Reason: Input dispatching timed out");
    assert_eq!(anr.findings.len(), 1);
    assert_eq!(anr.findings[0].kind, FindingKind::Anr);
    assert_eq!(anr.findings[0].severity, Severity::High);
    assert_eq!(anr.findings[0].line_end, 2);
    assert_eq!(anr.summary.top_severity, Some(Severity::High));

    let oom = analyze_text("03-18 12:00:00.000  4321  4321 E art     : java.lang.OutOfMemoryError: Failed to allocate");
    assert_eq!(oom.findings[0].kind, FindingKind::OutOfMemory);
    assert_eq!(oom.findings[0].severity, Severity::High);
    assert_eq!(
        oom.findings[0].exception.as_deref(),
        Some("java.lang.OutOfMemoryError: Failed to allocate")
    );

    let jni = analyze_text("03-18 12:00:00.000  4321  4321 F art     : JNI DETECTED ERROR IN APPLICATION: use of deleted local reference");
    assert_eq!(jni.findings[0].kind, FindingKind::JniError);
    assert_eq!(jni.findings[0].severity, Severity::High);

    let abort = analyze_text("03-18 12:00:00.000  4321  4321 F DEBUG   : Abort message: 'assertion failed'");
    assert_eq!(abort.findings[0].kind, FindingKind::Abort);
    assert_eq!(abort.findings[0].severity, Severity::Critical);
}

#[test]
fn mixed_findings_summary_takes_highest_severity() {
    let input = "03-18 12:00:00.000  1000  1010 E ActivityManager: ANR in com.example.demo\n\
03-18 12:00:01.000  1000  1010 I ActivityManager: unrelated\n\
03-18 12:00:02.000  1000  1010 I ActivityManager: unrelated\n\
03-18 12:00:03.000  1000  1010 I ActivityManager: unrelated\n\
03-18 12:00:04.000  2456  2456 E AndroidRuntime: FATAL EXCEPTION: main";
    let report = analyze_text(input);
    assert_eq!(report.findings.len(), 2);
    assert_eq!(report.findings[0].kind, FindingKind::Anr);
    assert_eq!(report.findings[1].kind, FindingKind::FatalException);
    assert_eq!(report.summary.top_severity, Some(Severity::Critical));
    assert_eq!(report.summary.total_findings, 2);
}

#[test]
fn evidence_stops_after_two_unrelated_lines_and_at_twenty_four() {
    let mut input = String::from("03-18 10:00:00.000  100  100 E AndroidRuntime: FATAL EXCEPTION: main\n");
    for i in 0..30 {
        input.push_str(&format!(
            "03-18 10:00:00.000  100  100 E AndroidRuntime:     at a.b.C.m{}(C.kt:1)\n",
            i
        ));
    }
    let report = analyze_text(&input);
    assert_eq!(report.findings[0].evidence.len(), 25);
    assert_eq!(report.findings[0].line_end, 25);

    let input = "03-18 10:00:00.000  100  100 E AndroidRuntime: FATAL EXCEPTION: main\n\
03-18 10:00:00.000  200  200 I Other: noise\n\
03-18 10:00:00.000  100  100 E AndroidRuntime:     at a.b.C.m(C.kt:1)\n\
03-18 10:00:00.000  200  200 I Other: noise\n\
03-18 10:00:00.000  200  200 I Other: noise\n\
03-18 10:00:00.000  100  100 E AndroidRuntime:     at a.b.C.n(C.kt:2)";
    let report = analyze_text(input);
    assert_eq!(report.findings[0].evidence.len(), 2);
    assert_eq!(report.findings[0].line_end, 3);
}

#[test]
fn parser_handles_crlf_blank_lines_levels_and_overflow() {
    let parsed = parse_lines(
        "03-18 10:15:09.123  99999999999  2456 A Tag : message   \r\n\n  \nplain\n",
    );
    assert_eq!(parsed.lines.len(), 4);
    let first = &parsed.lines[0];
    assert!(first.structured);
    assert_eq!(first.pid, None);
    assert_eq!(first.tid, Some(2456));
    assert_eq!(first.level, Some(LogLevel::Fatal));
    assert_eq!(first.tag.as_deref(), Some("Tag"));
    assert_eq!(first.message, "message");
    assert_eq!(first.raw, "03-18 10:15:09.123  99999999999  2456 A Tag : message   ");
    assert!(!parsed.lines[1].structured);
    assert_eq!(parsed.lines[1].message, "");
    assert_eq!(parsed.lines[2].raw, "  ");
    assert_eq!(parsed.lines[3].line_number, 4);
    assert_eq!(parsed.lines[3].message, "plain");
    assert_eq!(parsed.warnings.len(), 1);
    assert_eq!(parsed.warnings[0].line_number, 4);
}

#[test]
fn line_from_captures_builds_structured_and_unstructured_lines() {
    let captures = LogcatCaptures {
        timestamp: "01-02 03:04:05.678".to_string(),
        pid: "+42".to_string(),
        tid: "4294967296".to_string(),
        level: "W".to_string(),
        tag: "  MyTag ".to_string(),
        message: "hello  ".to_string(),
    };
    let (line, warning) = line_from_captures(7, "raw text".to_string(), Some(captures));
    assert!(warning.is_none());
    assert_eq!(line.line_number, 7);
    assert_eq!(line.pid, Some(42));
    assert_eq!(line.tid, None);
    assert_eq!(line.level, Some(LogLevel::Warn));
    assert_eq!(line.tag.as_deref(), Some("MyTag"));
    assert_eq!(line.message, "hello");
    assert_eq!(line.timestamp.as_deref(), Some("01-02 03:04:05.678"));

    let (line, warning) = line_from_captures(3, "free text".to_string(), None);
    assert!(!line.structured);
    assert_eq!(line.message, "free text");
    let warning = warning.expect("a warning");
    assert_eq!(warning.line_number, 3);
    assert_eq!(warning.reason, "unstructured log line");

    let (line, warning) = line_from_captures(5, " \t ".to_string(), None);
    assert!(warning.is_none());
    assert_eq!(line.message, "");
}

#[test]
fn text_helpers_follow_std() {
    let trimmed = trim_chars(&chars_of("\u{3000}\t x y \u{a0}\n"));
    assert_eq!(trimmed.iter().collect::<String>(), "x y");
    assert_eq!(parse_u32_chars(&chars_of("4294967295")), Some(u32::MAX));
    assert_eq!(parse_u32_chars(&chars_of("4294967296")), None);
    assert_eq!(parse_u32_chars(&chars_of("+7")), Some(7));
    assert_eq!(parse_u32_chars(&chars_of("+")), None);
    assert_eq!(parse_u32_chars(&chars_of("-1")), None);
    assert_eq!(parse_u32_chars(&chars_of("")), None);
    assert_eq!(parse_u32_chars(&chars_of("٣")), None);
    let mut s = String::from("n=");
    push_decimal(&mut s, 1090);
    assert_eq!(s, "n=1090");
}

#[test]
fn process_label_names_process_and_pid() {
    let label = process_label(&"com.example.demo".to_string(), &"2456".to_string());
    assert_eq!(label, "com.example.demo (PID 2456)");
}

#[test]
fn leading_blank_line_shifts_the_parse() {
    let input = "03-18 10:15:09.123  2456  2456 E AndroidRuntime: FATAL EXCEPTION: main\nplain text\n";
    let p = parse_lines(input);
    let q = parse_lines(&format!("\n{}", input));
    assert_eq!(q.lines.len(), p.lines.len() + 1);
    assert_eq!(q.lines[0].raw, "");
    assert!(!q.lines[0].structured);
    for (i, line) in p.lines.iter().enumerate() {
        let mut shifted = line.clone();
        shifted.line_number += 1;
        assert_eq!(q.lines[i + 1], shifted);
    }
    assert_eq!(q.warnings.len(), p.warnings.len());
    assert_eq!(q.warnings[0].line_number, p.warnings[0].line_number + 1);
    assert_eq!(q.warnings[0].raw, p.warnings[0].raw);
}
