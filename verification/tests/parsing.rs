use android_log_analyzer::{parse_lines, LogLevel};

#[test]
fn parses_structured_logcat_line() {
    let parsed =
        parse_lines("03-18 10:15:09.123  2456  2456 E AndroidRuntime: FATAL EXCEPTION: main");
    let line = &parsed.lines[0];

    assert_eq!(line.line_number, 1);
    assert_eq!(line.timestamp.as_deref(), Some("03-18 10:15:09.123"));
    assert_eq!(line.pid, Some(2456));
    assert_eq!(line.tid, Some(2456));
    assert_eq!(line.level, Some(LogLevel::Error));
    assert_eq!(line.tag.as_deref(), Some("AndroidRuntime"));
    assert_eq!(line.message, "FATAL EXCEPTION: main");
    assert!(parsed.warnings.is_empty());
}

#[test]
fn keeps_unstructured_lines_and_records_warning() {
    let parsed = parse_lines("java.lang.RuntimeException: boom");

    assert_eq!(parsed.lines[0].message, "java.lang.RuntimeException: boom");
    assert!(!parsed.lines[0].structured);
    assert_eq!(parsed.warnings.len(), 1);
    assert_eq!(parsed.warnings[0].line_number, 1);
}
