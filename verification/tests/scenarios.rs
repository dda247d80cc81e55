use android_log_analyzer::{analyze_text, render_text, FindingKind, Severity};

const JAVA_FATAL_EXCEPTION: &str = "\
03-18 10:15:09.123  2456  2456 E AndroidRuntime: FATAL EXCEPTION: main
03-18 10:15:09.124  2456  2456 E AndroidRuntime: Process: com.example.demo, PID: 2456
03-18 10:15:09.125  2456  2456 E AndroidRuntime: java.lang.IllegalStateException: boom
03-18 10:15:09.126  2456  2456 E AndroidRuntime:     at com.example.demo.MainActivity.onCreate(MainActivity.kt:42)
03-18 10:15:09.127  2456  2456 E AndroidRuntime:     at android.app.Activity.performCreate(Activity.java:8000)
";

const NATIVE_SIGSEGV: &str = "\
03-18 11:20:10.900  3333  3333 I libfoo  : starting render loop
03-18 11:20:11.001  3333  3333 F libc    : Fatal signal 11 (SIGSEGV), code 1 (SEGV_MAPERR), fault addr 0x0 in tid 3333 (RenderThread)
03-18 11:20:11.002   555   555 F DEBUG   : *** *** *** *** *** *** *** *** *** *** *** *** *** *** *** ***
03-18 11:20:11.003   555   555 F DEBUG   : Build fingerprint: 'google/sdk_gphone64/emu64:14/UE1A/123:user/release-keys'
03-18 11:20:11.004   555   555 F DEBUG   : Abort message: 'terminating due to signal 11'
03-18 11:20:11.005   555   555 F DEBUG   : backtrace:
03-18 11:20:11.006   555   555 F DEBUG   :       #00 pc 0000000000012345  /apex/libfoo.so
";

const NOISE_ONLY: &str = "\
03-18 09:00:00.000  1000  1000 I ActivityManager: Start proc 1234:com.example.demo/u0a321 for activity
03-18 09:00:00.100  1234  1234 D DemoTag: just a normal debug line
03-18 09:00:00.200  1234  1250 W DemoTag: slow frame detected

03-18 09:00:00.300  1234  1234 V DemoTag: verbose details
";

const MALFORMED_FRAGMENT: &str = "\
--------- beginning of crash
03-18 10:15:09.123  2456  2456 E AndroidRuntime: FATAL EXCEPTION: main
garbage line without structure
03-18 10:15:09.125  2456  2456 E AndroidRuntime: java.lang.NullPointerException: oops
";

const REPEATED_FATAL_EXCEPTION: &str = "\
03-18 10:15:09.123  2456  2456 E AndroidRuntime: FATAL EXCEPTION: main
03-18 10:15:09.124  2456  2456 E AndroidRuntime: Process: com.example.demo, PID: 2456
03-18 10:15:09.125  2456  2456 E AndroidRuntime: java.lang.IllegalStateException: boom
03-18 10:15:09.126  2456  2456 E AndroidRuntime:     at com.example.demo.MainActivity.onCreate(MainActivity.kt:42)
03-18 10:16:01.000  1000  1000 I ActivityManager: Start proc 2500:com.example.demo/u0a321 for activity
03-18 10:16:02.000  1000  1000 I ActivityManager: Displayed com.example.demo/.MainActivity
03-18 10:17:09.123  2500  2500 E AndroidRuntime: FATAL EXCEPTION: main
03-18 10:17:09.124  2500  2500 E AndroidRuntime: Process: com.example.demo, PID: 2500
03-18 10:17:09.125  2500  2500 E AndroidRuntime: java.lang.IllegalStateException: boom
03-18 10:17:09.126  2500  2500 E AndroidRuntime:     at com.example.demo.MainActivity.onCreate(MainActivity.kt:42)
";

const DISTINCT_FATAL_EXCEPTIONS: &str = "\
03-18 10:15:09.123  2456  2456 E AndroidRuntime: FATAL EXCEPTION: main
03-18 10:15:09.124  2456  2456 E AndroidRuntime: Process: com.example.demo, PID: 2456
03-18 10:15:09.125  2456  2456 E AndroidRuntime: java.lang.IllegalStateException: boom
03-18 10:16:01.000  1000  1000 I ActivityManager: Start proc 2500:com.example.demo/u0a321 for activity
03-18 10:16:02.000  1000  1000 I ActivityManager: Displayed com.example.demo/.MainActivity
03-18 10:17:09.123  2500  2500 E AndroidRuntime: FATAL EXCEPTION: main
03-18 10:17:09.124  2500  2500 E AndroidRuntime: Process: com.example.demo, PID: 2500
03-18 10:17:09.125  2500  2500 E AndroidRuntime: java.lang.RuntimeException: Unable to start activity
03-18 10:17:09.126  2500  2500 E AndroidRuntime: Caused by: java.lang.NullPointerException: name was null
03-18 10:17:09.127  2500  2500 E AndroidRuntime:     at com.example.demo.Loader.load(Loader.kt:7)
";

#[test]
fn detects_java_crash_from_fixture() {
    let report = analyze_text(JAVA_FATAL_EXCEPTION);

    assert_eq!(report.findings.len(), 1);
    assert_eq!(report.findings[0].kind, FindingKind::FatalException);
    assert_eq!(
        report.findings[0].package.as_deref(),
        Some("com.example.demo")
    );
}

#[test]
fn detects_native_crash_from_fixture() {
    let report = analyze_text(NATIVE_SIGSEGV);

    assert_eq!(report.findings.len(), 1);
    assert_eq!(report.findings[0].kind, FindingKind::NativeCrash);
}

#[test]
fn ignores_noise_only_fixture() {
    let report = analyze_text(NOISE_ONLY);

    assert!(report.findings.is_empty());
}

#[test]
fn preserves_parse_warnings_without_panicking() {
    let report = analyze_text(MALFORMED_FRAGMENT);

    assert_eq!(report.findings.len(), 1);
    assert!(!report.parse_warnings.is_empty());
}

#[test]
fn text_output_mentions_occurrences_and_root_cause() {
    let report = analyze_text(REPEATED_FATAL_EXCEPTION);
    let text = render_text(&report);

    assert!(text.contains("Occurrences: 2"));
    assert!(text.contains("Root cause:"));
    assert!(text.contains("Likely root causes:"));
}

#[test]
fn repeated_crash_chains_collapse_into_one_finding() {
    let report = analyze_text(REPEATED_FATAL_EXCEPTION);

    assert_eq!(report.findings.len(), 1);
    let finding = &report.findings[0];
    assert_eq!(finding.occurrence_count, 2);
    assert_eq!(finding.line_start, 1);
    assert_eq!(finding.line_end, 4);
    assert_eq!(
        finding.signature,
        "FatalException|com.example.demo|java.lang.IllegalStateException: boom"
    );
    assert_eq!(
        finding.root_cause.as_deref(),
        Some("java.lang.IllegalStateException: boom")
    );
    assert_eq!(finding.process.as_deref(), Some("com.example.demo (PID 2456)"));
    assert_eq!(report.summary.total_findings, 1);
    assert_eq!(report.summary.top_severity, Some(Severity::Critical));
    assert_eq!(
        report.summary.root_cause_candidates,
        vec!["java.lang.IllegalStateException: boom".to_string()]
    );
}

#[test]
fn distinct_root_causes_remain_separate() {
    let report = analyze_text(DISTINCT_FATAL_EXCEPTIONS);

    assert_eq!(report.findings.len(), 2);
    assert_eq!(report.findings[0].occurrence_count, 1);
    assert_eq!(report.findings[1].occurrence_count, 1);
    assert_eq!(
        report.findings[1].root_cause.as_deref(),
        Some("java.lang.NullPointerException: name was null")
    );
    assert_eq!(
        report.findings[1].exception.as_deref(),
        Some("java.lang.RuntimeException: Unable to start activity")
    );
    assert_eq!(report.summary.root_cause_candidates.len(), 2);
    assert_ne!(report.findings[0].signature, report.findings[1].signature);
}

#[test]
fn native_crash_evidence_follows_the_debug_report() {
    let report = analyze_text(NATIVE_SIGSEGV);
    let finding = &report.findings[0];

    assert_eq!(finding.severity, Severity::Critical);
    assert_eq!(finding.line_start, 1);
    assert_eq!(finding.line_end, 7);
    assert_eq!(finding.evidence.len(), 6);
    assert_eq!(finding.evidence[1].line_number, 2);
    assert_eq!(finding.evidence[2].line_number, 4);
    assert_eq!(finding.root_cause, None);
    assert_eq!(
        finding.signature,
        "NativeCrash||Fatal signal 11 (SIGSEGV), code 1 (SEGV_MAPERR), fault addr 0x0 in tid 3333 (RenderThread)"
    );
}

#[test]
fn malformed_fragment_warns_about_each_unstructured_line() {
    let report = analyze_text(MALFORMED_FRAGMENT);

    assert_eq!(report.parse_warnings.len(), 2);
    assert_eq!(report.parse_warnings[0].line_number, 1);
    assert_eq!(report.parse_warnings[1].line_number, 3);
    assert_eq!(report.parse_warnings[1].raw, "garbage line without structure");
    assert_eq!(report.parse_warnings[1].reason, "unstructured log line");
    assert_eq!(report.summary.parse_warning_count, 2);
    let finding = &report.findings[0];
    assert_eq!(finding.line_start, 1);
    assert_eq!(finding.line_end, 4);
    assert_eq!(finding.evidence.len(), 3);
    assert_eq!(
        finding.exception.as_deref(),
        Some("java.lang.NullPointerException: oops")
    );
}

#[test]
fn every_incident_is_counted_once_in_first_occurrence_order() {
    let crash = |pid: u32, exception: &str| {
        format!(
            "03-18 10:15:09.123  {pid}  {pid} E AndroidRuntime: FATAL EXCEPTION: main\n\
03-18 10:15:09.124  {pid}  {pid} E AndroidRuntime: Process: com.example.demo, PID: {pid}\n\
03-18 10:15:09.125  {pid}  {pid} E AndroidRuntime: {exception}\n\
03-18 10:16:01.000  1000  1000 I ActivityManager: idle\n\
03-18 10:16:02.000  1000  1000 I ActivityManager: idle\n"
        )
    };
    let input = format!(
        "{}{}{}",
        crash(11, "java.lang.IllegalStateException: boom"),
        crash(12, "java.lang.IllegalArgumentException: bad"),
        crash(13, "java.lang.IllegalStateException: boom")
    );
    let report = analyze_text(&input);

    assert_eq!(report.findings.len(), 2);
    assert_eq!(report.findings[0].occurrence_count, 2);
    assert_eq!(report.findings[1].occurrence_count, 1);
    let total: usize = report.findings.iter().map(|f| f.occurrence_count).sum();
    assert_eq!(total, 3);
    assert_eq!(
        report.findings[0].root_cause.as_deref(),
        Some("java.lang.IllegalStateException: boom")
    );
    assert_eq!(
        report.findings[1].root_cause.as_deref(),
        Some("java.lang.IllegalArgumentException: bad")
    );
    assert_eq!(report.findings[0].process.as_deref(), Some("com.example.demo (PID 11)"));
    assert!(report.findings[0].line_end < report.findings[1].line_end);
    assert_eq!(report.findings[1].line_start, 4);
    assert_eq!(report.summary.root_cause_candidates.len(), 2);
}
