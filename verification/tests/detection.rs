use android_log_analyzer::{analyze_text, FindingKind, Severity};

#[test]
fn detects_java_fatal_exception() {
    let input = r#"03-18 10:15:09.123  2456  2456 E AndroidRuntime: FATAL EXCEPTION: main
03-18 10:15:09.124  2456  2456 E AndroidRuntime: Process: com.example.demo, PID: 2456
03-18 10:15:09.125  2456  2456 E AndroidRuntime: java.lang.IllegalStateException: boom
03-18 10:15:09.126  2456  2456 E AndroidRuntime:     at com.example.demo.MainActivity.onCreate(MainActivity.kt:42)"#;
    let report = analyze_text(input);

    assert_eq!(report.findings.len(), 1);
    let finding = &report.findings[0];
    assert_eq!(finding.kind, FindingKind::FatalException);
    assert_eq!(finding.severity, Severity::Critical);
    assert_eq!(finding.thread.as_deref(), Some("main"));
    assert_eq!(finding.package.as_deref(), Some("com.example.demo"));
    assert!(
        finding
            .exception
            .as_deref()
            .unwrap_or_default()
            .contains("IllegalStateException")
    );
}

#[test]
fn detects_native_crash_signal() {
    let input = r#"03-18 11:20:11.001  3333  3333 F libc    : Fatal signal 11 (SIGSEGV), code 1 (SEGV_MAPERR), fault addr 0x0
03-18 11:20:11.002  3333  3333 F DEBUG   : Abort message: 'terminating due to signal 11'
03-18 11:20:11.003  3333  3333 F DEBUG   : backtrace:
03-18 11:20:11.004  3333  3333 F DEBUG   :       #00 pc 0000000000012345  /apex/libfoo.so"#;
    let report = analyze_text(input);

    assert_eq!(report.findings.len(), 1);
    assert_eq!(report.findings[0].kind, FindingKind::NativeCrash);
    assert_eq!(report.findings[0].severity, Severity::Critical);
    assert!(report.findings[0].evidence.len() >= 3);
}

#[test]
fn does_not_flag_plain_noise() {
    let input = r#"03-18 11:20:11.001  3333  3333 I ActivityManager: Start proc 1234:com.example.demo/u0a321 for activity
03-18 11:20:11.002  3333  3333 D DemoTag: just a normal debug line"#;
    let report = analyze_text(input);

    assert!(report.findings.is_empty());
}
