use ducttape::diagnostics::{
    build_complete, decimal, BuildFailure, Diagnostic, Diagnostics, ErrorKind, ModuleBuildSuccess,
    EMIT_FAILED, PARSE_FAILED, READ_FAILED, RESOLVE_FAILED, UTF8_FAILED, WRITE_FAILED,
};

#[test]
fn decimal_writes_numbers() {
    assert_eq!(decimal(0), "0");
    assert_eq!(decimal(7), "7");
    assert_eq!(decimal(10), "10");
    assert_eq!(decimal(1234567890), "1234567890");
    assert_eq!(decimal(u128::MAX), "340282366920938463463374607431768211455");
}

#[test]
fn success_lines() {
    let success = ModuleBuildSuccess { module_id: "src/a.js".to_string(), duration: 12 };
    assert_eq!(success.progress_line(), "src/a.js built");
    assert_eq!(Diagnostic::ModuleBuildSuccess(success).line(), "Module src/a.js built in 12ms");
    assert_eq!(build_complete(1500), "Build complete in 1500ms");
}

#[test]
fn failure_line_names_kind_path_and_detail() {
    let failure = BuildFailure::new(ErrorKind::Parse, "/project/a.js", PARSE_FAILED);
    assert_eq!(failure.kind, ErrorKind::Parse);
    assert_eq!(failure.path, "/project/a.js");
    assert_eq!(failure.detail, "Error parsing module");
    assert_eq!(failure.line(), "Parse: /project/a.js: Error parsing module");
    assert_eq!(
        Diagnostic::BuildFailure(failure).line(),
        "Parse: /project/a.js: Error parsing module"
    );
}

#[test]
fn each_kind_has_its_name() {
    assert_eq!(ErrorKind::Read.name(), "Read");
    assert_eq!(ErrorKind::Parse.name(), "Parse");
    assert_eq!(ErrorKind::Resolve.name(), "Resolve");
    assert_eq!(ErrorKind::Lower.name(), "Lower");
    assert_eq!(ErrorKind::Emit.name(), "Emit");
    assert_eq!(ErrorKind::Write.name(), "Write");
    assert_eq!(BuildFailure::new(ErrorKind::Read, "p", READ_FAILED).line(), "Read: p: Failed to read file");
    assert_eq!(BuildFailure::new(ErrorKind::Emit, "p", EMIT_FAILED).line(), "Emit: p: Failed to emit buffer");
    assert_eq!(
        BuildFailure::new(ErrorKind::Emit, "p", UTF8_FAILED).line(),
        "Emit: p: Failed to convert UTF-8 buffer to string buffer"
    );
    assert_eq!(BuildFailure::new(ErrorKind::Write, "p", WRITE_FAILED).line(), "Write: p: Failed to write chunk");
    assert_eq!(RESOLVE_FAILED, "Failed to resolve ");
}

#[test]
fn log_keeps_the_order_of_events() {
    let mut log = Diagnostics::new();
    assert_eq!(log.lines(), Vec::<String>::new());
    log.add_diagnostic(Diagnostic::ModuleBuildSuccess(ModuleBuildSuccess {
        module_id: "a.js".to_string(),
        duration: 3,
    }));
    log.add_diagnostic(Diagnostic::BuildFailure(BuildFailure::new(
        ErrorKind::Resolve,
        "/project/a.js",
        "Failed to resolve ./b",
    )));
    log.add_diagnostic(Diagnostic::ModuleBuildSuccess(ModuleBuildSuccess {
        module_id: "b.js".to_string(),
        duration: 0,
    }));
    assert_eq!(log.diagnostics().len(), 3);
    assert!(matches!(log.diagnostics()[1], Diagnostic::BuildFailure(_)));
    assert_eq!(
        log.lines(),
        vec![
            "Module a.js built in 3ms",
            "Resolve: /project/a.js: Failed to resolve ./b",
            "Module b.js built in 0ms",
        ]
    );
}
