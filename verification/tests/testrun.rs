use greppy::testrun::{
    classify_pair, classify_tests, combined_framework, command_evidence, command_status,
    i32_to_decimal, one_line, parse_run, push_limitation, report_exit_code, strip_ansi,
    CommandRun, Comparison, Framework, TestObservation, TestStatus, EXIT_INFRASTRUCTURE,
    EXIT_NEWLY_FAILED,
};

fn run(code: Option<i32>, out: &[u8], err: &[u8]) -> CommandRun {
    CommandRun {
        exit_code: code,
        stdout: out.to_vec(),
        stderr: err.to_vec(),
        timed_out: false,
        spawn_error: None,
    }
}

#[test]
fn parses_pytest_quiet_failure_ids() {
    let run = CommandRun {
        exit_code: Some(1),
        stdout: b"FAILED tests/test_math.py::test_add - assert 3 == 4\n1 failed, 1 passed in 0.02s\n".to_vec(),
        stderr: Vec::new(),
        timed_out: false,
        spawn_error: None,
    };
    let parsed = parse_run(&run);
    assert_eq!(parsed.framework, Framework::Pytest);
    assert_eq!(
        parsed.test("tests/test_math.py::test_add").unwrap().status,
        TestStatus::Failed
    );
    assert!(parsed.infrastructure.is_none());
}

#[test]
fn parses_cargo_go_and_javascript_results() {
    let cargo = CommandRun {
        exit_code: Some(1),
        stdout: b"running 2 tests\ntest math::adds ... ok\ntest math::breaks ... FAILED\ntest result: FAILED. 1 passed; 1 failed\n".to_vec(),
        stderr: Vec::new(),
        timed_out: false,
        spawn_error: None,
    };
    let parsed = parse_run(&cargo);
    assert_eq!(parsed.framework, Framework::CargoTest);
    assert_eq!(parsed.test("math::breaks").unwrap().status, TestStatus::Failed);

    let go = CommandRun {
        exit_code: Some(1),
        stdout: b"=== RUN   TestAdd\n--- FAIL: TestAdd (0.00s)\nFAIL\texample/pkg\n".to_vec(),
        stderr: Vec::new(),
        timed_out: false,
        spawn_error: None,
    };
    let parsed = parse_run(&go);
    assert_eq!(parsed.framework, Framework::GoTest);
    assert_eq!(parsed.test("TestAdd").unwrap().status, TestStatus::Failed);

    let js = CommandRun {
        exit_code: Some(1),
        stdout: "FAIL src/math.test.ts\n  ✕ adds numbers (3 ms)\nTest Suites: 1 failed\n"
            .as_bytes()
            .to_vec(),
        stderr: Vec::new(),
        timed_out: false,
        spawn_error: None,
    };
    let parsed = parse_run(&js);
    assert_eq!(parsed.framework, Framework::JestVitest);
    assert_eq!(parsed.test("adds numbers").unwrap().status, TestStatus::Failed);
}

#[test]
fn compile_and_collection_errors_are_infrastructure() {
    let cargo = CommandRun {
        exit_code: Some(101),
        stdout: Vec::new(),
        stderr: b"error: could not compile `fixture` due to 1 previous error\n".to_vec(),
        timed_out: false,
        spawn_error: None,
    };
    let parsed = parse_run(&cargo);
    assert_eq!(parsed.infrastructure.unwrap().signature, "compile_failure");

    let pytest = CommandRun {
        exit_code: Some(2),
        stdout: b"collected 0 items / 1 error\nERROR collecting tests/test_bad.py\n".to_vec(),
        stderr: Vec::new(),
        timed_out: false,
        spawn_error: None,
    };
    let parsed = parse_run(&pytest);
    assert_eq!(parsed.framework, Framework::Pytest);
    assert_eq!(parsed.infrastructure.unwrap().signature, "collection_failure");
}

#[test]
fn timeouts_and_spawn_errors_are_infrastructure() {
    let mut r = run(None, b"", b"");
    r.timed_out = true;
    let parsed = parse_run(&r);
    assert_eq!(parsed.infrastructure.unwrap().signature, "timeout");
    let mut r = run(None, b"", b"");
    r.spawn_error = Some("No such   file".to_string());
    let parsed = parse_run(&r);
    let infra = parsed.infrastructure.unwrap();
    assert_eq!(infra.signature, "test_process_spawn_error");
    assert_eq!(infra.evidence_line, "No such file");
    assert_eq!(parsed.framework, Framework::Unknown);
}

#[test]
fn nonzero_exit_without_failures_is_infrastructure() {
    let parsed = parse_run(&run(Some(1), b"running 1 tests\ntest a ... ok\n", b""));
    assert_eq!(
        parsed.infrastructure.unwrap().signature,
        "nonzero_without_assertion_failure"
    );
    let parsed = parse_run(&run(Some(0), b"running 1 tests\ntest a ... ok\n", b""));
    assert!(parsed.infrastructure.is_none());
    assert!(parsed.limitation.is_none());
}

#[test]
fn unknown_output_is_limited_to_exit_codes() {
    let parsed = parse_run(&run(Some(0), b"hello\n", b""));
    assert_eq!(parsed.framework, Framework::Unknown);
    assert_eq!(
        parsed.limitation.unwrap(),
        "unrecognized test framework: comparison is limited to command exit codes"
    );
    let parsed = parse_run(&run(Some(0), b"test result: ok. 0 passed\n", b""));
    assert!(parsed.limitation.unwrap().starts_with("cargo-test was recognized"));
}

#[test]
fn ansi_sequences_are_stripped() {
    assert_eq!(strip_ansi("\u{1b}[31mred\u{1b}[0m plain"), "red plain");
    assert_eq!(strip_ansi("\u{1b}[1;2"), "");
}

#[test]
fn one_line_collapses_and_shortens() {
    assert_eq!(one_line("  a \t b\nc "), "a b c");
    let long = "x".repeat(600);
    let out = one_line(&long);
    assert_eq!(out.chars().count(), 501);
    assert!(out.ends_with('…'));
}

#[test]
fn later_cargo_line_replaces_earlier_and_ids_are_sorted() {
    let parsed = parse_run(&run(
        Some(1),
        b"running 3 tests\ntest b ... ok\ntest a ... ok\ntest b ... FAILED\n",
        b"",
    ));
    assert_eq!(parsed.tests.len(), 2);
    assert_eq!(parsed.tests[0].0, "a");
    assert_eq!(parsed.tests[1].0, "b");
    assert_eq!(parsed.test("b").unwrap().status, TestStatus::Failed);
}

#[test]
fn command_statuses_and_frameworks() {
    assert_eq!(command_status(Some(0)), Some(TestStatus::Passed));
    assert_eq!(command_status(Some(3)), Some(TestStatus::Failed));
    assert_eq!(command_status(None), None);
    assert_eq!(combined_framework(Framework::Pytest, Some(Framework::Pytest)), "pytest");
    assert_eq!(combined_framework(Framework::Pytest, Some(Framework::Unknown)), "pytest");
    assert_eq!(combined_framework(Framework::Unknown, Some(Framework::GoTest)), "go-test");
    assert_eq!(
        combined_framework(Framework::Pytest, Some(Framework::GoTest)),
        "mixed:go-test+pytest"
    );
    assert_eq!(combined_framework(Framework::CargoTest, None), "cargo-test");
}

#[test]
fn limitations_are_not_repeated() {
    let mut l = Vec::new();
    push_limitation(&mut l, Some("a".to_string()));
    push_limitation(&mut l, Some("a".to_string()));
    push_limitation(&mut l, None);
    push_limitation(&mut l, Some("b".to_string()));
    assert_eq!(l, vec!["a".to_string(), "b".to_string()]);
}

#[test]
fn pairs_fall_into_one_bucket_each() {
    let obs = |s: TestStatus| TestObservation { status: s, evidence_line: "e".to_string() };
    let mut c = Comparison::new();
    classify_pair("t1", Some(&obs(TestStatus::Passed)), Some(&obs(TestStatus::Failed)), &mut c);
    classify_pair("t2", Some(&obs(TestStatus::Failed)), Some(&obs(TestStatus::Passed)), &mut c);
    classify_pair("t3", Some(&obs(TestStatus::Failed)), Some(&obs(TestStatus::Failed)), &mut c);
    classify_pair("t4", None, Some(&obs(TestStatus::Passed)), &mut c);
    classify_pair("t5", Some(&obs(TestStatus::Passed)), None, &mut c);
    classify_pair("t6", None, None, &mut c);
    assert_eq!(c.newly_failed.len(), 1);
    assert_eq!(c.fixed[0].test_id, "t2");
    assert_eq!(c.preexisting_failed[0].test_id, "t3");
    assert_eq!(c.still_passing[0].test_id, "t4");
    assert_eq!(c.not_run_in_after[0].test_id, "t5");
}

#[test]
fn whole_commands_are_compared_without_test_ids() {
    let base = run(Some(0), b"\n  all good  \n", b"");
    let after = run(Some(2), b"", b"");
    let bp = parse_run(&base);
    let ap = parse_run(&after);
    let mut c = Comparison::new();
    classify_tests(&bp, &ap, Some(&base), &after, &mut c);
    assert_eq!(c.newly_failed.len(), 1);
    assert_eq!(c.newly_failed[0].test_id, "command");
    assert_eq!(c.newly_failed[0].evidence_line, "command exited 2");
    assert_eq!(command_evidence(Some(&base)), "all good");
    assert_eq!(command_evidence(None), "command did not run");
    assert_eq!(i32_to_decimal(-105), "-105");
    assert_eq!(report_exit_code(1, 1), EXIT_INFRASTRUCTURE);
    assert_eq!(report_exit_code(0, 1), EXIT_NEWLY_FAILED);
    assert_eq!(report_exit_code(0, 0), 0);
}

#[test]
fn tests_are_classified_per_id() {
    let base = run(Some(1), b"running 2 tests\ntest a ... ok\ntest b ... FAILED\n", b"");
    let after = run(Some(1), b"running 2 tests\ntest a ... FAILED\ntest c ... ok\n", b"");
    let bp = parse_run(&base);
    let ap = parse_run(&after);
    let mut c = Comparison::new();
    classify_tests(&bp, &ap, Some(&base), &after, &mut c);
    assert_eq!(c.newly_failed[0].test_id, "a");
    assert_eq!(c.not_run_in_after[0].test_id, "b");
    assert_eq!(c.still_passing[0].test_id, "c");
}
