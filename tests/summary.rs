use cairo_lang_test_runner::felt::Felt;
use cairo_lang_test_runner::mock::MockTable;
use cairo_lang_test_runner::summary::{
    filter_tests, status_before_run, summarize, test_status, RunResultValue, TestStatus, TestsSummary,
};
use cairo_lang_test_runner::test_config::{PanicExpectation, TestConfig, TestExpectation};

fn felts(v: &[u128]) -> Vec<Felt> {
    v.iter().map(|x| Felt::from_u128(*x)).collect()
}

fn test(ignored: bool, expectation: TestExpectation) -> TestConfig {
    TestConfig { available_gas: None, expectation, ignored, mocks: MockTable::new() }
}

fn is_success(s: &TestStatus) -> bool {
    matches!(s, TestStatus::Success)
}

#[test]
fn verdict_table() {
    let exact = || TestExpectation::Panics(PanicExpectation::Exact(felts(&[1, 2])));
    let any = || TestExpectation::Panics(PanicExpectation::Any);
    assert!(is_success(&test_status(&TestExpectation::Success, RunResultValue::Success(vec![]))));
    assert!(matches!(
        test_status(&TestExpectation::Success, RunResultValue::Panic(felts(&[1]))),
        TestStatus::Fail(RunResultValue::Panic(_))
    ));
    assert!(is_success(&test_status(&any(), RunResultValue::Panic(felts(&[9])))));
    assert!(matches!(
        test_status(&any(), RunResultValue::Success(vec![])),
        TestStatus::Fail(RunResultValue::Success(_))
    ));
    assert!(is_success(&test_status(&exact(), RunResultValue::Panic(felts(&[1, 2])))));
    assert!(matches!(
        test_status(&exact(), RunResultValue::Panic(felts(&[1, 2, 3]))),
        TestStatus::Fail(_)
    ));
    assert!(matches!(test_status(&exact(), RunResultValue::Success(vec![])), TestStatus::Fail(_)));
}

#[test]
fn wrong_panic_value_is_reported() {
    let expectation = TestExpectation::Panics(PanicExpectation::Exact(felts(&[1])));
    let status = test_status(&expectation, RunResultValue::Panic(felts(&[2])));
    let summary = summarize(vec![("t::wrong_panic".to_string(), status)]);
    assert_eq!(summary.failed, vec!["t::wrong_panic".to_string()]);
    assert!(summary.passed.is_empty());
    match &summary.failed_run_results[0] {
        RunResultValue::Panic(v) => assert_eq!(v, &felts(&[2])),
        RunResultValue::Success(_) => panic!("expected the panic values"),
    }
}

#[test]
fn counts_do_not_depend_on_order() {
    let statuses = || {
        vec![
            ("a".to_string(), TestStatus::Success),
            ("b".to_string(), TestStatus::Fail(RunResultValue::Success(vec![]))),
            ("c".to_string(), TestStatus::Ignore),
            ("d".to_string(), TestStatus::Success),
            ("e".to_string(), TestStatus::Fail(RunResultValue::Panic(felts(&[3])))),
        ]
    };
    let forward = summarize(statuses());
    let mut reversed = statuses();
    reversed.reverse();
    let backward = summarize(reversed);
    for s in [&forward, &backward] {
        assert_eq!(s.passed.len(), 2);
        assert_eq!(s.failed.len(), 2);
        assert_eq!(s.ignored.len(), 1);
        assert_eq!(s.failed.len(), s.failed_run_results.len());
    }
    assert_eq!(forward.failed, vec!["b".to_string(), "e".to_string()]);
    assert_eq!(backward.failed, vec!["e".to_string(), "b".to_string()]);
}

#[test]
fn run_accounts_for_every_test() {
    // Six tests: one filtered out, one ignored, two expected to fail.
    let tests = vec![
        ("m::ok_one".to_string(), test(false, TestExpectation::Success)),
        ("m::ok_two".to_string(), test(false, TestExpectation::Panics(PanicExpectation::Any))),
        ("m::fails".to_string(), test(false, TestExpectation::Success)),
        ("m::fails_too".to_string(), test(false, TestExpectation::Panics(PanicExpectation::Any))),
        ("m::skipped".to_string(), test(true, TestExpectation::Success)),
        ("other::x".to_string(), test(false, TestExpectation::Success)),
    ];
    let (kept, filtered_out) = filter_tests(tests, "m::", false, false);
    assert_eq!(kept.len(), 5);
    assert_eq!(filtered_out, 1);
    let mut results = vec![];
    for (name, config) in kept.into_iter().rev() {
        let status = if let Some(status) = status_before_run(&config) {
            status
        } else if name.contains("fails") {
            let outcome = match config.expectation {
                TestExpectation::Success => RunResultValue::Panic(felts(&[1])),
                _ => RunResultValue::Success(vec![]),
            };
            test_status(&config.expectation, outcome)
        } else {
            let outcome = match config.expectation {
                TestExpectation::Success => RunResultValue::Success(vec![]),
                _ => RunResultValue::Panic(felts(&[1])),
            };
            test_status(&config.expectation, outcome)
        };
        results.push((name, status));
    }
    let s = summarize(results);
    assert_eq!(s.passed.len(), 2);
    assert_eq!(s.failed.len(), 2);
    assert_eq!(s.ignored.len(), 1);
    assert_eq!(s.passed.len() + s.failed.len() + s.ignored.len() + filtered_out, 6);
}

#[test]
fn filter_by_substring() {
    let tests = vec![
        ("a::foo_one".to_string(), test(false, TestExpectation::Success)),
        ("a::bar".to_string(), test(false, TestExpectation::Success)),
        ("b::foo".to_string(), test(true, TestExpectation::Success)),
        ("b::baz".to_string(), test(false, TestExpectation::Success)),
    ];
    let (kept, filtered_out) = filter_tests(tests, "foo", false, false);
    let names: Vec<&str> = kept.iter().map(|(n, _)| n.as_str()).collect();
    assert_eq!(names, vec!["a::foo_one", "b::foo"]);
    assert_eq!(filtered_out, 2);
    assert!(kept[1].1.ignored);
}

#[test]
fn empty_filter_keeps_everything() {
    let tests = vec![
        ("a".to_string(), test(false, TestExpectation::Success)),
        ("b".to_string(), test(true, TestExpectation::Success)),
    ];
    let (kept, filtered_out) = filter_tests(tests, "", false, false);
    assert_eq!(kept.len(), 2);
    assert_eq!(filtered_out, 0);
}

#[test]
fn ignored_only_and_include_ignored_modes() {
    let tests = || {
        vec![
            ("a".to_string(), test(false, TestExpectation::Success)),
            ("b".to_string(), test(true, TestExpectation::Success)),
        ]
    };
    let (kept, filtered_out) = filter_tests(tests(), "", false, true);
    assert_eq!(kept.len(), 1);
    assert_eq!(kept[0].0, "b");
    assert_eq!(filtered_out, 1);
    let (kept, filtered_out) = filter_tests(tests(), "", true, false);
    assert_eq!(kept.len(), 2);
    assert!(!kept[1].1.ignored);
    assert_eq!(filtered_out, 0);
    let (kept, filtered_out) = filter_tests(tests(), "", true, true);
    assert_eq!(kept.len(), 0);
    assert_eq!(filtered_out, 2);
}

#[test]
fn record_one_by_one() {
    let mut s = TestsSummary::new();
    s.record("x".to_string(), TestStatus::Ignore);
    s.record("y".to_string(), TestStatus::Success);
    assert_eq!(s.ignored, vec!["x".to_string()]);
    assert_eq!(s.passed, vec!["y".to_string()]);
    assert!(s.failed.is_empty());
}

#[test]
fn ignored_tests_do_not_run() {
    assert!(matches!(status_before_run(&test(true, TestExpectation::Success)), Some(TestStatus::Ignore)));
    assert!(status_before_run(&test(false, TestExpectation::Success)).is_none());
}
