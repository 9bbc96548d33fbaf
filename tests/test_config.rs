use cairo_lang_test_runner::felt::{Felt, IntLiteral};
use cairo_lang_test_runner::mock::MockConfig;
use cairo_lang_test_runner::test_config::{
    try_extract_test_config, ArgValue, Attribute, AttributeArg, Diagnostic, DiagnosticKind, Expr,
    PanicExpectation, ShortString, TestConfig, TestExpectation,
};

fn attr(id: &str, args: Vec<AttributeArg>) -> Attribute {
    Attribute { id: id.to_string(), args }
}

fn num(v: u64) -> Expr {
    Expr::Int(IntLiteral::from_u64(v))
}

fn short(text: &str) -> Expr {
    let mut value: u64 = 0;
    for b in text.bytes() {
        value = value * 256 + b as u64;
    }
    Expr::ShortString(ShortString { text: text.to_string(), value: IntLiteral::from_u64(value) })
}

fn unnamed(e: Expr) -> AttributeArg {
    AttributeArg { name: None, value: ArgValue::Expr(e) }
}

fn named(name: &str, value: ArgValue) -> AttributeArg {
    AttributeArg { name: Some(name.to_string()), value }
}

fn config(attrs: Vec<Attribute>) -> TestConfig {
    match try_extract_test_config(attrs) {
        Ok(Some(c)) => c,
        Ok(None) => panic!("not a test"),
        Err(d) => panic!("diagnostics: {:?}", d),
    }
}

fn diagnostics(attrs: Vec<Attribute>) -> Vec<Diagnostic> {
    match try_extract_test_config(attrs) {
        Err(d) => d,
        Ok(_) => panic!("expected diagnostics"),
    }
}

#[test]
fn plain_function_is_no_test() {
    assert!(matches!(try_extract_test_config(vec![]), Ok(None)));
    assert!(matches!(try_extract_test_config(vec![attr("inline", vec![])]), Ok(None)));
}

#[test]
fn plain_test_succeeds_by_default() {
    let c = config(vec![attr("test", vec![])]);
    assert_eq!(c.available_gas, None);
    assert!(matches!(c.expectation, TestExpectation::Success));
    assert!(!c.ignored);
    assert_eq!(c.mocks.len(), 0);
}

#[test]
fn ignore_without_test_is_diagnosed() {
    let d = diagnostics(vec![attr("inline", vec![]), attr("ignore", vec![])]);
    assert_eq!(d, vec![Diagnostic { attr_index: 1, kind: DiagnosticKind::OnlyOnTests }]);
}

#[test]
fn test_attributes_without_test_each_diagnosed() {
    let d = diagnostics(vec![
        attr("should_panic", vec![]),
        attr("available_gas", vec![unnamed(num(5))]),
        attr("ignore", vec![]),
    ]);
    assert_eq!(
        d,
        vec![
            Diagnostic { attr_index: 2, kind: DiagnosticKind::OnlyOnTests },
            Diagnostic { attr_index: 1, kind: DiagnosticKind::OnlyOnTests },
            Diagnostic { attr_index: 0, kind: DiagnosticKind::OnlyOnTests },
        ]
    );
}

#[test]
fn ignore_marks_test_ignored() {
    let c = config(vec![attr("test", vec![]), attr("ignore", vec![])]);
    assert!(c.ignored);
}

#[test]
fn markers_with_arguments_are_diagnosed() {
    let d = diagnostics(vec![attr("test", vec![unnamed(num(1))]), attr("ignore", vec![unnamed(num(2))])]);
    assert_eq!(
        d,
        vec![
            Diagnostic { attr_index: 0, kind: DiagnosticKind::UnexpectedArguments },
            Diagnostic { attr_index: 1, kind: DiagnosticKind::UnexpectedArguments },
        ]
    );
}

#[test]
fn available_gas_single_literal() {
    let c = config(vec![attr("test", vec![]), attr("available_gas", vec![unnamed(num(1000000))])]);
    assert_eq!(c.available_gas, Some(1000000));
}

#[test]
fn available_gas_without_argument_is_diagnosed() {
    let d = diagnostics(vec![attr("test", vec![]), attr("available_gas", vec![])]);
    assert_eq!(d, vec![Diagnostic { attr_index: 1, kind: DiagnosticKind::ExpectedSingleValue }]);
}

#[test]
fn available_gas_with_two_arguments_is_diagnosed() {
    let d = diagnostics(vec![
        attr("test", vec![]),
        attr("available_gas", vec![unnamed(num(1)), unnamed(num(2))]),
    ]);
    assert_eq!(d, vec![Diagnostic { attr_index: 1, kind: DiagnosticKind::ExpectedSingleValue }]);
}

#[test]
fn available_gas_named_argument_is_diagnosed() {
    let d = diagnostics(vec![
        attr("test", vec![]),
        attr("available_gas", vec![named("gas", ArgValue::Expr(num(1)))]),
    ]);
    assert_eq!(d, vec![Diagnostic { attr_index: 1, kind: DiagnosticKind::ExpectedSingleValue }]);
}

#[test]
fn available_gas_out_of_range_is_none() {
    let huge = IntLiteral { negative: false, magnitude: vec![0, 0, 1] };
    let c = config(vec![
        attr("test", vec![]),
        attr("available_gas", vec![unnamed(Expr::Int(huge))]),
    ]);
    assert_eq!(c.available_gas, None);
    let negative = IntLiteral { negative: true, magnitude: vec![3] };
    let c = config(vec![
        attr("test", vec![]),
        attr("available_gas", vec![unnamed(Expr::Int(negative))]),
    ]);
    assert_eq!(c.available_gas, None);
}

#[test]
fn should_panic_without_arguments_accepts_any_panic() {
    let c = config(vec![attr("test", vec![]), attr("should_panic", vec![])]);
    assert!(matches!(c.expectation, TestExpectation::Panics(PanicExpectation::Any)));
}

#[test]
fn should_panic_with_expected_tuple() {
    let c = config(vec![
        attr("test", vec![]),
        attr("should_panic", vec![named("expected", ArgValue::Tuple(vec![num(1), num(2), num(3)]))]),
    ]);
    match c.expectation {
        TestExpectation::Panics(PanicExpectation::Exact(v)) => {
            assert_eq!(v, vec![Felt::from_u128(1), Felt::from_u128(2), Felt::from_u128(3)]);
        }
        _ => panic!("expected an exact panic"),
    }
}

#[test]
fn should_panic_with_short_string() {
    let c = config(vec![
        attr("test", vec![]),
        attr("should_panic", vec![named("expected", ArgValue::Tuple(vec![short("ab")]))]),
    ]);
    match c.expectation {
        TestExpectation::Panics(PanicExpectation::Exact(v)) => {
            assert_eq!(v, vec![Felt::from_u128(0x6162)]);
        }
        _ => panic!("expected an exact panic"),
    }
}

#[test]
fn should_panic_negative_value_wraps_modulo_prime() {
    let minus_one = Expr::Int(IntLiteral { negative: true, magnitude: vec![1] });
    let c = config(vec![
        attr("test", vec![]),
        attr("should_panic", vec![named("expected", ArgValue::Tuple(vec![minus_one]))]),
    ]);
    match c.expectation {
        TestExpectation::Panics(PanicExpectation::Exact(v)) => {
            assert_eq!(v, vec![Felt { low: 0, high: 0x800_0000_0000_0011_0000_0000_0000_0000 }]);
        }
        _ => panic!("expected an exact panic"),
    }
}

#[test]
fn should_panic_malformed_is_diagnosed() {
    let d = diagnostics(vec![
        attr("test", vec![]),
        attr("should_panic", vec![named("wanted", ArgValue::Tuple(vec![num(1)]))]),
    ]);
    assert_eq!(d, vec![Diagnostic { attr_index: 1, kind: DiagnosticKind::ExpectedPanicTuple }]);
    let d = diagnostics(vec![
        attr("test", vec![]),
        attr("should_panic", vec![named("expected", ArgValue::Tuple(vec![num(1), Expr::Other]))]),
    ]);
    assert_eq!(d, vec![Diagnostic { attr_index: 1, kind: DiagnosticKind::ExpectedPanicTuple }]);
    let d = diagnostics(vec![
        attr("test", vec![]),
        attr("should_panic", vec![named("expected", ArgValue::Expr(num(1)))]),
    ]);
    assert_eq!(d, vec![Diagnostic { attr_index: 1, kind: DiagnosticKind::ExpectedPanicTuple }]);
}

#[test]
fn diagnostic_messages() {
    assert_eq!(DiagnosticKind::UnexpectedArguments.message(), "Attribute should not have arguments.");
    assert_eq!(DiagnosticKind::OnlyOnTests.message(), "Attribute should only appear on tests.");
    assert_eq!(
        DiagnosticKind::ExpectedSingleValue.message(),
        "Attribute should have a single value argument."
    );
    assert_eq!(
        DiagnosticKind::ExpectedPanicTuple.message(),
        "Expected panic must be of the form `expected: <tuple of felt252s>`."
    );
}

#[test]
fn mock_singleton_address_in_decimal() {
    let c = config(vec![
        attr("test", vec![]),
        attr("caironet", vec![named("ERC20", ArgValue::Expr(num(0x1234)))]),
    ]);
    match c.mocks.get("ERC20") {
        Some(MockConfig::SingletonAddress(a)) => assert_eq!(a, "4660"),
        _ => panic!("expected a single address"),
    }
}

#[test]
fn mock_instances_merge_into_one_map() {
    let c = config(vec![
        attr("test", vec![]),
        attr(
            "caironet",
            vec![
                named("ERC20", ArgValue::Tuple(vec![num(0x10), short("A")])),
                named("ERC20", ArgValue::Tuple(vec![short("B"), num(0x20)])),
            ],
        ),
    ]);
    assert_eq!(c.mocks.len(), 1);
    match c.mocks.get("ERC20") {
        Some(MockConfig::InstanceAddresses(m)) => {
            assert_eq!(
                m,
                &vec![("A".to_string(), "16".to_string()), ("B".to_string(), "32".to_string())]
            );
        }
        _ => panic!("expected an instance map"),
    }
}

#[test]
fn mock_entries_without_address_are_skipped() {
    let c = config(vec![
        attr("test", vec![]),
        attr(
            "caironet",
            vec![
                named("Token", ArgValue::Tuple(vec![short("A")])),
                named("Other", ArgValue::Expr(Expr::Other)),
                unnamed(num(3)),
                named("Vault", ArgValue::Expr(num(7))),
            ],
        ),
    ]);
    assert_eq!(c.mocks.len(), 1);
    assert!(c.mocks.get("Token").is_none());
    match c.mocks.get("Vault") {
        Some(MockConfig::SingletonAddress(a)) => assert_eq!(a, "7"),
        _ => panic!("expected a single address"),
    }
}

#[test]
fn later_singleton_replaces_earlier() {
    let c = config(vec![
        attr("test", vec![]),
        attr(
            "caironet",
            vec![
                named("ERC20", ArgValue::Tuple(vec![num(1), short("A")])),
                named("ERC20", ArgValue::Expr(num(2))),
            ],
        ),
    ]);
    match c.mocks.get("ERC20") {
        Some(MockConfig::SingletonAddress(a)) => assert_eq!(a, "2"),
        _ => panic!("expected a single address"),
    }
}

#[test]
fn literal_conversions() {
    let v = IntLiteral { negative: true, magnitude: vec![5] };
    assert_eq!(v.to_decimal(), "-5");
    assert_eq!(v.to_usize(), None);
    let big = IntLiteral { negative: false, magnitude: vec![0, 1] };
    assert_eq!(big.to_decimal(), "4294967296");
    assert_eq!(big.to_usize(), Some(4294967296));
    assert_eq!(IntLiteral::from_u64(0).to_decimal(), "0");
    assert_eq!(IntLiteral::from_u64(u64::MAX).to_decimal(), "18446744073709551615");
}
