//! Attribute descriptors and the configuration of a test extracted from them.
use vstd::prelude::*;

use crate::felt::{decimal_of, felt_of, reduce, usize_of, Felt, IntLiteral};
use crate::mock::{apply_declaration, MockModel, MockTable};
use crate::text::str_equals;

verus! {

/// A short-string literal: its text and the integer it stands for.
pub struct ShortString {
    pub text: String,
    pub value: IntLiteral,
}

/// An expression in an attribute argument.
pub enum Expr {
    /// An integer literal.
    Int(IntLiteral),
    /// A short-string literal.
    ShortString(ShortString),
    /// Any other expression.
    Other,
}

/// The value of an attribute argument.
pub enum ArgValue {
    /// A single expression.
    Expr(Expr),
    /// A tuple of expressions.
    Tuple(Vec<Expr>),
}

/// One argument of an attribute, with its name where it is a named one.
pub struct AttributeArg {
    pub name: Option<String>,
    pub value: ArgValue,
}

/// An attribute attached to a function: its name and its arguments in order.
pub struct Attribute {
    pub id: String,
    pub args: Vec<AttributeArg>,
}

/// What is wrong with an attribute.
#[derive(Clone, Copy, Debug, PartialEq, Eq, Structural)]
pub enum DiagnosticKind {
    /// The attribute takes no arguments.
    UnexpectedArguments,
    /// The attribute may only stand on a test.
    OnlyOnTests,
    /// The attribute takes a single value argument.
    ExpectedSingleValue,
    /// The expected panic must be `expected: <tuple of felt252s>`.
    ExpectedPanicTuple,
}

impl DiagnosticKind {
    /// The message of this kind of diagnostic.
    pub fn message(&self) -> (r: &'static str)
        ensures
            r@ == diagnostic_message(*self),
    {
        match self {
            DiagnosticKind::UnexpectedArguments => "Attribute should not have arguments.",
            DiagnosticKind::OnlyOnTests => "Attribute should only appear on tests.",
            DiagnosticKind::ExpectedSingleValue => "Attribute should have a single value argument.",
            DiagnosticKind::ExpectedPanicTuple => "Expected panic must be of the form `expected: <tuple of felt252s>`.",
        }
    }
}

/// The message of each kind of diagnostic.
pub open spec fn diagnostic_message(k: DiagnosticKind) -> Seq<char> {
    match k {
        DiagnosticKind::UnexpectedArguments => "Attribute should not have arguments."@,
        DiagnosticKind::OnlyOnTests => "Attribute should only appear on tests."@,
        DiagnosticKind::ExpectedSingleValue => "Attribute should have a single value argument."@,
        DiagnosticKind::ExpectedPanicTuple => "Expected panic must be of the form `expected: <tuple of felt252s>`."@,
    }
}

/// A diagnostic on the attribute at position `attr_index` of a function's
/// attributes.
#[derive(Clone, Copy, Debug, PartialEq, Eq, Structural)]
pub struct Diagnostic {
    pub attr_index: usize,
    pub kind: DiagnosticKind,
}

/// Expectation for a panic case.
pub enum PanicExpectation {
    /// Accept any panic value.
    Any,
    /// Accept only this sequence of panic values.
    Exact(Vec<Felt>),
}

/// Expectation for the result of a test.
pub enum TestExpectation {
    /// Running the test should not panic.
    Success,
    /// Running the test should panic.
    Panics(PanicExpectation),
}

/// What a `TestExpectation` states.
pub enum ExpectationModel {
    Success,
    PanicsAny,
    PanicsExact(Seq<Felt>),
}

impl TestExpectation {
    pub open spec fn model(&self) -> ExpectationModel {
        match self {
            TestExpectation::Success => ExpectationModel::Success,
            TestExpectation::Panics(PanicExpectation::Any) => ExpectationModel::PanicsAny,
            TestExpectation::Panics(PanicExpectation::Exact(v)) => ExpectationModel::PanicsExact(v@),
        }
    }
}

/// The configuration for running a single test.
pub struct TestConfig {
    /// The amount of gas the test requested.
    pub available_gas: Option<usize>,
    /// The expected result of the run.
    pub expectation: TestExpectation,
    /// Whether the test is ignored.
    pub ignored: bool,
    /// The mocked contract addresses the test declares.
    pub mocks: MockTable,
}

/// The position of the first attribute named `id`.
pub open spec fn first_with_id(attrs: Seq<Attribute>, id: Seq<char>) -> Option<int>
    decreases attrs.len(),
{
    if attrs.len() == 0 {
        None
    } else {
        match first_with_id(attrs.drop_last(), id) {
            Some(i) => Some(i),
            None => if attrs.last().id@ == id {
                Some(attrs.len() - 1)
            } else {
                None
            },
        }
    }
}

pub open spec fn test_attr(attrs: Seq<Attribute>) -> Option<int> {
    first_with_id(attrs, "test"@)
}

pub open spec fn ignore_attr(attrs: Seq<Attribute>) -> Option<int> {
    first_with_id(attrs, "ignore"@)
}

pub open spec fn gas_attr(attrs: Seq<Attribute>) -> Option<int> {
    first_with_id(attrs, "available_gas"@)
}

pub open spec fn panic_attr(attrs: Seq<Attribute>) -> Option<int> {
    first_with_id(attrs, "should_panic"@)
}

pub open spec fn mock_attr(attrs: Seq<Attribute>) -> Option<int> {
    first_with_id(attrs, "caironet"@)
}

pub open spec fn diag(i: int, kind: DiagnosticKind) -> Diagnostic {
    Diagnostic { attr_index: i as usize, kind }
}

/// A diagnostic on the attribute at `o`, where there is one.
pub open spec fn diag_at(o: Option<int>, kind: DiagnosticKind) -> Seq<Diagnostic> {
    match o {
        Some(i) => seq![diag(i, kind)],
        None => seq![],
    }
}

/// A diagnostic on the attribute at `o` where it has arguments.
pub open spec fn diag_if_args(attrs: Seq<Attribute>, o: Option<int>) -> Seq<Diagnostic> {
    match o {
        Some(i) => if attrs[i].args@.len() > 0 {
            seq![diag(i, DiagnosticKind::UnexpectedArguments)]
        } else {
            seq![]
        },
        None => seq![],
    }
}

/// Diagnostics on where the attributes stand: a test marker with arguments,
/// or test attributes on a function that is no test.
pub open spec fn placement_diagnostics(attrs: Seq<Attribute>) -> Seq<Diagnostic> {
    match test_attr(attrs) {
        Some(i) => diag_if_args(attrs, Some(i)),
        None => diag_at(ignore_attr(attrs), DiagnosticKind::OnlyOnTests) + diag_at(
            gas_attr(attrs),
            DiagnosticKind::OnlyOnTests,
        ) + diag_at(panic_attr(attrs), DiagnosticKind::OnlyOnTests),
    }
}

/// The literal of the arguments of `available_gas`, where they are a single
/// unnamed integer literal.
pub open spec fn gas_literal(args: Seq<AttributeArg>) -> Option<IntLiteral> {
    if args.len() == 1 && args[0].name is None {
        match args[0].value {
            ArgValue::Expr(Expr::Int(lit)) => Some(lit),
            _ => None,
        }
    } else {
        None
    }
}

pub open spec fn gas_diagnostics(attrs: Seq<Attribute>) -> Seq<Diagnostic> {
    match gas_attr(attrs) {
        Some(i) => if gas_literal(attrs[i].args@) is None {
            seq![diag(i, DiagnosticKind::ExpectedSingleValue)]
        } else {
            seq![]
        },
        None => seq![],
    }
}

/// The integer a literal expression stands for.
pub open spec fn expr_value(e: Expr) -> int {
    match e {
        Expr::Int(lit) => lit.value(),
        Expr::ShortString(s) => s.value.value(),
        Expr::Other => 0,
    }
}

/// Whether an expression is an integer or short-string literal.
pub open spec fn is_literal(e: Expr) -> bool {
    !(e is Other)
}

/// The expected panic values of the arguments of `should_panic`, where they
/// are a single argument `expected` holding a tuple of literals.
pub open spec fn panic_values(args: Seq<AttributeArg>) -> Option<Seq<Felt>> {
    if args.len() == 1 && (args[0].name matches Some(n) && n@ == "expected"@) {
        match args[0].value {
            ArgValue::Tuple(items) => if forall|k: int| 0 <= k < items@.len() ==> is_literal(#[trigger] items@[k]) {
                Some(items@.map_values(|e: Expr| felt_of(reduce(expr_value(e)))))
            } else {
                None
            },
            _ => None,
        }
    } else {
        None
    }
}

pub open spec fn panic_diagnostics(attrs: Seq<Attribute>) -> Seq<Diagnostic> {
    match panic_attr(attrs) {
        Some(i) => if attrs[i].args@.len() > 0 && panic_values(attrs[i].args@) is None {
            seq![diag(i, DiagnosticKind::ExpectedPanicTuple)]
        } else {
            seq![]
        },
        None => seq![],
    }
}

/// All diagnostics of a function's attributes, in order.
pub open spec fn extraction_diagnostics(attrs: Seq<Attribute>) -> Seq<Diagnostic> {
    placement_diagnostics(attrs) + diag_if_args(attrs, ignore_attr(attrs)) + gas_diagnostics(attrs)
        + panic_diagnostics(attrs)
}

/// The gas a test requests.
pub open spec fn gas_of(attrs: Seq<Attribute>) -> Option<usize> {
    match gas_attr(attrs) {
        Some(i) => match gas_literal(attrs[i].args@) {
            Some(lit) => usize_of(lit.value()),
            None => None,
        },
        None => None,
    }
}

/// The expectation of a test.
pub open spec fn expectation_of(attrs: Seq<Attribute>) -> ExpectationModel {
    match panic_attr(attrs) {
        None => ExpectationModel::Success,
        Some(i) => if attrs[i].args@.len() == 0 {
            ExpectationModel::PanicsAny
        } else {
            match panic_values(attrs[i].args@) {
                Some(v) => ExpectationModel::PanicsExact(v),
                None => ExpectationModel::PanicsAny,
            }
        },
    }
}

/// The last integer literal of a tuple.
pub open spec fn last_int(items: Seq<Expr>) -> Option<IntLiteral>
    decreases items.len(),
{
    if items.len() == 0 {
        None
    } else {
        match items.last() {
            Expr::Int(lit) => Some(lit),
            _ => last_int(items.drop_last()),
        }
    }
}

/// The text of the last short-string literal of a tuple.
pub open spec fn last_tag(items: Seq<Expr>) -> Option<Seq<char>>
    decreases items.len(),
{
    if items.len() == 0 {
        None
    } else {
        match items.last() {
            Expr::ShortString(s) => Some(s.text@),
            _ => last_tag(items.drop_last()),
        }
    }
}

/// The address and instance name that one argument of `caironet` declares:
/// `name: address` declares the single address of a contract, and
/// `name: (address, 'instance')` an address of one instance of it. Unnamed
/// arguments, and values without an integer literal, declare nothing.
pub open spec fn mock_declaration(arg: AttributeArg) -> Option<(Seq<char>, Option<Seq<char>>)> {
    if arg.name is None {
        None
    } else {
        match arg.value {
            ArgValue::Expr(Expr::Int(lit)) => Some((decimal_of(lit.value()), None)),
            ArgValue::Expr(_) => None,
            ArgValue::Tuple(items) => match last_int(items@) {
                Some(lit) => Some((decimal_of(lit.value()), last_tag(items@))),
                None => None,
            },
        }
    }
}

/// The mock table that the arguments of `caironet` declare, one after the
/// other.
pub open spec fn mock_table_of(args: Seq<AttributeArg>) -> Seq<(Seq<char>, MockModel)>
    decreases args.len(),
{
    if args.len() == 0 {
        seq![]
    } else {
        let t = mock_table_of(args.drop_last());
        match mock_declaration(args.last()) {
            Some((address, instance)) => apply_declaration(
                t,
                args.last().name.unwrap()@,
                address,
                instance,
            ),
            None => t,
        }
    }
}

/// The mocks a test declares.
pub open spec fn mocks_of(attrs: Seq<Attribute>) -> Seq<(Seq<char>, MockModel)> {
    match mock_attr(attrs) {
        Some(i) => mock_table_of(attrs[i].args@),
        None => seq![],
    }
}

pub open spec fn opt_int(o: Option<usize>) -> Option<int> {
    match o {
        Some(i) => Some(i as int),
        None => None,
    }
}

pub open spec fn opt_view(o: Option<String>) -> Option<Seq<char>> {
    match o {
        Some(s) => Some(s@),
        None => None,
    }
}

/// The position of the first attribute named `id`.
fn find_attr(attrs: &Vec<Attribute>, id: &str) -> (r: Option<usize>)
    ensures
        opt_int(r) == first_with_id(attrs@, id@),
        r matches Some(i) ==> i < attrs@.len(),
{
    let mut r: Option<usize> = None;
    let mut i: usize = 0;
    while i < attrs.len()
        invariant
            i <= attrs@.len(),
            opt_int(r) == first_with_id(attrs@.subrange(0, i as int), id@),
            r matches Some(j) ==> j < i,
        decreases attrs@.len() - i,
    {
        let ghost pre = attrs@.subrange(0, i as int);
        assert(attrs@.subrange(0, i + 1).drop_last() == pre);
        if r.is_none() && str_equals(attrs[i].id.as_str(), id) {
            r = Some(i);
        }
        i = i + 1;
    }
    assert(attrs@.subrange(0, attrs@.len() as int) == attrs@);
    r
}

/// The literal of the arguments of `available_gas`, where they are a single
/// unnamed integer literal.
fn find_gas_literal(args: &Vec<AttributeArg>) -> (r: Option<&IntLiteral>)
    ensures
        r matches Some(lit) ==> gas_literal(args@) == Some(*lit),
        r is None ==> gas_literal(args@) is None,
{
    if args.len() != 1 || args[0].name.is_some() {
        return None;
    }
    match &args[0].value {
        ArgValue::Expr(Expr::Int(lit)) => Some(lit),
        _ => None,
    }
}

/// The expected panic values of the arguments of `should_panic`.
fn extract_panic_values(args: &Vec<AttributeArg>) -> (r: Option<Vec<Felt>>)
    ensures
        r matches Some(v) ==> panic_values(args@) == Some(v@),
        r is None ==> panic_values(args@) is None,
{
    if args.len() != 1 {
        return None;
    }
    match &args[0].name {
        Some(n) => {
            if !str_equals(n.as_str(), "expected") {
                return None;
            }
        },
        None => {
            return None;
        },
    }
    let items = match &args[0].value {
        ArgValue::Tuple(items) => {
            assert(args@[0].value == ArgValue::Tuple(*items));
            items
        },
        _ => {
            return None;
        },
    };
    let ghost f = |e: Expr| felt_of(reduce(expr_value(e)));
    let mut v: Vec<Felt> = Vec::new();
    let mut k: usize = 0;
    while k < items.len()
        invariant
            args@.len() == 1,
            args@[0].name matches Some(n) && n@ == "expected"@,
            args@[0].value == ArgValue::Tuple(*items),
            f == (|e: Expr| felt_of(reduce(expr_value(e)))),
            k <= items@.len(),
            v@ == items@.subrange(0, k as int).map_values(f),
            forall|j: int| 0 <= j < k ==> is_literal(#[trigger] items@[j]),
        decreases items@.len() - k,
    {
        let felt = match &items[k] {
            Expr::Int(lit) => {
                assert(items@[k as int] == Expr::Int(*lit));
                assert(expr_value(items@[k as int]) == lit.value());
                lit.to_felt()
            },
            Expr::ShortString(s) => {
                assert(expr_value(items@[k as int]) == s.value.value());
                s.value.to_felt()
            },
            Expr::Other => {
                assert(!is_literal(items@[k as int]));
                return None;
            },
        };
        assert(felt == f(items@[k as int]));
        assert(is_literal(items@[k as int]));
        v.push(felt);
        assert(v@ =~= items@.subrange(0, k + 1).map_values(f));
        k = k + 1;
    }
    assert(items@.subrange(0, items@.len() as int) == items@);
    Some(v)
}

/// The address and instance name that one argument of `caironet` declares.
fn find_mock_declaration(arg: &AttributeArg) -> (r: Option<(String, Option<String>)>)
    ensures
        r matches Some(d) ==> mock_declaration(*arg) == Some((d.0@, opt_view(d.1))),
        r is None ==> mock_declaration(*arg) is None,
{
    if arg.name.is_none() {
        return None;
    }
    match &arg.value {
        ArgValue::Expr(Expr::Int(lit)) => Some((lit.to_decimal(), None)),
        ArgValue::Expr(_) => None,
        ArgValue::Tuple(items) => {
            let mut address: Option<&IntLiteral> = None;
            let mut tag: Option<&String> = None;
            let mut k: usize = 0;
            while k < items.len()
                invariant
                    arg.name is Some,
                    arg.value == ArgValue::Tuple(*items),
                    k <= items@.len(),
                    match address {
                        Some(lit) => last_int(items@.subrange(0, k as int)) == Some(*lit),
                        None => last_int(items@.subrange(0, k as int)) is None,
                    },
                    match tag {
                        Some(t) => last_tag(items@.subrange(0, k as int)) == Some(t@),
                        None => last_tag(items@.subrange(0, k as int)) is None,
                    },
                decreases items@.len() - k,
            {
                let ghost pre = items@.subrange(0, k as int);
                assert(items@.subrange(0, k + 1).drop_last() == pre);
                match &items[k] {
                    Expr::Int(lit) => {
                        address = Some(lit);
                    },
                    Expr::ShortString(s) => {
                        tag = Some(&s.text);
                    },
                    Expr::Other => {},
                }
                k = k + 1;
            }
            assert(items@.subrange(0, items@.len() as int) == items@);
            match address {
                Some(lit) => {
                    let instance = match tag {
                        Some(t) => Some(t.clone()),
                        None => None,
                    };
                    Some((lit.to_decimal(), instance))
                },
                None => None,
            }
        },
    }
}

/// The mock table that the arguments of `caironet` declare.
fn extract_caironet_mappings(args: &Vec<AttributeArg>) -> (r: MockTable)
    ensures
        r.wf(),
        r.model() == mock_table_of(args@),
{
    let mut table = MockTable::new();
    let mut k: usize = 0;
    while k < args.len()
        invariant
            k <= args@.len(),
            table.wf(),
            table.model() == mock_table_of(args@.subrange(0, k as int)),
        decreases args@.len() - k,
    {
        let ghost pre = args@.subrange(0, k as int);
        assert(args@.subrange(0, k + 1).drop_last() == pre);
        match find_mock_declaration(&args[k]) {
            Some((address, instance)) => {
                let name = match &args[k].name {
                    Some(n) => n.clone(),
                    None => String::new(),
                };
                table.declare(name, address, instance);
            },
            None => {},
        }
        k = k + 1;
    }
    assert(args@.subrange(0, args@.len() as int) == args@);
    table
}

/// Extracts the configuration of a test from the attributes of a function,
/// or returns the diagnostics of attributes that are set illegally.
pub fn try_extract_test_config(attrs: Vec<Attribute>) -> (r: Result<Option<TestConfig>, Vec<Diagnostic>>)
    ensures
        r is Err <==> extraction_diagnostics(attrs@).len() > 0,
        r matches Err(d) ==> d@ == extraction_diagnostics(attrs@),
        r matches Ok(c) ==> (c is Some <==> test_attr(attrs@) is Some),
        r matches Ok(Some(c)) ==> {
            &&& c.available_gas == gas_of(attrs@)
            &&& c.expectation.model() == expectation_of(attrs@)
            &&& c.ignored == ignore_attr(attrs@) is Some
            &&& c.mocks.wf()
            &&& c.mocks.model() == mocks_of(attrs@)
        },
        test_attr(attrs@) is None && ignore_attr(attrs@) is Some ==> r is Err,
        gas_attr(attrs@) matches Some(i) && attrs@[i].args@.len() != 1 ==> r is Err,
        gas_attr(attrs@) matches Some(i) && gas_literal(attrs@[i].args@) is None ==> r is Err,
{
    let test = find_attr(&attrs, "test");
    let ignore = find_attr(&attrs, "ignore");
    let gas = find_attr(&attrs, "available_gas");
    let panic = find_attr(&attrs, "should_panic");
    let mock = find_attr(&attrs, "caironet");

    let mut diagnostics: Vec<Diagnostic> = Vec::new();
    match test {
        Some(i) => {
            if attrs[i].args.len() > 0 {
                diagnostics.push(Diagnostic { attr_index: i, kind: DiagnosticKind::UnexpectedArguments });
            }
        },
        None => {
            if let Some(i) = ignore {
                diagnostics.push(Diagnostic { attr_index: i, kind: DiagnosticKind::OnlyOnTests });
            }
            assert(diagnostics@ =~= diag_at(ignore_attr(attrs@), DiagnosticKind::OnlyOnTests));
            if let Some(i) = gas {
                diagnostics.push(Diagnostic { attr_index: i, kind: DiagnosticKind::OnlyOnTests });
            }
            assert(diagnostics@ =~= diag_at(ignore_attr(attrs@), DiagnosticKind::OnlyOnTests)
                + diag_at(gas_attr(attrs@), DiagnosticKind::OnlyOnTests));
            if let Some(i) = panic {
                diagnostics.push(Diagnostic { attr_index: i, kind: DiagnosticKind::OnlyOnTests });
            }
        },
    }
    assert(diagnostics@ =~= placement_diagnostics(attrs@));
    let ghost d1 = diagnostics@;

    let ignored = match ignore {
        Some(i) => {
            if attrs[i].args.len() > 0 {
                diagnostics.push(Diagnostic { attr_index: i, kind: DiagnosticKind::UnexpectedArguments });
            }
            true
        },
        None => false,
    };
    assert(diagnostics@ =~= d1 + diag_if_args(attrs@, ignore_attr(attrs@)));
    let ghost d2 = diagnostics@;

    let available_gas = match gas {
        Some(i) => match find_gas_literal(&attrs[i].args) {
            Some(lit) => lit.to_usize(),
            None => {
                diagnostics.push(Diagnostic { attr_index: i, kind: DiagnosticKind::ExpectedSingleValue });
                None
            },
        },
        None => None,
    };
    assert(diagnostics@ =~= d2 + gas_diagnostics(attrs@));
    let ghost d3 = diagnostics@;

    let expectation = match panic {
        Some(i) => {
            if attrs[i].args.len() == 0 {
                TestExpectation::Panics(PanicExpectation::Any)
            } else {
                match extract_panic_values(&attrs[i].args) {
                    Some(values) => TestExpectation::Panics(PanicExpectation::Exact(values)),
                    None => {
                        diagnostics.push(Diagnostic { attr_index: i, kind: DiagnosticKind::ExpectedPanicTuple });
                        TestExpectation::Panics(PanicExpectation::Any)
                    },
                }
            }
        },
        None => TestExpectation::Success,
    };
    assert(diagnostics@ =~= d3 + panic_diagnostics(attrs@));

    let mocks = match mock {
        Some(i) => extract_caironet_mappings(&attrs[i].args),
        None => MockTable::new(),
    };

    if diagnostics.len() > 0 {
        return Err(diagnostics);
    }
    match test {
        None => Ok(None),
        Some(_) => Ok(Some(TestConfig { available_gas, expectation, ignored, mocks })),
    }
}

} // verus!
