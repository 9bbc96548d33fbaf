//! Test verdicts, the selection of the tests to run, and the summary of a run.
use vstd::prelude::*;

use crate::felt::Felt;
use crate::test_config::{ExpectationModel, TestConfig, TestExpectation};
use crate::text::{contains, contains_seq};

verus! {

broadcast use vstd::seq_lib::group_to_multiset_ensures;

/// The outcome of running a test function.
pub enum RunResultValue {
    /// The function returned these values.
    Success(Vec<Felt>),
    /// The function panicked with these values.
    Panic(Vec<Felt>),
}

/// The status of a test after its run.
pub enum TestStatus {
    Success,
    Fail(RunResultValue),
    Ignore,
}

/// The kind of a status, without the outcome of a failure.
#[derive(Clone, Copy, Debug, PartialEq, Eq, Structural)]
pub enum StatusKind {
    Passed,
    Failed,
    Ignored,
}

pub open spec fn kind_of(s: TestStatus) -> StatusKind {
    match s {
        TestStatus::Success => StatusKind::Passed,
        TestStatus::Fail(_) => StatusKind::Failed,
        TestStatus::Ignore => StatusKind::Ignored,
    }
}

/// Whether an outcome meets an expectation: a test that should succeed must
/// return, one that should panic must panic, with exactly the expected values
/// where they are given.
pub open spec fn passes(expectation: ExpectationModel, outcome: RunResultValue) -> bool {
    match outcome {
        RunResultValue::Success(_) => expectation is Success,
        RunResultValue::Panic(values) => match expectation {
            ExpectationModel::Success => false,
            ExpectationModel::PanicsAny => true,
            ExpectationModel::PanicsExact(expected) => values@ == expected,
        },
    }
}

/// Whether two sequences of field elements are equal.
fn felts_equal(a: &Vec<Felt>, b: &Vec<Felt>) -> (r: bool)
    ensures
        r == (a@ == b@),
{
    if a.len() != b.len() {
        return false;
    }
    let mut i: usize = 0;
    while i < a.len()
        invariant
            a@.len() == b@.len(),
            i <= a@.len(),
            forall|j: int| 0 <= j < i ==> a@[j] == b@[j],
        decreases a@.len() - i,
    {
        if a[i] != b[i] {
            return false;
        }
        i = i + 1;
    }
    assert(a@ =~= b@);
    true
}

/// The status of a test that ran, from its expectation and its outcome.
pub fn test_status(expectation: &TestExpectation, result: RunResultValue) -> (r: TestStatus)
    ensures
        passes(expectation.model(), result) ==> r == TestStatus::Success,
        !passes(expectation.model(), result) ==> r == TestStatus::Fail(result),
{
    let pass = match &result {
        RunResultValue::Success(_) => match expectation {
            TestExpectation::Success => true,
            TestExpectation::Panics(_) => false,
        },
        RunResultValue::Panic(values) => match expectation {
            TestExpectation::Success => false,
            TestExpectation::Panics(crate::test_config::PanicExpectation::Any) => true,
            TestExpectation::Panics(crate::test_config::PanicExpectation::Exact(expected)) => felts_equal(
                values,
                expected,
            ),
        },
    };
    if pass {
        TestStatus::Success
    } else {
        TestStatus::Fail(result)
    }
}

/// Summary data of the tests that ran.
pub struct TestsSummary {
    pub passed: Vec<String>,
    pub failed: Vec<String>,
    pub ignored: Vec<String>,
    pub failed_run_results: Vec<RunResultValue>,
}

pub open spec fn names_view(v: Seq<String>) -> Seq<Seq<char>> {
    v.map_values(|s: String| s@)
}

/// The names of the results of kind `k`, in order.
pub open spec fn names_with(rs: Seq<(String, TestStatus)>, k: StatusKind) -> Seq<Seq<char>>
    decreases rs.len(),
{
    if rs.len() == 0 {
        seq![]
    } else {
        let prev = names_with(rs.drop_last(), k);
        if kind_of(rs.last().1) == k {
            prev.push(rs.last().0@)
        } else {
            prev
        }
    }
}

/// The outcomes of the failed results, in order.
pub open spec fn failures_of(rs: Seq<(String, TestStatus)>) -> Seq<RunResultValue>
    decreases rs.len(),
{
    if rs.len() == 0 {
        seq![]
    } else {
        let prev = failures_of(rs.drop_last());
        match rs.last().1 {
            TestStatus::Fail(v) => prev.push(v),
            _ => prev,
        }
    }
}

/// The number of results of kind `k`.
pub open spec fn count_kind(rs: Seq<(String, TestStatus)>, k: StatusKind) -> nat
    decreases rs.len(),
{
    if rs.len() == 0 {
        0
    } else {
        count_kind(rs.drop_last(), k) + if kind_of(rs.last().1) == k {
            1nat
        } else {
            0nat
        }
    }
}

impl TestsSummary {
    /// Each failed test has its outcome.
    pub open spec fn wf(&self) -> bool {
        self.failed@.len() == self.failed_run_results@.len()
    }

    /// The summary of no test.
    pub fn new() -> (r: TestsSummary)
        ensures
            r.wf(),
            r.passed@.len() == 0,
            r.failed@.len() == 0,
            r.ignored@.len() == 0,
    {
        TestsSummary { passed: Vec::new(), failed: Vec::new(), ignored: Vec::new(), failed_run_results: Vec::new() }
    }

    /// Records the status of one test.
    pub fn record(&mut self, name: String, status: TestStatus)
        requires
            old(self).wf(),
        ensures
            final(self).wf(),
            final(self).passed@ == if status is Success {
                old(self).passed@.push(name)
            } else {
                old(self).passed@
            },
            final(self).ignored@ == if status is Ignore {
                old(self).ignored@.push(name)
            } else {
                old(self).ignored@
            },
            final(self).failed@ == if status is Fail {
                old(self).failed@.push(name)
            } else {
                old(self).failed@
            },
            final(self).failed_run_results@ == match status {
                TestStatus::Fail(v) => old(self).failed_run_results@.push(v),
                _ => old(self).failed_run_results@,
            },
    {
        match status {
            TestStatus::Success => self.passed.push(name),
            TestStatus::Fail(v) => {
                self.failed_run_results.push(v);
                self.failed.push(name);
            },
            TestStatus::Ignore => self.ignored.push(name),
        }
    }
}

proof fn lemma_names_count(rs: Seq<(String, TestStatus)>, k: StatusKind)
    ensures
        names_with(rs, k).len() == count_kind(rs, k),
    decreases rs.len(),
{
    if rs.len() > 0 {
        lemma_names_count(rs.drop_last(), k);
    }
}

/// Builds the summary of the results of a run, in the order they came in.
pub fn summarize(results: Vec<(String, TestStatus)>) -> (r: TestsSummary)
    ensures
        r.wf(),
        names_view(r.passed@) == names_with(results@, StatusKind::Passed),
        names_view(r.failed@) == names_with(results@, StatusKind::Failed),
        names_view(r.ignored@) == names_with(results@, StatusKind::Ignored),
        r.failed_run_results@ == failures_of(results@),
        r.passed@.len() == count_kind(results@, StatusKind::Passed),
        r.failed@.len() == count_kind(results@, StatusKind::Failed),
        r.ignored@.len() == count_kind(results@, StatusKind::Ignored),
{
    let ghost all = results@;
    let mut rest = results;
    let mut summary = TestsSummary::new();
    let ghost mut k: int = 0;
    assert(all.subrange(0, 0) =~= Seq::<(String, TestStatus)>::empty());
    assert(names_view(summary.passed@) =~= Seq::<Seq<char>>::empty());
    assert(names_view(summary.failed@) =~= Seq::<Seq<char>>::empty());
    assert(names_view(summary.ignored@) =~= Seq::<Seq<char>>::empty());
    while rest.len() > 0
        invariant
            0 <= k <= all.len(),
            rest@ == all.subrange(k, all.len() as int),
            summary.wf(),
            names_view(summary.passed@) == names_with(all.subrange(0, k), StatusKind::Passed),
            names_view(summary.failed@) == names_with(all.subrange(0, k), StatusKind::Failed),
            names_view(summary.ignored@) == names_with(all.subrange(0, k), StatusKind::Ignored),
            summary.failed_run_results@ == failures_of(all.subrange(0, k)),
        decreases rest@.len(),
    {
        let (name, status) = rest.remove(0);
        let ghost prefix = all.subrange(0, k + 1);
        assert(prefix.drop_last() == all.subrange(0, k));
        assert(prefix.last() == all[k]);
        assert(all[k] == (name, status));
        let ghost before = summary;
        summary.record(name, status);
        assert(names_view(summary.passed@) =~= names_with(prefix, StatusKind::Passed));
        assert(names_view(summary.failed@) =~= names_with(prefix, StatusKind::Failed));
        assert(names_view(summary.ignored@) =~= names_with(prefix, StatusKind::Ignored));
        proof {
            k = k + 1;
        }
        assert(rest@ =~= all.subrange(k, all.len() as int));
    }
    assert(all.subrange(0, all.len() as int) == all);
    proof {
        lemma_names_count(all, StatusKind::Passed);
        lemma_names_count(all, StatusKind::Failed);
        lemma_names_count(all, StatusKind::Ignored);
    }
    summary
}

proof fn lemma_count_remove(rs: Seq<(String, TestStatus)>, i: int, k: StatusKind)
    requires
        0 <= i < rs.len(),
    ensures
        count_kind(rs, k) == count_kind(rs.remove(i), k) + if kind_of(rs[i].1) == k {
            1nat
        } else {
            0nat
        },
    decreases rs.len(),
{
    if i == rs.len() - 1 {
        assert(rs.remove(i) =~= rs.drop_last());
    } else {
        assert(rs.remove(i).drop_last() =~= rs.drop_last().remove(i));
        assert(rs.remove(i).last() == rs.last());
        lemma_count_remove(rs.drop_last(), i, k);
    }
}

/// The counts of a summary do not depend on the order in which the results
/// came in: two orders of the same results count as many tests of each kind.
pub proof fn lemma_counts_independent_of_order(
    a: Seq<(String, TestStatus)>,
    b: Seq<(String, TestStatus)>,
    k: StatusKind,
)
    requires
        a.to_multiset() == b.to_multiset(),
    ensures
        count_kind(a, k) == count_kind(b, k),
    decreases a.len(),
{
    if a.len() == 0 {
        assert(b.to_multiset().len() == 0);
        assert(b.len() == 0);
    } else {
        let x = a.last();
        assert(a == a.drop_last().push(x));
        assert(a.to_multiset() == a.drop_last().to_multiset().insert(x));
        assert(b.to_multiset().count(x) > 0);
        assert(b.contains(x));
        let i = choose|i: int| 0 <= i < b.len() && b[i] == x;
        assert(b.remove(i).to_multiset() == b.to_multiset().remove(x));
        assert(a.drop_last().to_multiset() =~= b.remove(i).to_multiset());
        lemma_counts_independent_of_order(a.drop_last(), b.remove(i), k);
        lemma_count_remove(b, i, k);
    }
}

/// Every result is counted once, as passed, failed or ignored.
pub proof fn lemma_counts_cover_results(rs: Seq<(String, TestStatus)>)
    ensures
        count_kind(rs, StatusKind::Passed) + count_kind(rs, StatusKind::Failed) + count_kind(
            rs,
            StatusKind::Ignored,
        ) == rs.len(),
    decreases rs.len(),
{
    if rs.len() > 0 {
        lemma_counts_cover_results(rs.drop_last());
    }
}

/// Whether a test takes part in a run: its name contains the filter, and in
/// ignored-only mode it is still ignored once include-ignored mode has
/// cleared the ignored flags.
pub open spec fn is_scheduled(
    name: Seq<char>,
    ignored: bool,
    filter: Seq<char>,
    include_ignored: bool,
    ignored_only: bool,
) -> bool {
    contains_seq(name, filter) && (!ignored_only || (ignored && !include_ignored))
}

/// The tests that take part in a run, in order, with the ignored flags
/// cleared in include-ignored mode.
pub open spec fn scheduled_tests(
    tests: Seq<(String, TestConfig)>,
    filter: Seq<char>,
    include_ignored: bool,
    ignored_only: bool,
) -> Seq<(String, TestConfig)>
    decreases tests.len(),
{
    if tests.len() == 0 {
        seq![]
    } else {
        let prev = scheduled_tests(tests.drop_last(), filter, include_ignored, ignored_only);
        let (name, config) = tests.last();
        if is_scheduled(name@, config.ignored, filter, include_ignored, ignored_only) {
            prev.push(
                (
                    name,
                    TestConfig {
                        available_gas: config.available_gas,
                        expectation: config.expectation,
                        ignored: config.ignored && !include_ignored,
                        mocks: config.mocks,
                    },
                ),
            )
        } else {
            prev
        }
    }
}

proof fn lemma_scheduled_len(
    tests: Seq<(String, TestConfig)>,
    filter: Seq<char>,
    include_ignored: bool,
    ignored_only: bool,
)
    ensures
        scheduled_tests(tests, filter, include_ignored, ignored_only).len() <= tests.len(),
    decreases tests.len(),
{
    if tests.len() > 0 {
        lemma_scheduled_len(tests.drop_last(), filter, include_ignored, ignored_only);
    }
}

/// Selects the tests of a run: those whose name contains `filter`; in
/// include-ignored mode with their ignored flag cleared; in ignored-only mode
/// only those still ignored. Returns them with the number filtered out.
pub fn filter_tests(
    tests: Vec<(String, TestConfig)>,
    filter: &str,
    include_ignored: bool,
    ignored_only: bool,
) -> (r: (Vec<(String, TestConfig)>, usize))
    ensures
        r.0@ == scheduled_tests(tests@, filter@, include_ignored, ignored_only),
        r.0@.len() + r.1 == tests@.len(),
{
    let ghost all = tests@;
    let total = tests.len();
    let mut rest = tests;
    let mut kept: Vec<(String, TestConfig)> = Vec::new();
    let ghost mut k: int = 0;
    while rest.len() > 0
        invariant
            0 <= k <= all.len(),
            total == all.len(),
            rest@ == all.subrange(k, all.len() as int),
            kept@ == scheduled_tests(all.subrange(0, k), filter@, include_ignored, ignored_only),
        decreases rest@.len(),
    {
        let (name, mut config) = rest.remove(0);
        let ghost prefix = all.subrange(0, k + 1);
        assert(prefix.drop_last() == all.subrange(0, k));
        assert(prefix.last() == all[k]);
        let ghost was_ignored = config.ignored;
        if include_ignored {
            config.ignored = false;
        }
        if contains(name.as_str(), filter) && (!ignored_only || config.ignored) {
            kept.push((name, config));
        }
        proof {
            k = k + 1;
        }
        assert(rest@ =~= all.subrange(k, all.len() as int));
    }
    assert(all.subrange(0, all.len() as int) == all);
    proof {
        lemma_scheduled_len(all, filter@, include_ignored, ignored_only);
    }
    let filtered_out = total - kept.len();
    (kept, filtered_out)
}

/// The number of tests whose name contains the filter.
pub open spec fn count_matching(tests: Seq<(String, TestConfig)>, filter: Seq<char>) -> nat
    decreases tests.len(),
{
    if tests.len() == 0 {
        0
    } else {
        count_matching(tests.drop_last(), filter) + if contains_seq(tests.last().0@, filter) {
            1nat
        } else {
            0nat
        }
    }
}

/// The number of tests that are marked ignored.
pub open spec fn count_ignored(tests: Seq<(String, TestConfig)>) -> nat
    decreases tests.len(),
{
    if tests.len() == 0 {
        0
    } else {
        count_ignored(tests.drop_last()) + if tests.last().1.ignored {
            1nat
        } else {
            0nat
        }
    }
}

/// Filtering by name keeps only tests whose name contains the filter, and
/// outside ignored-only mode it keeps each of them: the tests filtered out
/// are exactly those whose name lacks the filter.
pub proof fn lemma_filter_by_name(
    tests: Seq<(String, TestConfig)>,
    filter: Seq<char>,
    include_ignored: bool,
    ignored_only: bool,
)
    ensures
        forall|i: int|
            0 <= i < scheduled_tests(tests, filter, include_ignored, ignored_only).len()
                ==> contains_seq(
                #[trigger] scheduled_tests(tests, filter, include_ignored, ignored_only)[i].0@,
                filter,
            ),
        !ignored_only ==> scheduled_tests(tests, filter, include_ignored, ignored_only).len()
            == count_matching(tests, filter),
    decreases tests.len(),
{
    if tests.len() > 0 {
        lemma_filter_by_name(tests.drop_last(), filter, include_ignored, ignored_only);
        let prev = scheduled_tests(tests.drop_last(), filter, include_ignored, ignored_only);
        let all = scheduled_tests(tests, filter, include_ignored, ignored_only);
        assert forall|i: int| 0 <= i < all.len() implies contains_seq(#[trigger] all[i].0@, filter) by {
            if i < prev.len() {
                assert(all[i] == prev[i]);
            }
        }
    }
}

/// The kind of status a test gets in a run where, if it runs, it has
/// `outcome`: an ignored test is not run and is ignored; any other passes
/// exactly when its outcome meets its expectation.
pub open spec fn run_kind(config: TestConfig, outcome: RunResultValue) -> StatusKind {
    if config.ignored {
        StatusKind::Ignored
    } else if passes(config.expectation.model(), outcome) {
        StatusKind::Passed
    } else {
        StatusKind::Failed
    }
}

/// The status of a test before it runs: an ignored test is recorded as
/// ignored and not run; any other has to run.
pub fn status_before_run(config: &TestConfig) -> (r: Option<TestStatus>)
    ensures
        r is Some <==> config.ignored,
        r matches Some(s) ==> s is Ignore,
{
    if config.ignored {
        Some(TestStatus::Ignore)
    } else {
        None
    }
}

/// The number of tests that run and whose outcome misses their expectation.
pub open spec fn count_failing(tests: Seq<(String, TestConfig)>, outcomes: Seq<RunResultValue>) -> nat
    decreases tests.len(),
{
    if tests.len() == 0 {
        0
    } else {
        count_failing(tests.drop_last(), outcomes.drop_last()) + if run_kind(tests.last().1, outcomes.last())
            == StatusKind::Failed {
            1nat
        } else {
            0nat
        }
    }
}

/// Whether `results` are the statuses of `tests` in the same order, each the
/// status that `status_before_run` and `test_status` give the test when, if
/// it runs, its outcome is the one in `outcomes`.
pub open spec fn statuses_of(
    tests: Seq<(String, TestConfig)>,
    outcomes: Seq<RunResultValue>,
    results: Seq<(String, TestStatus)>,
) -> bool {
    &&& results.len() == tests.len()
    &&& outcomes.len() == tests.len()
    &&& forall|i: int|
        0 <= i < tests.len() ==> (#[trigger] results[i]).0@ == tests[i].0@ && kind_of(results[i].1)
            == run_kind(tests[i].1, outcomes[i])
}

proof fn lemma_statuses_counts(
    tests: Seq<(String, TestConfig)>,
    outcomes: Seq<RunResultValue>,
    results: Seq<(String, TestStatus)>,
)
    requires
        statuses_of(tests, outcomes, results),
    ensures
        count_kind(results, StatusKind::Ignored) == count_ignored(tests),
        count_kind(results, StatusKind::Failed) == count_failing(tests, outcomes),
    decreases tests.len(),
{
    if tests.len() > 0 {
        let (t, o, r) = (tests.drop_last(), outcomes.drop_last(), results.drop_last());
        assert(statuses_of(t, o, r)) by {
            assert forall|i: int| 0 <= i < t.len() implies (#[trigger] r[i]).0@ == t[i].0@ && kind_of(r[i].1)
                == run_kind(t[i].1, o[i]) by {
                assert(r[i] == results[i]);
            }
        }
        lemma_statuses_counts(t, o, r);
        assert(results.last() == results[results.len() - 1]);
    }
}

/// For the tests scheduled in a run, each given the status that
/// `status_before_run` and `test_status` give it, and whatever order the
/// results come back in: the summary counts as ignored the ignored tests, as
/// failed the tests whose outcome misses their expectation, and as passed the
/// rest; with the tests filtered out these make up every discovered test.
pub proof fn lemma_summary_accounts_for_every_test(
    tests: Seq<(String, TestConfig)>,
    filter: Seq<char>,
    include_ignored: bool,
    ignored_only: bool,
    outcomes: Seq<RunResultValue>,
    in_order: Seq<(String, TestStatus)>,
    results: Seq<(String, TestStatus)>,
    filtered_out: nat,
)
    requires
        statuses_of(scheduled_tests(tests, filter, include_ignored, ignored_only), outcomes, in_order),
        results.to_multiset() == in_order.to_multiset(),
        filtered_out + scheduled_tests(tests, filter, include_ignored, ignored_only).len() == tests.len(),
    ensures
        ({
            let sched = scheduled_tests(tests, filter, include_ignored, ignored_only);
            &&& count_kind(results, StatusKind::Ignored) == count_ignored(sched)
            &&& count_kind(results, StatusKind::Failed) == count_failing(sched, outcomes)
            &&& count_kind(results, StatusKind::Passed) + count_failing(sched, outcomes) + count_ignored(sched)
                == sched.len()
            &&& count_kind(results, StatusKind::Passed) + count_kind(results, StatusKind::Failed)
                + count_kind(results, StatusKind::Ignored) + filtered_out == tests.len()
        }),
{
    let sched = scheduled_tests(tests, filter, include_ignored, ignored_only);
    lemma_statuses_counts(sched, outcomes, in_order);
    lemma_counts_independent_of_order(results, in_order, StatusKind::Ignored);
    lemma_counts_independent_of_order(results, in_order, StatusKind::Failed);
    lemma_counts_cover_results(results);
    assert(results.to_multiset().len() == results.len());
    assert(in_order.to_multiset().len() == in_order.len());
}

} // verus!
