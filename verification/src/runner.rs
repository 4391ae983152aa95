use crate::compare::MatchResult;
use crate::errors::CaptiError;
use crate::suite::{StepOutcome, Suite};
use vstd::prelude::*;

verus! {

/// The per-suite aggregate: how many steps ran and how each ended.
/// Created fresh per run, merged additively by the runner across suites.
#[derive(Debug, Clone, Copy, PartialEq, Eq)]
pub struct RunReport {
    pub total_tests: u64,
    pub passed: u64,
    pub failed: u64,
    pub errors: u64,
}

/// The sum of `f` over a sequence of reports.
pub open spec fn sum_by(s: Seq<RunReport>, f: spec_fn(RunReport) -> int) -> int
    decreases s.len(),
{
    if s.len() == 0 {
        0
    } else {
        f(s[0]) + sum_by(s.drop_first(), f)
    }
}

/// Removing one element splits the sum.
pub proof fn lemma_sum_by_remove(s: Seq<RunReport>, i: int, f: spec_fn(RunReport) -> int)
    requires
        0 <= i < s.len(),
    ensures
        sum_by(s, f) == f(s[i]) + sum_by(s.remove(i), f),
    decreases i,
{
    if i == 0 {
        assert(s.remove(0) =~= s.drop_first());
    } else {
        lemma_sum_by_remove(s.drop_first(), i - 1, f);
        assert(s.remove(i).drop_first() =~= s.drop_first().remove(i - 1));
        assert(s.remove(i)[0] == s[0]);
    }
}

/// The sum over a sequence depends only on which reports it holds, not on
/// their order: two sequences with equal multisets have equal sums.
pub proof fn lemma_sum_by_permutation(
    s1: Seq<RunReport>,
    s2: Seq<RunReport>,
    f: spec_fn(RunReport) -> int,
)
    requires
        s1.to_multiset() == s2.to_multiset(),
    ensures
        sum_by(s1, f) == sum_by(s2, f),
    decreases s1.len(),
{
    broadcast use vstd::seq_lib::group_to_multiset_ensures;

    if s1.len() == 0 {
        assert(s2.to_multiset().len() == 0);
        assert(s2.len() == 0);
    } else {
        let x = s1[0];
        assert(s1.to_multiset().count(x) > 0);
        assert(s2.contains(x));
        let j = choose|j: int| 0 <= j < s2.len() && s2[j] == x;
        assert(s1.drop_first() =~= s1.remove(0));
        assert(s1.remove(0).to_multiset() =~= s1.to_multiset().remove(x));
        assert(s2.remove(j).to_multiset() =~= s2.to_multiset().remove(x));
        lemma_sum_by_permutation(s1.drop_first(), s2.remove(j), f);
        lemma_sum_by_remove(s2, j, f);
    }
}

/// Sums are nonnegative when `f` is.
pub proof fn lemma_sum_by_nonneg(s: Seq<RunReport>, f: spec_fn(RunReport) -> int)
    requires
        forall|r: RunReport| #[trigger] f(r) >= 0,
    ensures
        sum_by(s, f) >= 0,
    decreases s.len(),
{
    if s.len() > 0 {
        lemma_sum_by_nonneg(s.drop_first(), f);
    }
}

/// The total of a report sequence, per field.
pub open spec fn sum_totals(s: Seq<RunReport>) -> int {
    sum_by(s, |r: RunReport| r.total_tests as int)
}

pub open spec fn sum_passed(s: Seq<RunReport>) -> int {
    sum_by(s, |r: RunReport| r.passed as int)
}

pub open spec fn sum_failed(s: Seq<RunReport>) -> int {
    sum_by(s, |r: RunReport| r.failed as int)
}

pub open spec fn sum_errors(s: Seq<RunReport>) -> int {
    sum_by(s, |r: RunReport| r.errors as int)
}

/// The runner's summary is order-independent: for any rearrangement of the
/// same per-suite reports, the four summary sums are identical.
pub proof fn lemma_summary_order_independent(s1: Seq<RunReport>, s2: Seq<RunReport>)
    requires
        s1.to_multiset() == s2.to_multiset(),
    ensures
        sum_totals(s1) == sum_totals(s2),
        sum_passed(s1) == sum_passed(s2),
        sum_failed(s1) == sum_failed(s2),
        sum_errors(s1) == sum_errors(s2),
{
    lemma_sum_by_permutation(s1, s2, |r: RunReport| r.total_tests as int);
    lemma_sum_by_permutation(s1, s2, |r: RunReport| r.passed as int);
    lemma_sum_by_permutation(s1, s2, |r: RunReport| r.failed as int);
    lemma_sum_by_permutation(s1, s2, |r: RunReport| r.errors as int);
}

impl RunReport {
    /// Consistency: every counted step ended in exactly one of the three
    /// terminal states.
    pub open spec fn wf(self) -> bool {
        self.total_tests == self.passed + self.failed + self.errors
    }

    /// An empty report.
    pub fn new() -> (r: RunReport)
        ensures
            r.wf(),
            r.total_tests == 0,
            r.passed == 0,
            r.failed == 0,
            r.errors == 0,
    {
        RunReport { total_tests: 0, passed: 0, failed: 0, errors: 0 }
    }

    /// Folds one step outcome into the report: the total always counts the
    /// step, and exactly one of passed / failed / errors counts it too.
    pub fn record(&mut self, outcome: &StepOutcome)
        requires
            old(self).wf(),
            old(self).total_tests < u64::MAX,
        ensures
            final(self).wf(),
            final(self).total_tests == old(self).total_tests + 1,
            final(self).passed == old(self).passed + (if outcome is Passed {
                1int
            } else {
                0int
            }),
            final(self).failed == old(self).failed + (if outcome is Failed {
                1int
            } else {
                0int
            }),
            final(self).errors == old(self).errors + (if outcome is Errored {
                1int
            } else {
                0int
            }),
    {
        self.total_tests = self.total_tests + 1;
        match outcome {
            StepOutcome::Passed => {
                self.passed = self.passed + 1;
            },
            StepOutcome::Failed(_) => {
                self.failed = self.failed + 1;
            },
            StepOutcome::Errored(_) => {
                self.errors = self.errors + 1;
            },
        }
    }

    /// Whether the run it describes was clean: no failures and no errors.
    /// The process exit status is non-zero exactly when this is false.
    pub fn is_success(&self) -> (r: bool)
        ensures
            r == (self.failed == 0 && self.errors == 0),
    {
        self.failed == 0 && self.errors == 0
    }
}

/// Classifies the result of one comparison as a step outcome: a mismatch
/// is a normal `Failed` outcome, never an error.
pub fn outcome_of_match(r: MatchResult) -> (o: StepOutcome)
    ensures
        (o is Passed) <==> (r is Pass),
        o matches StepOutcome::Failed(fs) ==> r == MatchResult::Fail(fs),
        !(o is Errored),
{
    match r {
        MatchResult::Pass => StepOutcome::Passed,
        MatchResult::Fail(fs) => StepOutcome::Failed(fs),
    }
}

/// Classifies a step-level error (substitution or transport) as an errored
/// outcome.
pub fn outcome_of_error(e: CaptiError) -> (o: StepOutcome)
    ensures
        o is Errored,
{
    StepOutcome::Errored(e)
}

/// Drives a whole run: holds the suites that were discovered and folds
/// their reports into one summary. Discovery, HTTP dispatch and printing
/// are collaborators outside this crate; the runner's own logic is the
/// aggregation, which is exact and order-independent.
pub struct Runner {
    pub suites: Vec<Suite>,
}

impl Runner {
    /// A runner over the given suites.
    pub fn new(suites: Vec<Suite>) -> (r: Runner)
        ensures
            r.suites@ == suites@,
    {
        Runner { suites }
    }

    /// The number of suites that will run.
    pub fn suite_count(&self) -> (n: usize)
        ensures
            n == self.suites@.len(),
    {
        self.suites.len()
    }

    /// Folds the per-suite reports into one summary whose four counters
    /// are exactly the sums of the per-suite counters.
    #[verifier::loop_isolation(false)]
    pub fn summarize(reports: &Vec<RunReport>) -> (r: RunReport)
        requires
            sum_totals(reports@) <= u64::MAX,
            sum_passed(reports@) <= u64::MAX,
            sum_failed(reports@) <= u64::MAX,
            sum_errors(reports@) <= u64::MAX,
        ensures
            r.total_tests == sum_totals(reports@),
            r.passed == sum_passed(reports@),
            r.failed == sum_failed(reports@),
            r.errors == sum_errors(reports@),
    {
        let mut acc = RunReport { total_tests: 0, passed: 0, failed: 0, errors: 0 };
        proof {
            assert(reports@.skip(0) =~= reports@);
        }
        let mut i: usize = 0;
        while i < reports.len()
            invariant
                i <= reports@.len(),
                acc.total_tests + sum_totals(reports@.skip(i as int)) == sum_totals(reports@),
                acc.passed + sum_passed(reports@.skip(i as int)) == sum_passed(reports@),
                acc.failed + sum_failed(reports@.skip(i as int)) == sum_failed(reports@),
                acc.errors + sum_errors(reports@.skip(i as int)) == sum_errors(reports@),
            decreases reports@.len() - i,
        {
            proof {
                let rest = reports@.skip(i as int);
                assert(rest[0] == reports@[i as int]);
                assert(rest.drop_first() =~= reports@.skip(i as int + 1));
                lemma_sum_by_nonneg(
                    reports@.skip(i as int + 1),
                    |r: RunReport| r.total_tests as int,
                );
                lemma_sum_by_nonneg(reports@.skip(i as int + 1), |r: RunReport| r.passed as int);
                lemma_sum_by_nonneg(reports@.skip(i as int + 1), |r: RunReport| r.failed as int);
                lemma_sum_by_nonneg(reports@.skip(i as int + 1), |r: RunReport| r.errors as int);
            }
            let rep = reports[i];
            acc.total_tests = acc.total_tests + rep.total_tests;
            acc.passed = acc.passed + rep.passed;
            acc.failed = acc.failed + rep.failed;
            acc.errors = acc.errors + rep.errors;
            i = i + 1;
        }
        proof {
            assert(reports@.skip(reports@.len() as int) =~= Seq::empty());
        }
        acc
    }
}

} // verus!
