//! What the runs of a benchmark come to.
use vstd::prelude::*;

use crate::list::copy_texts;
use crate::order::{
    is_before, keys, lemma_text_before_total, lemma_text_le_transitive, ordered_set, sort,
    sort_unique, sorted, text_le, Ranked, Sortable,
};
use crate::text::{concat3, same_text, views};

verus! {

// ---------------------------------------------------------------------------
// Runs
// ---------------------------------------------------------------------------

/// A finding that a run made.
#[derive(Debug, PartialEq, Eq)]
pub struct BenchmarkObservedFinding {
    pub semantic_key: String,
    pub blocking: bool,
}

/// What findings are: their keys, and whether they block.
pub open spec fn observed_views(s: Seq<BenchmarkObservedFinding>) -> Seq<(Seq<char>, bool)> {
    s.map_values(|f: BenchmarkObservedFinding| (f.semantic_key@, f.blocking))
}

/// How a run did against what was expected of it.
#[derive(Debug, PartialEq, Eq)]
pub struct BenchmarkRunScore {
    pub observed_blockers: usize,
    pub true_blockers: usize,
    pub false_blockers: usize,
    pub missed_serious_defects: Vec<String>,
    pub contradicted_non_findings: Vec<String>,
    pub unexpected_blockers: Vec<String>,
    pub duplicate_findings: Vec<String>,
}

/// How a run did against what was expected of it.
pub struct RunScoreView {
    pub observed_blockers: usize,
    pub true_blockers: usize,
    pub false_blockers: usize,
    pub missed_serious_defects: Seq<Seq<char>>,
    pub contradicted_non_findings: Seq<Seq<char>>,
    pub unexpected_blockers: Seq<Seq<char>>,
    pub duplicate_findings: Seq<Seq<char>>,
}

impl View for BenchmarkRunScore {
    type V = RunScoreView;

    open spec fn view(&self) -> RunScoreView {
        RunScoreView {
            observed_blockers: self.observed_blockers,
            true_blockers: self.true_blockers,
            false_blockers: self.false_blockers,
            missed_serious_defects: views(self.missed_serious_defects@),
            contradicted_non_findings: views(self.contradicted_non_findings@),
            unexpected_blockers: views(self.unexpected_blockers@),
            duplicate_findings: views(self.duplicate_findings@),
        }
    }
}

/// A run of a case.
#[derive(Debug, PartialEq, Eq)]
pub struct EvaluatedRun {
    pub case_id: String,
    pub review_complete: bool,
    pub findings: Vec<BenchmarkObservedFinding>,
    pub score: BenchmarkRunScore,
    /// There is an estimate of what the run cost.
    pub cost_estimated: bool,
    /// It is known what the run cost.
    pub cost_spent: bool,
    pub latency_ms: Option<u64>,
    pub agent_time_ms: Option<u64>,
}

/// A run of a case.
pub struct EvaluatedRunView {
    pub case_id: Seq<char>,
    pub review_complete: bool,
    pub findings: Seq<(Seq<char>, bool)>,
    pub score: RunScoreView,
    pub cost_estimated: bool,
    pub cost_spent: bool,
    pub latency_ms: Option<u64>,
    pub agent_time_ms: Option<u64>,
}

impl View for EvaluatedRun {
    type V = EvaluatedRunView;

    open spec fn view(&self) -> EvaluatedRunView {
        EvaluatedRunView {
            case_id: self.case_id@,
            review_complete: self.review_complete,
            findings: observed_views(self.findings@),
            score: self.score@,
            cost_estimated: self.cost_estimated,
            cost_spent: self.cost_spent,
            latency_ms: self.latency_ms,
            agent_time_ms: self.agent_time_ms,
        }
    }
}

/// What runs are.
pub open spec fn evaluated_run_views(s: Seq<EvaluatedRun>) -> Seq<EvaluatedRunView> {
    s.map_values(|r: EvaluatedRun| r@)
}

/// The runs of a case in one configuration.
#[derive(Debug, PartialEq, Eq)]
pub struct ConfigurationRuns {
    pub configuration_id: String,
    pub runs: Vec<EvaluatedRun>,
}

/// What the runs in configurations are.
pub open spec fn configured_views(s: Seq<ConfigurationRuns>) -> Seq<
    (Seq<char>, Seq<EvaluatedRunView>),
> {
    s.map_values(|c: ConfigurationRuns| (c.configuration_id@, evaluated_run_views(c.runs@)))
}

/// A case and its runs.
#[derive(Debug, PartialEq, Eq)]
pub struct EvaluatedCase {
    pub id: String,
    pub name: String,
    pub language: String,
    pub risk_class: String,
    pub expected_blocking: bool,
    pub runs: Vec<ConfigurationRuns>,
}

/// A case and its runs.
pub struct EvaluatedCaseView {
    pub id: Seq<char>,
    pub name: Seq<char>,
    pub language: Seq<char>,
    pub risk_class: Seq<char>,
    pub expected_blocking: bool,
    pub runs: Seq<(Seq<char>, Seq<EvaluatedRunView>)>,
}

impl View for EvaluatedCase {
    type V = EvaluatedCaseView;

    open spec fn view(&self) -> EvaluatedCaseView {
        EvaluatedCaseView {
            id: self.id@,
            name: self.name@,
            language: self.language@,
            risk_class: self.risk_class@,
            expected_blocking: self.expected_blocking,
            runs: configured_views(self.runs@),
        }
    }
}

/// What cases are.
pub open spec fn evaluated_case_views(s: Seq<EvaluatedCase>) -> Seq<EvaluatedCaseView> {
    s.map_values(|c: EvaluatedCase| c@)
}

// ---------------------------------------------------------------------------
// Stability
// ---------------------------------------------------------------------------

/// How often an item stands in a list.
pub open spec fn occurrences<A>(s: Seq<A>, x: A) -> nat
    decreases s.len(),
{
    if s.len() == 0 {
        0
    } else {
        occurrences(s.drop_last(), x) + if s.last() == x {
            1nat
        } else {
            0nat
        }
    }
}

proof fn lemma_occurrences<A>(s: Seq<A>, x: A)
    ensures
        occurrences(s, x) == s.to_multiset().count(x),
    decreases s.len(),
{
    broadcast use vstd::seq_lib::group_to_multiset_ensures;

    if s.len() > 0 {
        lemma_occurrences(s.drop_last(), x);
        assert(s =~= s.drop_last().push(s.last()));
    }
}

/// The runs made the same findings each time, in whatever order.
pub open spec fn stable(runs: Seq<EvaluatedRunView>) -> bool {
    runs.len() > 0 && forall|i: int|
        0 <= i < runs.len() ==> (#[trigger] runs[i]).findings.to_multiset()
            == runs[0].findings.to_multiset()
}

fn count_finding(findings: &Vec<BenchmarkObservedFinding>, x: &BenchmarkObservedFinding) -> (r:
    usize)
    ensures
        r == occurrences(observed_views(findings@), (x.semantic_key@, x.blocking)),
{
    let ghost all = observed_views(findings@);
    let ghost key = (x.semantic_key@, x.blocking);
    let mut count: usize = 0;
    let mut i: usize = 0;
    while i < findings.len()
        invariant
            i <= findings@.len(),
            count <= i,
            all == observed_views(findings@),
            key == (x.semantic_key@, x.blocking),
            count == occurrences(all.take(i as int), key),
        decreases findings@.len() - i,
    {
        proof {
            assert(all.take(i + 1).drop_last() =~= all.take(i as int));
            assert(all.take(i + 1).last() == all[i as int]);
        }
        let f = &findings[i];
        if f.blocking == x.blocking && same_text(f.semantic_key.as_str(), x.semantic_key.as_str()) {
            count += 1;
        }
        i += 1;
    }
    proof {
        assert(all.take(all.len() as int) =~= all);
    }
    count
}

/// All the findings of one list stand as often in another.
fn counts_agree(
    a: &Vec<BenchmarkObservedFinding>,
    b: &Vec<BenchmarkObservedFinding>,
) -> (r: bool)
    ensures
        r == forall|x: (Seq<char>, bool)|
            observed_views(a@).contains(x) ==> #[trigger] occurrences(observed_views(a@), x)
                == occurrences(observed_views(b@), x),
{
    let ghost xs = observed_views(a@);
    let ghost ys = observed_views(b@);
    let mut i: usize = 0;
    while i < a.len()
        invariant
            i <= a@.len(),
            xs == observed_views(a@),
            ys == observed_views(b@),
            forall|k: int| 0 <= k < i ==> occurrences(xs, #[trigger] xs[k]) == occurrences(ys, xs[k]),
        decreases a@.len() - i,
    {
        let ghost x = xs[i as int];
        if count_finding(a, &a[i]) != count_finding(b, &a[i]) {
            proof {
                assert(xs.contains(x));
                assert(occurrences(xs, x) != occurrences(ys, x));
            }
            return false;
        }
        i += 1;
    }
    proof {
        assert forall|x: (Seq<char>, bool)| xs.contains(x) implies #[trigger] occurrences(xs, x)
            == occurrences(ys, x) by {
            let k = choose|k: int| 0 <= k < xs.len() && xs[k] == x;
            assert(occurrences(xs, xs[k]) == occurrences(ys, xs[k]));
        }
    }
    true
}

fn same_findings(a: &Vec<BenchmarkObservedFinding>, b: &Vec<BenchmarkObservedFinding>) -> (r: bool)
    ensures
        r == (observed_views(a@).to_multiset() == observed_views(b@).to_multiset()),
{
    let ghost xs = observed_views(a@);
    let ghost ys = observed_views(b@);
    let r = counts_agree(a, b) && counts_agree(b, a);
    proof {
        broadcast use vstd::seq_lib::group_to_multiset_ensures;

        assert forall|x: (Seq<char>, bool)| #[trigger] xs.to_multiset().count(x) == occurrences(
            xs,
            x,
        ) && ys.to_multiset().count(x) == occurrences(ys, x) by {
            lemma_occurrences(xs, x);
            lemma_occurrences(ys, x);
        }
        if r {
            assert forall|x: (Seq<char>, bool)| #[trigger] xs.to_multiset().count(x)
                == ys.to_multiset().count(x) by {
                assert(occurrences(xs, x) == occurrences(xs, x));
                assert(occurrences(ys, x) == occurrences(ys, x));
                if !xs.contains(x) && !ys.contains(x) {
                    assert(xs.to_multiset().count(x) == 0);
                    assert(ys.to_multiset().count(x) == 0);
                }
            }
            assert(xs.to_multiset() =~= ys.to_multiset());
        } else if xs.to_multiset() == ys.to_multiset() {
            assert forall|x: (Seq<char>, bool)| #[trigger] occurrences(xs, x) == occurrences(ys, x) by {
                assert(xs.to_multiset().count(x) == occurrences(xs, x));
            }
            assert forall|x: (Seq<char>, bool)| #[trigger] occurrences(ys, x) == occurrences(xs, x) by {
                assert(occurrences(xs, x) == occurrences(ys, x));
            }
        }
    }
    r
}

/// Whether the runs made the same findings each time, in whatever order.
pub fn runs_are_stable(runs: &Vec<EvaluatedRun>) -> (r: bool)
    ensures
        r == stable(evaluated_run_views(runs@)),
{
    let ghost all = evaluated_run_views(runs@);
    if runs.len() == 0 {
        return false;
    }
    let mut i: usize = 1;
    while i < runs.len()
        invariant
            1 <= i <= runs@.len(),
            all == evaluated_run_views(runs@),
            forall|k: int|
                0 <= k < i ==> (#[trigger] all[k]).findings.to_multiset()
                    == all[0].findings.to_multiset(),
        decreases runs@.len() - i,
    {
        if !same_findings(&runs[i].findings, &runs[0].findings) {
            proof {
                assert(all[i as int].findings.to_multiset() != all[0].findings.to_multiset());
            }
            return false;
        }
        i += 1;
    }
    true
}

// ---------------------------------------------------------------------------
// Totals
// ---------------------------------------------------------------------------

/// What the costs and times of runs come to.
#[derive(Debug, Clone, Copy, PartialEq, Eq, Structural)]
pub struct RunTotals {
    pub estimated_cost_coverage: usize,
    pub spent_cost_coverage: usize,
    pub latency_total: u128,
    pub latency_coverage: usize,
    pub agent_time_total: u64,
    pub agent_time_coverage: usize,
}

/// The sum of the times that are known.
pub open spec fn sum_of(times: Seq<Option<u64>>) -> nat
    decreases times.len(),
{
    if times.len() == 0 {
        0
    } else {
        sum_of(times.drop_last()) + match times.last() {
            Some(t) => t as nat,
            None => 0,
        }
    }
}

/// How many times are known.
pub open spec fn known_of(times: Seq<Option<u64>>) -> nat
    decreases times.len(),
{
    if times.len() == 0 {
        0
    } else {
        known_of(times.drop_last()) + if times.last() is Some {
            1nat
        } else {
            0nat
        }
    }
}

/// The latencies of runs.
pub open spec fn latencies(runs: Seq<EvaluatedRunView>) -> Seq<Option<u64>> {
    runs.map_values(|r: EvaluatedRunView| r.latency_ms)
}

/// The times that agents took in runs.
pub open spec fn agent_times(runs: Seq<EvaluatedRunView>) -> Seq<Option<u64>> {
    runs.map_values(|r: EvaluatedRunView| r.agent_time_ms)
}

/// For each run, whether its cost was estimated.
pub open spec fn estimates(runs: Seq<EvaluatedRunView>) -> Seq<bool> {
    runs.map_values(|r: EvaluatedRunView| r.cost_estimated)
}

/// For each run, whether its cost is known.
pub open spec fn spendings(runs: Seq<EvaluatedRunView>) -> Seq<bool> {
    runs.map_values(|r: EvaluatedRunView| r.cost_spent)
}

/// What the costs and times of runs come to; the time of agents as far as it can be
/// counted.
pub open spec fn totals_of(t: RunTotals, runs: Seq<EvaluatedRunView>) -> bool {
    &&& t.estimated_cost_coverage == occurrences(estimates(runs), true)
    &&& t.spent_cost_coverage == occurrences(spendings(runs), true)
    &&& t.latency_total == sum_of(latencies(runs))
    &&& t.latency_coverage == known_of(latencies(runs))
    &&& t.agent_time_total == if sum_of(agent_times(runs)) <= u64::MAX {
        sum_of(agent_times(runs))
    } else {
        u64::MAX as nat
    }
    &&& t.agent_time_coverage == known_of(agent_times(runs))
}

proof fn lemma_bounds(runs: Seq<EvaluatedRunView>)
    ensures
        occurrences(estimates(runs), true) <= runs.len(),
        occurrences(spendings(runs), true) <= runs.len(),
        sum_of(latencies(runs)) <= runs.len() * 0xffff_ffff_ffff_ffff,
        known_of(latencies(runs)) <= runs.len(),
        known_of(agent_times(runs)) <= runs.len(),
    decreases runs.len(),
{
    if runs.len() > 0 {
        lemma_bounds(runs.drop_last());
        lemma_next_run(runs.drop_last(), runs.last());
        assert(runs.drop_last().push(runs.last()) =~= runs);
    }
}

proof fn lemma_next_run(runs: Seq<EvaluatedRunView>, run: EvaluatedRunView)
    ensures
        occurrences(estimates(runs.push(run)), true) == occurrences(estimates(runs), true) + (
        if run.cost_estimated {
            1nat
        } else {
            0nat
        }),
        occurrences(spendings(runs.push(run)), true) == occurrences(spendings(runs), true) + (
        if run.cost_spent {
            1nat
        } else {
            0nat
        }),
        sum_of(latencies(runs.push(run))) == sum_of(latencies(runs)) + match run.latency_ms {
            Some(t) => t as nat,
            None => 0,
        },
        known_of(latencies(runs.push(run))) == known_of(latencies(runs)) + (
        if run.latency_ms is Some {
            1nat
        } else {
            0nat
        }),
        sum_of(agent_times(runs.push(run))) == sum_of(agent_times(runs)) + match run.agent_time_ms {
            Some(t) => t as nat,
            None => 0,
        },
        known_of(agent_times(runs.push(run))) == known_of(agent_times(runs)) + (
        if run.agent_time_ms is Some {
            1nat
        } else {
            0nat
        }),
{
    let more = runs.push(run);
    assert(estimates(more).drop_last() =~= estimates(runs));
    assert(spendings(more).drop_last() =~= spendings(runs));
    assert(latencies(more).drop_last() =~= latencies(runs));
    assert(agent_times(more).drop_last() =~= agent_times(runs));
}

/// The totals of no runs.
pub fn no_totals() -> (r: RunTotals)
    ensures
        totals_of(r, Seq::empty()),
{
    RunTotals {
        estimated_cost_coverage: 0,
        spent_cost_coverage: 0,
        latency_total: 0,
        latency_coverage: 0,
        agent_time_total: 0,
        agent_time_coverage: 0,
    }
}

fn add_run(t: RunTotals, run: &EvaluatedRun, Ghost(runs): Ghost<Seq<EvaluatedRunView>>) -> (r:
    RunTotals)
    requires
        totals_of(t, runs),
        runs.len() < usize::MAX,
    ensures
        totals_of(r, runs.push(run@)),
{
    proof {
        lemma_bounds(runs);
        lemma_next_run(runs, run@);
    }
    let mut t = t;
    if run.cost_estimated {
        t.estimated_cost_coverage = t.estimated_cost_coverage + 1;
    }
    if run.cost_spent {
        t.spent_cost_coverage = t.spent_cost_coverage + 1;
    }
    if let Some(latency) = run.latency_ms {
        t.latency_total = t.latency_total + latency as u128;
        t.latency_coverage = t.latency_coverage + 1;
    }
    if let Some(agent_time) = run.agent_time_ms {
        t.agent_time_total = t.agent_time_total.saturating_add(agent_time);
        t.agent_time_coverage = t.agent_time_coverage + 1;
    }
    t
}

fn add_runs(
    t: RunTotals,
    runs: &Vec<EvaluatedRun>,
    Ghost(before): Ghost<Seq<EvaluatedRunView>>,
) -> (r: RunTotals)
    requires
        totals_of(t, before),
        before.len() + runs@.len() <= usize::MAX,
    ensures
        totals_of(r, before + evaluated_run_views(runs@)),
{
    let ghost all = evaluated_run_views(runs@);
    let mut t = t;
    let mut i: usize = 0;
    proof {
        assert(before + all.take(0) =~= before);
    }
    while i < runs.len()
        invariant
            i <= runs@.len(),
            all == evaluated_run_views(runs@),
            before.len() + runs@.len() <= usize::MAX,
            totals_of(t, before + all.take(i as int)),
        decreases runs@.len() - i,
    {
        t = add_run(t, &runs[i], Ghost(before + all.take(i as int)));
        proof {
            assert((before + all.take(i as int)).push(runs@[i as int]@) =~= before + all.take(
                i + 1,
            ));
        }
        i += 1;
    }
    proof {
        assert(all.take(all.len() as int) =~= all);
    }
    t
}

// ---------------------------------------------------------------------------
// Cases in a configuration
// ---------------------------------------------------------------------------

/// The runs of a case in a configuration, looked for from a place on.
pub open spec fn runs_from(
    runs: Seq<(Seq<char>, Seq<EvaluatedRunView>)>,
    configuration: Seq<char>,
    from: int,
) -> Option<Seq<EvaluatedRunView>>
    decreases runs.len() - from,
{
    if from < 0 || from >= runs.len() {
        None
    } else if runs[from].0 == configuration {
        Some(runs[from].1)
    } else {
        runs_from(runs, configuration, from + 1)
    }
}

/// The runs of a case in a configuration, and none where there are none.
pub open spec fn runs_in(case: EvaluatedCaseView, configuration: Seq<char>) -> Seq<
    EvaluatedRunView,
> {
    match runs_from(case.runs, configuration, 0) {
        Some(runs) => runs,
        None => Seq::empty(),
    }
}

/// What is wrong with the runs of a case in a configuration, if anything.
pub open spec fn case_error(case: EvaluatedCaseView, configuration: Seq<char>) -> Option<Seq<char>> {
    match runs_from(case.runs, configuration, 0) {
        None => Some(
            "benchmark case `"@ + case.id + "` has no runs for configuration `"@ + configuration
                + "`"@,
        ),
        Some(runs) => if runs.len() == 0 {
            Some(
                "benchmark case `"@ + case.id + "` has no repetitions for configuration `"@
                    + configuration + "`"@,
            )
        } else {
            None
        },
    }
}

fn find_runs<'a>(case: &'a EvaluatedCase, configuration: &str) -> (r: Result<
    &'a Vec<EvaluatedRun>,
    String,
>)
    ensures
        match r {
            Ok(runs) => case_error(case@, configuration@) is None && evaluated_run_views(runs@)
                == runs_in(case@, configuration@) && runs@.len() > 0,
            Err(e) => case_error(case@, configuration@) == Some(e@),
        },
{
    let ghost all = configured_views(case.runs@);
    let mut i: usize = 0;
    while i < case.runs.len()
        invariant
            i <= case.runs@.len(),
            all == configured_views(case.runs@),
            runs_from(all, configuration@, 0) == runs_from(all, configuration@, i as int),
        decreases case.runs@.len() - i,
    {
        let entry = &case.runs[i];
        if same_text(entry.configuration_id.as_str(), configuration) {
            proof {
                assert(all[i as int].0 == configuration@);
            }
            if entry.runs.len() == 0 {
                let head = concat3(
                    "benchmark case `",
                    case.id.as_str(),
                    "` has no repetitions for configuration `",
                );
                return Err(concat3(head.as_str(), configuration, "`"));
            }
            return Ok(&entry.runs);
        }
        i += 1;
    }
    let head = concat3(
        "benchmark case `",
        case.id.as_str(),
        "` has no runs for configuration `",
    );
    Err(concat3(head.as_str(), configuration, "`"))
}

/// All runs of a case are complete.
pub open spec fn complete(runs: Seq<EvaluatedRunView>) -> bool {
    forall|i: int| 0 <= i < runs.len() ==> (#[trigger] runs[i]).review_complete
}

fn all_complete(runs: &Vec<EvaluatedRun>) -> (r: bool)
    ensures
        r == complete(evaluated_run_views(runs@)),
{
    let ghost all = evaluated_run_views(runs@);
    let mut i: usize = 0;
    while i < runs.len()
        invariant
            i <= runs@.len(),
            all == evaluated_run_views(runs@),
            forall|k: int| 0 <= k < i ==> (#[trigger] all[k]).review_complete,
        decreases runs@.len() - i,
    {
        if !runs[i].review_complete {
            proof {
                assert(!all[i as int].review_complete);
            }
            return false;
        }
        i += 1;
    }
    true
}

/// The last run of a case found what was expected.
pub open spec fn converged(expected_blocking: bool, runs: Seq<EvaluatedRunView>) -> bool {
    let score = runs.last().score;
    if expected_blocking {
        score.true_blockers > 0 && score.false_blockers == 0
    } else {
        score.observed_blockers == 0
    }
}

/// What the first run of a case came to.
#[derive(Debug, PartialEq, Eq)]
pub struct CaseReport {
    /// Where the case stands in the corpus.
    pub position: usize,
    pub case_id: String,
    pub name: String,
    pub expected_blocking: bool,
    pub review_complete: bool,
    pub observed_blocking: bool,
    pub true_blockers: usize,
    pub false_blockers: usize,
    pub missed_serious_defects: Vec<String>,
    pub contradicted_non_findings: Vec<String>,
    pub unexpected_blockers: Vec<String>,
    pub duplicate_findings: Vec<String>,
}

/// What the first run of a case came to.
pub struct CaseReportView {
    pub position: int,
    pub case_id: Seq<char>,
    pub name: Seq<char>,
    pub expected_blocking: bool,
    pub review_complete: bool,
    pub observed_blocking: bool,
    pub true_blockers: usize,
    pub false_blockers: usize,
    pub missed_serious_defects: Seq<Seq<char>>,
    pub contradicted_non_findings: Seq<Seq<char>>,
    pub unexpected_blockers: Seq<Seq<char>>,
    pub duplicate_findings: Seq<Seq<char>>,
}

impl View for CaseReport {
    type V = CaseReportView;

    open spec fn view(&self) -> CaseReportView {
        CaseReportView {
            position: self.position as int,
            case_id: self.case_id@,
            name: self.name@,
            expected_blocking: self.expected_blocking,
            review_complete: self.review_complete,
            observed_blocking: self.observed_blocking,
            true_blockers: self.true_blockers,
            false_blockers: self.false_blockers,
            missed_serious_defects: views(self.missed_serious_defects@),
            contradicted_non_findings: views(self.contradicted_non_findings@),
            unexpected_blockers: views(self.unexpected_blockers@),
            duplicate_findings: views(self.duplicate_findings@),
        }
    }
}

impl Ranked for CaseReportView {
    open spec fn at_most(self, other: Self) -> bool {
        text_le(self.case_id, other.case_id)
    }

    proof fn total(a: Self, b: Self) {
        lemma_text_before_total(a.case_id, b.case_id);
    }

    proof fn transitive(a: Self, b: Self, c: Self) {
        lemma_text_le_transitive(a.case_id, b.case_id, c.case_id);
    }
}

impl Sortable for CaseReport {
    type Key = CaseReportView;

    open spec fn key(self) -> CaseReportView {
        self@
    }

    fn is_at_most(&self, other: &Self) -> (r: bool) {
        same_text(self.case_id.as_str(), other.case_id.as_str()) || is_before(
            self.case_id.as_str(),
            other.case_id.as_str(),
        )
    }
}

/// What reports on cases say.
pub open spec fn case_report_views(s: Seq<CaseReport>) -> Seq<CaseReportView> {
    s.map_values(|c: CaseReport| c@)
}

/// The report on a case with these runs.
pub open spec fn case_report(
    position: int,
    case: EvaluatedCaseView,
    runs: Seq<EvaluatedRunView>,
) -> CaseReportView {
    let first = runs[0];
    CaseReportView {
        position,
        case_id: first.case_id,
        name: case.name,
        expected_blocking: case.expected_blocking,
        review_complete: complete(runs),
        observed_blocking: first.score.observed_blockers > 0,
        true_blockers: first.score.true_blockers,
        false_blockers: first.score.false_blockers,
        missed_serious_defects: first.score.missed_serious_defects,
        contradicted_non_findings: first.score.contradicted_non_findings,
        unexpected_blockers: first.score.unexpected_blockers,
        duplicate_findings: first.score.duplicate_findings,
    }
}

fn report_case(position: usize, case: &EvaluatedCase, runs: &Vec<EvaluatedRun>) -> (r: CaseReport)
    requires
        runs@.len() > 0,
    ensures
        r@ == case_report(position as int, case@, evaluated_run_views(runs@)),
{
    let first = &runs[0];
    proof {
        assert(evaluated_run_views(runs@)[0] == first@);
    }
    CaseReport {
        position,
        case_id: first.case_id.clone(),
        name: case.name.clone(),
        expected_blocking: case.expected_blocking,
        review_complete: all_complete(runs),
        observed_blocking: first.score.observed_blockers > 0,
        true_blockers: first.score.true_blockers,
        false_blockers: first.score.false_blockers,
        missed_serious_defects: copy_texts(&first.score.missed_serious_defects),
        contradicted_non_findings: copy_texts(&first.score.contradicted_non_findings),
        unexpected_blockers: copy_texts(&first.score.unexpected_blockers),
        duplicate_findings: copy_texts(&first.score.duplicate_findings),
    }
}

/// The part that a configuration plays in a benchmark.
#[derive(Debug, Clone, Copy, PartialEq, Eq, Structural)]
pub enum BenchmarkConfigurationRole {
    Baseline,
    Candidate,
}

/// What the cases came to in a configuration.
#[derive(Debug, PartialEq, Eq)]
pub struct ConfigurationReport {
    pub id: String,
    pub role: BenchmarkConfigurationRole,
    /// The cases whose runs are all complete.
    pub completed: usize,
    /// The cases whose runs made the same findings each time.
    pub stable: usize,
    /// The cases whose last run found what was expected.
    pub converged: usize,
    pub duplicate_finding_count: usize,
    pub totals: RunTotals,
    pub cases: Vec<CaseReport>,
}

/// What the cases came to in a configuration.
pub struct ConfigurationView {
    pub id: Seq<char>,
    pub role: BenchmarkConfigurationRole,
    pub completed: nat,
    pub stable: nat,
    pub converged: nat,
    pub duplicate_finding_count: nat,
    pub totals: RunTotals,
    pub cases: Seq<CaseReportView>,
}

impl View for ConfigurationReport {
    type V = ConfigurationView;

    open spec fn view(&self) -> ConfigurationView {
        ConfigurationView {
            id: self.id@,
            role: self.role,
            completed: self.completed as nat,
            stable: self.stable as nat,
            converged: self.converged as nat,
            duplicate_finding_count: self.duplicate_finding_count as nat,
            totals: self.totals,
            cases: case_report_views(self.cases@),
        }
    }
}

/// What reports on configurations say.
pub open spec fn configuration_views(s: Seq<ConfigurationReport>) -> Seq<ConfigurationView> {
    s.map_values(|c: ConfigurationReport| c@)
}

/// The runs of all cases in a configuration.
pub open spec fn all_runs(cases: Seq<EvaluatedCaseView>, configuration: Seq<char>) -> Seq<
    EvaluatedRunView,
>
    decreases cases.len(),
{
    if cases.len() == 0 {
        Seq::empty()
    } else {
        all_runs(cases.drop_last(), configuration) + runs_in(cases.last(), configuration)
    }
}

/// How many findings of first runs are duplicates.
pub open spec fn duplicates(cases: Seq<EvaluatedCaseView>, configuration: Seq<char>) -> nat
    decreases cases.len(),
{
    if cases.len() == 0 {
        0
    } else {
        duplicates(cases.drop_last(), configuration) + runs_in(
            cases.last(),
            configuration,
        )[0].score.duplicate_findings.len()
    }
}

/// How many cases have runs of some kind.
pub open spec fn cases_with(
    cases: Seq<EvaluatedCaseView>,
    configuration: Seq<char>,
    kind: spec_fn(EvaluatedCaseView, Seq<EvaluatedRunView>) -> bool,
) -> nat
    decreases cases.len(),
{
    if cases.len() == 0 {
        0
    } else {
        cases_with(cases.drop_last(), configuration, kind) + if kind(
            cases.last(),
            runs_in(cases.last(), configuration),
        ) {
            1nat
        } else {
            0nat
        }
    }
}

/// How many cases are complete.
pub open spec fn completed_cases(cases: Seq<EvaluatedCaseView>, configuration: Seq<char>) -> nat {
    cases_with(
        cases,
        configuration,
        |case: EvaluatedCaseView, runs: Seq<EvaluatedRunView>| complete(runs),
    )
}

/// How many cases are stable.
pub open spec fn stable_cases(cases: Seq<EvaluatedCaseView>, configuration: Seq<char>) -> nat {
    cases_with(
        cases,
        configuration,
        |case: EvaluatedCaseView, runs: Seq<EvaluatedRunView>| stable(runs),
    )
}

/// How many cases ended with what was expected.
pub open spec fn converged_cases(cases: Seq<EvaluatedCaseView>, configuration: Seq<char>) -> nat {
    cases_with(
        cases,
        configuration,
        |case: EvaluatedCaseView, runs: Seq<EvaluatedRunView>|
            converged(case.expected_blocking, runs),
    )
}

/// What is wrong with the first case that has no runs.
pub open spec fn cases_error(cases: Seq<EvaluatedCaseView>, configuration: Seq<char>) -> Option<
    Seq<char>,
>
    decreases cases.len(),
{
    if cases.len() == 0 {
        None
    } else {
        match cases_error(cases.drop_last(), configuration) {
            Some(e) => Some(e),
            None => case_error(cases.last(), configuration),
        }
    }
}

/// The reports on cases, in the order of the corpus.
pub open spec fn case_reports(cases: Seq<EvaluatedCaseView>, configuration: Seq<char>) -> Seq<
    CaseReportView,
> {
    Seq::new(
        cases.len(),
        |i: int| case_report(i, cases[i], runs_in(cases[i], configuration)),
    )
}

/// What the cases came to in a configuration.
pub open spec fn configuration_report(
    c: ConfigurationView,
    cases: Seq<EvaluatedCaseView>,
) -> bool {
    &&& c.completed == completed_cases(cases, c.id)
    &&& c.stable == stable_cases(cases, c.id)
    &&& c.converged == converged_cases(cases, c.id)
    &&& c.duplicate_finding_count == duplicates(cases, c.id)
    &&& totals_of(c.totals, all_runs(cases, c.id))
    &&& c.cases == sorted(case_reports(cases, c.id))
}

/// The runs and the duplicates can be counted.
pub open spec fn countable(cases: Seq<EvaluatedCaseView>, configuration: Seq<char>) -> bool {
    all_runs(cases, configuration).len() <= usize::MAX && duplicates(cases, configuration)
        <= usize::MAX
}

proof fn lemma_prefix_countable(
    cases: Seq<EvaluatedCaseView>,
    configuration: Seq<char>,
    n: int,
)
    requires
        0 <= n <= cases.len(),
    ensures
        all_runs(cases.take(n), configuration).len() <= all_runs(cases, configuration).len(),
        duplicates(cases.take(n), configuration) <= duplicates(cases, configuration),
    decreases cases.len() - n,
{
    if n < cases.len() {
        lemma_prefix_countable(cases, configuration, n + 1);
        assert(cases.take(n + 1).drop_last() =~= cases.take(n));
    } else {
        assert(cases.take(n) =~= cases);
    }
}

proof fn lemma_prefix_error(cases: Seq<EvaluatedCaseView>, configuration: Seq<char>, n: int)
    requires
        0 <= n <= cases.len(),
        cases_error(cases.take(n), configuration) is Some,
    ensures
        cases_error(cases, configuration) == cases_error(cases.take(n), configuration),
    decreases cases.len() - n,
{
    if n < cases.len() {
        assert(cases.take(n + 1).drop_last() =~= cases.take(n));
        lemma_prefix_error(cases, configuration, n + 1);
    } else {
        assert(cases.take(n) =~= cases);
    }
}

proof fn lemma_next_case(
    cases: Seq<EvaluatedCaseView>,
    configuration: Seq<char>,
    n: int,
    kind: spec_fn(EvaluatedCaseView, Seq<EvaluatedRunView>) -> bool,
)
    requires
        0 <= n < cases.len(),
    ensures
        cases_with(cases.take(n + 1), configuration, kind) == cases_with(
            cases.take(n),
            configuration,
            kind,
        ) + (if kind(cases[n], runs_in(cases[n], configuration)) {
            1nat
        } else {
            0nat
        }),
{
    assert(cases.take(n + 1).drop_last() =~= cases.take(n));
}

/// A configuration or what is wrong.
pub open spec fn configuration_result(r: Result<ConfigurationReport, String>) -> Result<
    ConfigurationView,
    Seq<char>,
> {
    match r {
        Ok(c) => Ok(c@),
        Err(e) => Err(e@),
    }
}

/// What the cases came to in a configuration, or what is wrong with the first case that
/// has no runs.
#[verifier::rlimit(60)]
pub fn build_configuration_report(
    id: &str,
    role: BenchmarkConfigurationRole,
    cases: &Vec<EvaluatedCase>,
) -> (r: Result<ConfigurationReport, String>)
    requires
        countable(evaluated_case_views(cases@), id@),
    ensures
        match configuration_result(r) {
            Ok(c) => cases_error(evaluated_case_views(cases@), id@) is None && c.id == id@
                && c.role == role && configuration_report(c, evaluated_case_views(cases@)),
            Err(e) => cases_error(evaluated_case_views(cases@), id@) == Some(e),
        },
{
    let ghost all = evaluated_case_views(cases@);
    let mut completed: usize = 0;
    let mut stable: usize = 0;
    let mut converged: usize = 0;
    let mut duplicate_finding_count: usize = 0;
    let mut totals = no_totals();
    let mut reports: Vec<CaseReport> = Vec::new();
    let mut i: usize = 0;
    proof {
        assert(all.take(0) =~= Seq::empty());
        assert(case_report_views(reports@) =~= case_reports(all.take(0), id@));
    }
    while i < cases.len()
        invariant
            i <= cases@.len(),
            all == evaluated_case_views(cases@),
            countable(all, id@),
            completed <= i,
            stable <= i,
            converged <= i,
            cases_error(all.take(i as int), id@) is None,
            completed == completed_cases(all.take(i as int), id@),
            stable == stable_cases(all.take(i as int), id@),
            converged == converged_cases(all.take(i as int), id@),
            duplicate_finding_count == duplicates(all.take(i as int), id@),
            totals_of(totals, all_runs(all.take(i as int), id@)),
            case_report_views(reports@) == case_reports(all.take(i as int), id@),
        decreases cases@.len() - i,
    {
        let case = &cases[i];
        proof {
            assert(all[i as int] == case@);
            assert(all.take(i + 1).drop_last() =~= all.take(i as int));
            assert(all.take(i + 1).last() == case@);
            lemma_prefix_countable(all, id@, i + 1);
        }
        let runs = match find_runs(case, id) {
            Ok(runs) => runs,
            Err(e) => {
                proof {
                    lemma_prefix_error(all, id@, i + 1);
                }
                return Err(e);
            },
        };
        let ghost rs = evaluated_run_views(runs@);
        proof {
            assert(rs == runs_in(case@, id@));
            assert(rs[0] == runs@[0]@);
            assert(rs.last() == runs@[runs@.len() - 1]@);
            lemma_next_case(
                all,
                id@,
                i as int,
                |case: EvaluatedCaseView, runs: Seq<EvaluatedRunView>| complete(runs),
            );
            lemma_next_case(
                all,
                id@,
                i as int,
                |case: EvaluatedCaseView, runs: Seq<EvaluatedRunView>| self::stable(runs),
            );
            lemma_next_case(
                all,
                id@,
                i as int,
                |case: EvaluatedCaseView, runs: Seq<EvaluatedRunView>|
                    self::converged(case.expected_blocking, runs),
            );
        }
        let report = report_case(i, case, runs);
        if report.review_complete {
            completed += 1;
        }
        duplicate_finding_count = duplicate_finding_count + runs[0].score.duplicate_findings.len();
        if runs_are_stable(runs) {
            stable += 1;
        }
        let last = &runs[runs.len() - 1];
        let as_expected = if case.expected_blocking {
            last.score.true_blockers > 0 && last.score.false_blockers == 0
        } else {
            last.score.observed_blockers == 0
        };
        if as_expected {
            converged += 1;
        }
        totals = add_runs(totals, runs, Ghost(all_runs(all.take(i as int), id@)));
        let ghost before = case_report_views(reports@);
        reports.push(report);
        proof {
            assert(case_report_views(reports@) =~= before.push(report@));
            assert(case_report_views(reports@) =~= case_reports(all.take(i + 1), id@));
        }
        i += 1;
    }
    let ghost unsorted = reports@;
    let reports = sort(reports);
    proof {
        assert(all.take(all.len() as int) =~= all);
        assert(keys(unsorted) =~= case_report_views(unsorted));
        assert(keys(reports@) =~= case_report_views(reports@));
    }
    Ok(
        ConfigurationReport {
            id: id.to_owned(),
            role,
            completed,
            stable,
            converged,
            duplicate_finding_count,
            totals,
            cases: reports,
        },
    )
}

// ---------------------------------------------------------------------------
// Reports
// ---------------------------------------------------------------------------

/// A configuration of a benchmark.
#[derive(Debug, PartialEq, Eq)]
pub struct BenchmarkConfiguration {
    pub id: String,
    pub role: BenchmarkConfigurationRole,
}

/// What configurations are.
pub open spec fn planned_views(s: Seq<BenchmarkConfiguration>) -> Seq<
    (Seq<char>, BenchmarkConfigurationRole),
> {
    s.map_values(|c: BenchmarkConfiguration| (c.id@, c.role))
}

/// What a benchmark comes to.
#[derive(Debug, PartialEq, Eq)]
pub struct BenchmarkReport {
    pub configurations: Vec<ConfigurationReport>,
    /// Where the baseline stands among the configurations.
    pub baseline: usize,
    /// Where the candidate stands among the configurations.
    pub candidate: usize,
    /// The corpus has as many cases as it must have.
    pub corpus_complete: bool,
    pub languages: Vec<String>,
    pub risk_classes: Vec<String>,
}

/// What a benchmark comes to.
pub struct BenchmarkView {
    pub configurations: Seq<ConfigurationView>,
    pub baseline: int,
    pub candidate: int,
    pub corpus_complete: bool,
    pub languages: Seq<Seq<char>>,
    pub risk_classes: Seq<Seq<char>>,
}

impl View for BenchmarkReport {
    type V = BenchmarkView;

    open spec fn view(&self) -> BenchmarkView {
        BenchmarkView {
            configurations: configuration_views(self.configurations@),
            baseline: self.baseline as int,
            candidate: self.candidate as int,
            corpus_complete: self.corpus_complete,
            languages: views(self.languages@),
            risk_classes: views(self.risk_classes@),
        }
    }
}

/// Where the first configuration with a role stands.
pub open spec fn first_with_role(
    planned: Seq<(Seq<char>, BenchmarkConfigurationRole)>,
    role: BenchmarkConfigurationRole,
    from: int,
) -> Option<int>
    decreases planned.len() - from,
{
    if from < 0 || from >= planned.len() {
        None
    } else if planned[from].1 == role {
        Some(from)
    } else {
        first_with_role(planned, role, from + 1)
    }
}

/// What is wrong in the first configuration in which a case has no runs.
pub open spec fn runs_error(
    planned: Seq<(Seq<char>, BenchmarkConfigurationRole)>,
    cases: Seq<EvaluatedCaseView>,
) -> Option<Seq<char>>
    decreases planned.len(),
{
    if planned.len() == 0 {
        None
    } else {
        match runs_error(planned.drop_last(), cases) {
            Some(e) => Some(e),
            None => cases_error(cases, planned.last().0),
        }
    }
}

proof fn lemma_prefix_runs_error(
    planned: Seq<(Seq<char>, BenchmarkConfigurationRole)>,
    cases: Seq<EvaluatedCaseView>,
    n: int,
)
    requires
        0 <= n <= planned.len(),
        runs_error(planned.take(n), cases) is Some,
    ensures
        runs_error(planned, cases) == runs_error(planned.take(n), cases),
    decreases planned.len() - n,
{
    if n < planned.len() {
        assert(planned.take(n + 1).drop_last() =~= planned.take(n));
        lemma_prefix_runs_error(planned, cases, n + 1);
    } else {
        assert(planned.take(n) =~= planned);
    }
}

/// What stands in the way of a report, if anything.
pub open spec fn report_error(
    planned: Seq<(Seq<char>, BenchmarkConfigurationRole)>,
    cases: Seq<EvaluatedCaseView>,
) -> Option<Seq<char>> {
    if cases.len() == 0 {
        Some("benchmark corpus contains no cases"@)
    } else if runs_error(planned, cases) is Some {
        runs_error(planned, cases)
    } else if first_with_role(planned, BenchmarkConfigurationRole::Baseline, 0) is None {
        Some("benchmark report has no baseline configuration"@)
    } else if first_with_role(planned, BenchmarkConfigurationRole::Candidate, 0) is None {
        Some("benchmark report has no candidate configuration"@)
    } else {
        None
    }
}

/// The languages of cases.
pub open spec fn languages_of(cases: Seq<EvaluatedCaseView>) -> Seq<Seq<char>> {
    cases.map_values(|c: EvaluatedCaseView| c.language)
}

/// The risk classes of cases.
pub open spec fn risk_classes_of(cases: Seq<EvaluatedCaseView>) -> Seq<Seq<char>> {
    cases.map_values(|c: EvaluatedCaseView| c.risk_class)
}

/// What a benchmark comes to.
pub open spec fn benchmark_report(
    b: BenchmarkView,
    planned: Seq<(Seq<char>, BenchmarkConfigurationRole)>,
    cases: Seq<EvaluatedCaseView>,
    minimum_case_count: nat,
) -> bool {
    &&& b.configurations.len() == planned.len()
    &&& forall|i: int|
        0 <= i < planned.len() ==> (#[trigger] b.configurations[i]).id == planned[i].0
            && b.configurations[i].role == planned[i].1 && configuration_report(
            b.configurations[i],
            cases,
        )
    &&& first_with_role(planned, BenchmarkConfigurationRole::Baseline, 0) == Some(b.baseline)
    &&& first_with_role(planned, BenchmarkConfigurationRole::Candidate, 0) == Some(b.candidate)
    &&& b.corpus_complete == (cases.len() >= minimum_case_count)
    &&& b.languages == ordered_set(languages_of(cases))
    &&& b.risk_classes == ordered_set(risk_classes_of(cases))
}

fn find_role(configurations: &Vec<BenchmarkConfiguration>, role: BenchmarkConfigurationRole) -> (r:
    Option<usize>)
    ensures
        match r {
            Some(i) => first_with_role(planned_views(configurations@), role, 0) == Some(i as int),
            None => first_with_role(planned_views(configurations@), role, 0) is None,
        },
{
    let ghost all = planned_views(configurations@);
    let mut i: usize = 0;
    while i < configurations.len()
        invariant
            i <= configurations@.len(),
            all == planned_views(configurations@),
            first_with_role(all, role, 0) == first_with_role(all, role, i as int),
        decreases configurations@.len() - i,
    {
        if configurations[i].role == role {
            return Some(i);
        }
        i += 1;
    }
    None
}

fn list_languages(cases: &Vec<EvaluatedCase>) -> (r: Vec<String>)
    ensures
        views(r@) == ordered_set(languages_of(evaluated_case_views(cases@))),
{
    let ghost all = languages_of(evaluated_case_views(cases@));
    let mut r: Vec<String> = Vec::new();
    let mut i: usize = 0;
    while i < cases.len()
        invariant
            i <= cases@.len(),
            r@.len() == i,
            all == languages_of(evaluated_case_views(cases@)),
            forall|k: int| 0 <= k < i ==> (#[trigger] r@[k])@ == all[k],
        decreases cases@.len() - i,
    {
        r.push(cases[i].language.clone());
        i += 1;
    }
    proof {
        assert(views(r@) =~= all);
    }
    sort_unique(r)
}

fn list_risk_classes(cases: &Vec<EvaluatedCase>) -> (r: Vec<String>)
    ensures
        views(r@) == ordered_set(risk_classes_of(evaluated_case_views(cases@))),
{
    let ghost all = risk_classes_of(evaluated_case_views(cases@));
    let mut r: Vec<String> = Vec::new();
    let mut i: usize = 0;
    while i < cases.len()
        invariant
            i <= cases@.len(),
            r@.len() == i,
            all == risk_classes_of(evaluated_case_views(cases@)),
            forall|k: int| 0 <= k < i ==> (#[trigger] r@[k])@ == all[k],
        decreases cases@.len() - i,
    {
        r.push(cases[i].risk_class.clone());
        i += 1;
    }
    proof {
        assert(views(r@) =~= all);
    }
    sort_unique(r)
}

/// A benchmark or what is wrong.
pub open spec fn benchmark_result(r: Result<BenchmarkReport, String>) -> Result<
    BenchmarkView,
    Seq<char>,
> {
    match r {
        Ok(b) => Ok(b@),
        Err(e) => Err(e@),
    }
}

/// What a benchmark comes to.
pub fn build_report(
    configurations: &Vec<BenchmarkConfiguration>,
    minimum_case_count: usize,
    cases: &Vec<EvaluatedCase>,
) -> (r: Result<BenchmarkReport, String>)
    requires
        forall|i: int|
            0 <= i < configurations@.len() ==> countable(
                evaluated_case_views(cases@),
                (#[trigger] configurations@[i]).id@,
            ),
    ensures
        match benchmark_result(r) {
            Ok(b) => report_error(
                planned_views(configurations@),
                evaluated_case_views(cases@),
            ) is None && benchmark_report(
                b,
                planned_views(configurations@),
                evaluated_case_views(cases@),
                minimum_case_count as nat,
            ),
            Err(e) => report_error(
                planned_views(configurations@),
                evaluated_case_views(cases@),
            ) == Some(e),
        },
{
    let ghost all = evaluated_case_views(cases@);
    let ghost planned = planned_views(configurations@);
    if cases.len() == 0 {
        return Err("benchmark corpus contains no cases".to_owned());
    }
    let mut reports: Vec<ConfigurationReport> = Vec::new();
    let mut i: usize = 0;
    while i < configurations.len()
        invariant
            i <= configurations@.len(),
            reports@.len() == i,
            cases@.len() > 0,
            all == evaluated_case_views(cases@),
            planned == planned_views(configurations@),
            forall|i: int|
                0 <= i < configurations@.len() ==> countable(
                    all,
                    (#[trigger] configurations@[i]).id@,
                ),
            runs_error(planned.take(i as int), all) is None,
            forall|k: int|
                0 <= k < i ==> (#[trigger] reports@[k])@.id == planned[k].0 && reports@[k]@.role
                    == planned[k].1 && configuration_report(reports@[k]@, all),
        decreases configurations@.len() - i,
    {
        proof {
            assert(planned.take(i + 1).drop_last() =~= planned.take(i as int));
            assert(planned.take(i + 1).last() == planned[i as int]);
        }
        let configuration = &configurations[i];
        match build_configuration_report(configuration.id.as_str(), configuration.role, cases) {
            Ok(report) => {
                reports.push(report);
            },
            Err(e) => {
                proof {
                    lemma_prefix_runs_error(planned, all, i + 1);
                }
                return Err(e);
            },
        }
        i += 1;
    }
    proof {
        assert(planned.take(planned.len() as int) =~= planned);
    }
    let baseline: usize = match find_role(configurations, BenchmarkConfigurationRole::Baseline) {
        Some(at) => at,
        None => {
            return Err("benchmark report has no baseline configuration".to_owned());
        },
    };
    let candidate: usize = match find_role(configurations, BenchmarkConfigurationRole::Candidate) {
        Some(at) => at,
        None => {
            return Err("benchmark report has no candidate configuration".to_owned());
        },
    };
    let r = BenchmarkReport {
        configurations: reports,
        baseline,
        candidate,
        corpus_complete: cases.len() >= minimum_case_count,
        languages: list_languages(cases),
        risk_classes: list_risk_classes(cases),
    };
    proof {
        assert forall|i: int| 0 <= i < planned.len() implies (#[trigger] r@.configurations[i]).id
            == planned[i].0 && r@.configurations[i].role == planned[i].1 && configuration_report(
            r@.configurations[i],
            all,
        ) by {
            assert(r@.configurations[i] == reports@[i]@);
        }
    }
    Ok(r)
}

/// Whether the candidate may replace the baseline: the corpus is complete and no
/// threshold is missed.
pub fn benchmark_passed(report: &BenchmarkReport, thresholds_passed: &Vec<bool>) -> (r: bool)
    ensures
        r == (report.corpus_complete && forall|i: int|
            0 <= i < thresholds_passed@.len() ==> #[trigger] thresholds_passed@[i]),
{
    let mut i: usize = 0;
    while i < thresholds_passed.len()
        invariant
            i <= thresholds_passed@.len(),
            forall|k: int| 0 <= k < i ==> #[trigger] thresholds_passed@[k],
        decreases thresholds_passed@.len() - i,
    {
        if !thresholds_passed[i] {
            return false;
        }
        i += 1;
    }
    report.corpus_complete
}

proof fn lemma_cases_with_bounded(
    cases: Seq<EvaluatedCaseView>,
    configuration: Seq<char>,
    kind: spec_fn(EvaluatedCaseView, Seq<EvaluatedRunView>) -> bool,
)
    ensures
        cases_with(cases, configuration, kind) <= cases.len(),
    decreases cases.len(),
{
    if cases.len() > 0 {
        lemma_cases_with_bounded(cases.drop_last(), configuration, kind);
    }
}

/// In a report no more cases are complete, stable or as expected than there are; there
/// is a report on each case; and nothing was counted in more runs than there are.
pub proof fn law_reports_count_each_case_once(
    c: ConfigurationView,
    cases: Seq<EvaluatedCaseView>,
)
    requires
        configuration_report(c, cases),
    ensures
        c.completed <= cases.len(),
        c.stable <= cases.len(),
        c.converged <= cases.len(),
        c.cases.len() == cases.len(),
        c.cases.to_multiset() == case_reports(cases, c.id).to_multiset(),
        crate::order::in_order(c.cases),
        c.totals.latency_coverage <= all_runs(cases, c.id).len(),
        c.totals.agent_time_coverage <= all_runs(cases, c.id).len(),
        c.totals.estimated_cost_coverage <= all_runs(cases, c.id).len(),
        c.totals.spent_cost_coverage <= all_runs(cases, c.id).len(),
{
    lemma_cases_with_bounded(
        cases,
        c.id,
        |case: EvaluatedCaseView, runs: Seq<EvaluatedRunView>| complete(runs),
    );
    lemma_cases_with_bounded(
        cases,
        c.id,
        |case: EvaluatedCaseView, runs: Seq<EvaluatedRunView>| stable(runs),
    );
    lemma_cases_with_bounded(
        cases,
        c.id,
        |case: EvaluatedCaseView, runs: Seq<EvaluatedRunView>|
            converged(case.expected_blocking, runs),
    );
    crate::order::law_sorted_is_in_order(case_reports(cases, c.id));
    crate::order::law_sorted_keeps_items(case_reports(cases, c.id));
    lemma_bounds(all_runs(cases, c.id));
}

/// Runs that repeat one run are stable.
pub proof fn law_repeated_runs_are_stable(run: EvaluatedRunView, runs: Seq<EvaluatedRunView>)
    requires
        runs.len() > 0,
        forall|i: int| 0 <= i < runs.len() ==> (#[trigger] runs[i]).findings == run.findings,
    ensures
        stable(runs),
{
}

// ---------------------------------------------------------------------------
// What holds of it
// ---------------------------------------------------------------------------

/// The runs of a case in a configuration are the first that are listed for it.
pub proof fn law_runs_are_those_listed_first(case: EvaluatedCaseView, configuration: Seq<char>, i: int)
    requires
        0 <= i < case.runs.len(),
        case.runs[i].0 == configuration,
        forall|j: int| 0 <= j < i ==> (#[trigger] case.runs[j]).0 != configuration,
    ensures
        runs_in(case, configuration) == case.runs[i].1,
        case_error(case, configuration) is None <==> case.runs[i].1.len() > 0,
{
    lemma_first_runs(case.runs, configuration, 0, i);
}

proof fn lemma_first_runs(
    runs: Seq<(Seq<char>, Seq<EvaluatedRunView>)>,
    configuration: Seq<char>,
    from: int,
    i: int,
)
    requires
        0 <= from <= i < runs.len(),
        runs[i].0 == configuration,
        forall|j: int| 0 <= j < i ==> (#[trigger] runs[j]).0 != configuration,
    ensures
        runs_from(runs, configuration, from) == Some(runs[i].1),
    decreases i - from,
{
    if from < i {
        assert(runs[from].0 != configuration);
        lemma_first_runs(runs, configuration, from + 1, i);
    }
}

/// A case for which a configuration has no runs is an error.
pub proof fn law_every_case_has_runs(case: EvaluatedCaseView, configuration: Seq<char>)
    requires
        forall|j: int| 0 <= j < case.runs.len() ==> (#[trigger] case.runs[j]).0 != configuration,
    ensures
        case_error(case, configuration) is Some,
        runs_in(case, configuration).len() == 0,
{
    lemma_no_runs(case.runs, configuration, 0);
}

proof fn lemma_no_runs(
    runs: Seq<(Seq<char>, Seq<EvaluatedRunView>)>,
    configuration: Seq<char>,
    from: int,
)
    requires
        0 <= from,
        forall|j: int| 0 <= j < runs.len() ==> (#[trigger] runs[j]).0 != configuration,
    ensures
        runs_from(runs, configuration, from) is None,
    decreases runs.len() - from,
{
    if from < runs.len() {
        assert(runs[from].0 != configuration);
        lemma_no_runs(runs, configuration, from + 1);
    }
}

/// A report is made only where every case has runs, and the error is of the first that has
/// none.
pub proof fn law_the_first_error_is_told(cases: Seq<EvaluatedCaseView>, configuration: Seq<char>)
    ensures
        cases_error(cases, configuration) is None <==> forall|i: int|
            0 <= i < cases.len() ==> case_error(#[trigger] cases[i], configuration) is None,
        cases_error(cases, configuration) is Some ==> exists|i: int|
            0 <= i < cases.len() && cases_error(cases, configuration) == case_error(
                #[trigger] cases[i],
                configuration,
            ) && forall|j: int|
                0 <= j < i ==> case_error(#[trigger] cases[j], configuration) is None,
    decreases cases.len(),
{
    if cases.len() > 0 {
        let rest = cases.drop_last();
        law_the_first_error_is_told(rest, configuration);
        if cases_error(rest, configuration) is None {
            assert forall|i: int| 0 <= i < cases.len() - 1 implies case_error(
                #[trigger] cases[i],
                configuration,
            ) is None by {
                assert(rest[i] == cases[i]);
            }
            assert(cases[cases.len() - 1] == cases.last());
        } else {
            let i = choose|i: int|
                0 <= i < rest.len() && cases_error(rest, configuration) == case_error(
                    #[trigger] rest[i],
                    configuration,
                ) && forall|j: int|
                    0 <= j < i ==> case_error(#[trigger] rest[j], configuration) is None;
            assert(rest[i] == cases[i]);
            assert forall|j: int| 0 <= j < i implies case_error(
                #[trigger] cases[j],
                configuration,
            ) is None by {
                assert(rest[j] == cases[j]);
            }
        }
    }
}

/// What is counted of two lists of cases together is what is counted of each.
pub proof fn law_counts_add_up(
    a: Seq<EvaluatedCaseView>,
    b: Seq<EvaluatedCaseView>,
    configuration: Seq<char>,
)
    ensures
        completed_cases(a + b, configuration) == completed_cases(a, configuration)
            + completed_cases(b, configuration),
        stable_cases(a + b, configuration) == stable_cases(a, configuration) + stable_cases(
            b,
            configuration,
        ),
        converged_cases(a + b, configuration) == converged_cases(a, configuration)
            + converged_cases(b, configuration),
        duplicates(a + b, configuration) == duplicates(a, configuration) + duplicates(
            b,
            configuration,
        ),
        all_runs(a + b, configuration) == all_runs(a, configuration) + all_runs(b, configuration),
    decreases b.len(),
{
    if b.len() == 0 {
        assert(a + b =~= a);
        assert(all_runs(a, configuration) + all_runs(b, configuration) =~= all_runs(
            a,
            configuration,
        ));
    } else {
        assert((a + b).drop_last() =~= a + b.drop_last());
        assert((a + b).last() == b.last());
        law_counts_add_up(a, b.drop_last(), configuration);
        assert(all_runs(a + b, configuration) =~= all_runs(a, configuration) + all_runs(
            b,
            configuration,
        ));
    }
}

/// What is counted of one case: it is completed if every run of it is complete; it is
/// stable if it was run and every run made the same findings as every other, however they
/// are ordered; and its duplicates are those of its first run.
pub proof fn law_one_case_is_counted(case: EvaluatedCaseView, configuration: Seq<char>)
    ensures
        ({
            let one = seq![case];
            let runs = runs_in(case, configuration);
            &&& completed_cases(one, configuration) <= 1
            &&& completed_cases(one, configuration) == 1 <==> forall|i: int|
                0 <= i < runs.len() ==> (#[trigger] runs[i]).review_complete
            &&& stable_cases(one, configuration) <= 1
            &&& runs.len() > 0 ==> (stable_cases(one, configuration) == 1 <==> forall|i: int,
                j: int|
                0 <= i < runs.len() && 0 <= j < runs.len() ==> (
                #[trigger] runs[i]).findings.to_multiset() == (
                #[trigger] runs[j]).findings.to_multiset())
            &&& runs.len() == 0 ==> stable_cases(one, configuration) == 0
            &&& converged_cases(one, configuration) <= 1
            &&& duplicates(one, configuration) == runs[0].score.duplicate_findings.len()
            &&& all_runs(one, configuration) == runs
        }),
{
    let one = seq![case];
    let runs = runs_in(case, configuration);
    assert(one.drop_last() =~= Seq::empty());
    assert(one.last() == case);
    reveal_with_fuel(cases_with, 2);
    reveal_with_fuel(duplicates, 2);
    reveal_with_fuel(all_runs, 2);
    assert(all_runs(one, configuration) =~= runs);
    if runs.len() > 0 && stable(runs) {
        assert forall|i: int, j: int| 0 <= i < runs.len() && 0 <= j < runs.len() implies (
        #[trigger] runs[i]).findings.to_multiset() == (
        #[trigger] runs[j]).findings.to_multiset() by {}
    }
}

/// A case converged by its last run alone. Where a blocker is expected, that run has to
/// raise a true one and no false one; where none is, it may raise none at all.
pub proof fn law_cases_converge_by_their_last_run(case: EvaluatedCaseView, configuration: Seq<char>)
    requires
        runs_in(case, configuration).len() > 0,
    ensures
        ({
            let runs = runs_in(case, configuration);
            let last = runs[runs.len() - 1].score;
            let count = converged_cases(seq![case], configuration);
            &&& !case.expected_blocking && last.observed_blockers == 0 ==> count == 1
            &&& !case.expected_blocking && last.observed_blockers > 0 ==> count == 0
            &&& case.expected_blocking && last.true_blockers == 0 ==> count == 0
            &&& case.expected_blocking && last.false_blockers > 0 ==> count == 0
            &&& case.expected_blocking && last.true_blockers > 0 && last.false_blockers == 0
                ==> count == 1
        }),
{
    let one = seq![case];
    assert(one.drop_last() =~= Seq::empty());
    assert(one.last() == case);
    reveal_with_fuel(cases_with, 2);
}

/// Where no case expects a blocker, all of them converge if no last run raised one, and
/// none does if each raised one.
pub proof fn law_clean_cases_converge_without_blockers(
    cases: Seq<EvaluatedCaseView>,
    configuration: Seq<char>,
)
    requires
        forall|i: int|
            0 <= i < cases.len() ==> !(#[trigger] cases[i]).expected_blocking && runs_in(
                cases[i],
                configuration,
            ).len() > 0,
    ensures
        (forall|i: int|
            0 <= i < cases.len() ==> runs_in(
                #[trigger] cases[i],
                configuration,
            ).last().score.observed_blockers == 0) ==> converged_cases(cases, configuration)
            == cases.len(),
        (forall|i: int|
            0 <= i < cases.len() ==> runs_in(
                #[trigger] cases[i],
                configuration,
            ).last().score.observed_blockers > 0) ==> converged_cases(cases, configuration) == 0,
    decreases cases.len(),
{
    if cases.len() > 0 {
        let rest = cases.drop_last();
        assert forall|i: int| 0 <= i < rest.len() implies !(
        #[trigger] rest[i]).expected_blocking && runs_in(rest[i], configuration).len() > 0 by {
            assert(rest[i] == cases[i]);
        }
        law_clean_cases_converge_without_blockers(rest, configuration);
        assert(cases[cases.len() - 1] == cases.last());
        if forall|i: int|
            0 <= i < cases.len() ==> runs_in(
                #[trigger] cases[i],
                configuration,
            ).last().score.observed_blockers == 0 {
            assert forall|i: int| 0 <= i < rest.len() implies runs_in(
                #[trigger] rest[i],
                configuration,
            ).last().score.observed_blockers == 0 by {
                assert(rest[i] == cases[i]);
            }
        }
        if forall|i: int|
            0 <= i < cases.len() ==> runs_in(
                #[trigger] cases[i],
                configuration,
            ).last().score.observed_blockers > 0 {
            assert forall|i: int| 0 <= i < rest.len() implies runs_in(
                #[trigger] rest[i],
                configuration,
            ).last().score.observed_blockers > 0 by {
                assert(rest[i] == cases[i]);
            }
        }
    }
}

/// Where every case expects a blocker, all of them converge if every last run raised a
/// true one and no false one, and none does if each raised a false one or no true one.
pub proof fn law_blocking_cases_converge_by_true_blockers(
    cases: Seq<EvaluatedCaseView>,
    configuration: Seq<char>,
)
    requires
        forall|i: int|
            0 <= i < cases.len() ==> (#[trigger] cases[i]).expected_blocking && runs_in(
                cases[i],
                configuration,
            ).len() > 0,
    ensures
        (forall|i: int|
            0 <= i < cases.len() ==> ({
                let last = runs_in(#[trigger] cases[i], configuration).last().score;
                last.true_blockers > 0 && last.false_blockers == 0
            })) ==> converged_cases(cases, configuration) == cases.len(),
        (forall|i: int|
            0 <= i < cases.len() ==> ({
                let last = runs_in(#[trigger] cases[i], configuration).last().score;
                last.true_blockers == 0 || last.false_blockers > 0
            })) ==> converged_cases(cases, configuration) == 0,
    decreases cases.len(),
{
    if cases.len() > 0 {
        let rest = cases.drop_last();
        assert forall|i: int| 0 <= i < rest.len() implies (
        #[trigger] rest[i]).expected_blocking && runs_in(rest[i], configuration).len() > 0 by {
            assert(rest[i] == cases[i]);
        }
        law_blocking_cases_converge_by_true_blockers(rest, configuration);
        assert(cases[cases.len() - 1] == cases.last());
        if forall|i: int|
            0 <= i < cases.len() ==> ({
                let last = runs_in(#[trigger] cases[i], configuration).last().score;
                last.true_blockers > 0 && last.false_blockers == 0
            }) {
            assert forall|i: int| 0 <= i < rest.len() implies ({
                let last = runs_in(#[trigger] rest[i], configuration).last().score;
                last.true_blockers > 0 && last.false_blockers == 0
            }) by {
                assert(rest[i] == cases[i]);
            }
        }
        if forall|i: int|
            0 <= i < cases.len() ==> ({
                let last = runs_in(#[trigger] cases[i], configuration).last().score;
                last.true_blockers == 0 || last.false_blockers > 0
            }) {
            assert forall|i: int| 0 <= i < rest.len() implies ({
                let last = runs_in(#[trigger] rest[i], configuration).last().score;
                last.true_blockers == 0 || last.false_blockers > 0
            }) by {
                assert(rest[i] == cases[i]);
            }
        }
    }
}

/// The totals of two lists of runs together are those of each added up, and times that are
/// not known count nowhere.
pub proof fn law_totals_add_up(a: Seq<EvaluatedRunView>, b: Seq<EvaluatedRunView>)
    ensures
        sum_of(latencies(a + b)) == sum_of(latencies(a)) + sum_of(latencies(b)),
        known_of(latencies(a + b)) == known_of(latencies(a)) + known_of(latencies(b)),
        sum_of(agent_times(a + b)) == sum_of(agent_times(a)) + sum_of(agent_times(b)),
        known_of(agent_times(a + b)) == known_of(agent_times(a)) + known_of(agent_times(b)),
        occurrences(estimates(a + b), true) == occurrences(estimates(a), true) + occurrences(
            estimates(b),
            true,
        ),
        occurrences(spendings(a + b), true) == occurrences(spendings(a), true) + occurrences(
            spendings(b),
            true,
        ),
{
    lemma_times_add_up(latencies(a), latencies(b));
    assert(latencies(a + b) =~= latencies(a) + latencies(b));
    lemma_times_add_up(agent_times(a), agent_times(b));
    assert(agent_times(a + b) =~= agent_times(a) + agent_times(b));
    lemma_occurrences_add_up(estimates(a), estimates(b), true);
    assert(estimates(a + b) =~= estimates(a) + estimates(b));
    lemma_occurrences_add_up(spendings(a), spendings(b), true);
    assert(spendings(a + b) =~= spendings(a) + spendings(b));
}

proof fn lemma_times_add_up(a: Seq<Option<u64>>, b: Seq<Option<u64>>)
    ensures
        sum_of(a + b) == sum_of(a) + sum_of(b),
        known_of(a + b) == known_of(a) + known_of(b),
    decreases b.len(),
{
    if b.len() == 0 {
        assert(a + b =~= a);
    } else {
        assert((a + b).drop_last() =~= a + b.drop_last());
        lemma_times_add_up(a, b.drop_last());
    }
}

proof fn lemma_occurrences_add_up<A>(a: Seq<A>, b: Seq<A>, x: A)
    ensures
        occurrences(a + b, x) == occurrences(a, x) + occurrences(b, x),
    decreases b.len(),
{
    if b.len() == 0 {
        assert(a + b =~= a);
    } else {
        assert((a + b).drop_last() =~= a + b.drop_last());
        lemma_occurrences_add_up(a, b.drop_last(), x);
    }
}

/// What one run adds to the totals of a report: its times where they are known, and
/// whether its costs are.
pub proof fn law_one_run_is_totalled(t: RunTotals, run: EvaluatedRunView)
    requires
        totals_of(t, seq![run]),
    ensures
        run.latency_ms matches Some(ms) ==> t.latency_total == ms && t.latency_coverage == 1,
        run.latency_ms is None ==> t.latency_total == 0 && t.latency_coverage == 0,
        run.agent_time_ms matches Some(ms) ==> t.agent_time_total == ms && t.agent_time_coverage
            == 1,
        run.agent_time_ms is None ==> t.agent_time_total == 0 && t.agent_time_coverage == 0,
        run.cost_estimated ==> t.estimated_cost_coverage == 1,
        !run.cost_estimated ==> t.estimated_cost_coverage == 0,
        run.cost_spent ==> t.spent_cost_coverage == 1,
        !run.cost_spent ==> t.spent_cost_coverage == 0,
{
    let one = seq![run];
    assert(latencies(one).drop_last() =~= Seq::empty());
    assert(agent_times(one).drop_last() =~= Seq::empty());
    assert(estimates(one).drop_last() =~= Seq::empty());
    assert(spendings(one).drop_last() =~= Seq::empty());
    assert(latencies(one).last() == run.latency_ms);
    assert(agent_times(one).last() == run.agent_time_ms);
    assert(estimates(one).last() == run.cost_estimated);
    assert(spendings(one).last() == run.cost_spent);
    reveal_with_fuel(sum_of, 2);
    reveal_with_fuel(known_of, 2);
    reveal_with_fuel(occurrences, 2);
}

/// The totals of no runs are nothing.
pub proof fn law_no_runs_total_nothing(t: RunTotals)
    requires
        totals_of(t, Seq::empty()),
    ensures
        t.latency_total == 0 && t.latency_coverage == 0,
        t.agent_time_total == 0 && t.agent_time_coverage == 0,
        t.estimated_cost_coverage == 0 && t.spent_cost_coverage == 0,
{
    let none = Seq::<EvaluatedRunView>::empty();
    assert(latencies(none) =~= Seq::empty());
    assert(agent_times(none) =~= Seq::empty());
    assert(estimates(none) =~= Seq::empty());
    assert(spendings(none) =~= Seq::empty());
}

/// Every case has its row in the report, which tells what its first run found and whether
/// all its runs were complete; and every row is of a case.
pub proof fn law_rows_tell_the_first_run(
    c: ConfigurationView,
    cases: Seq<EvaluatedCaseView>,
    i: int,
)
    requires
        configuration_report(c, cases),
        0 <= i < cases.len(),
        runs_in(cases[i], c.id).len() > 0,
    ensures
        exists|k: int|
            0 <= k < c.cases.len() && ({
                let row = #[trigger] c.cases[k];
                let runs = runs_in(cases[i], c.id);
                &&& row.position == i
                &&& row.case_id == runs[0].case_id
                &&& row.name == cases[i].name
                &&& row.expected_blocking == cases[i].expected_blocking
                &&& row.review_complete <==> forall|j: int|
                    0 <= j < runs.len() ==> (#[trigger] runs[j]).review_complete
                &&& row.observed_blocking <==> runs[0].score.observed_blockers > 0
                &&& row.true_blockers == runs[0].score.true_blockers
                &&& row.false_blockers == runs[0].score.false_blockers
                &&& row.missed_serious_defects == runs[0].score.missed_serious_defects
                &&& row.contradicted_non_findings == runs[0].score.contradicted_non_findings
                &&& row.unexpected_blockers == runs[0].score.unexpected_blockers
                &&& row.duplicate_findings == runs[0].score.duplicate_findings
            }),
{
    let rows = case_reports(cases, c.id);
    let row = rows[i];
    crate::order::law_sorted_keeps_items(rows);
    rows.to_multiset_ensures();
    c.cases.to_multiset_ensures();
    assert(rows.contains(row));
    assert(rows.to_multiset().contains(row));
    assert(c.cases.to_multiset().contains(row));
    assert(c.cases.contains(row));
    let k = choose|k: int| 0 <= k < c.cases.len() && c.cases[k] == row;
    assert(c.cases[k] == row);
}

/// What a report says of its corpus: the baseline and the candidate are the first
/// configurations in their roles, the corpus is complete if it has as many cases as it
/// must, and the languages and risk classes are those of the cases, each once and in order.
pub proof fn law_reports_describe_the_corpus(
    b: BenchmarkView,
    planned: Seq<(Seq<char>, BenchmarkConfigurationRole)>,
    cases: Seq<EvaluatedCaseView>,
    minimum_case_count: nat,
)
    requires
        benchmark_report(b, planned, cases, minimum_case_count),
    ensures
        0 <= b.baseline < planned.len() && planned[b.baseline].1
            == BenchmarkConfigurationRole::Baseline,
        forall|j: int|
            0 <= j < b.baseline ==> (#[trigger] planned[j]).1
                != BenchmarkConfigurationRole::Baseline,
        0 <= b.candidate < planned.len() && planned[b.candidate].1
            == BenchmarkConfigurationRole::Candidate,
        forall|j: int|
            0 <= j < b.candidate ==> (#[trigger] planned[j]).1
                != BenchmarkConfigurationRole::Candidate,
        b.corpus_complete <==> minimum_case_count <= cases.len(),
        forall|t: Seq<char>|
            #[trigger] b.languages.contains(t) <==> exists|i: int|
                0 <= i < cases.len() && (#[trigger] cases[i]).language == t,
        forall|t: Seq<char>|
            #[trigger] b.risk_classes.contains(t) <==> exists|i: int|
                0 <= i < cases.len() && (#[trigger] cases[i]).risk_class == t,
        b.languages.no_duplicates() && b.risk_classes.no_duplicates(),
        crate::order::in_order(b.languages) && crate::order::in_order(b.risk_classes),
{
    lemma_first_role(planned, BenchmarkConfigurationRole::Baseline, 0);
    lemma_first_role(planned, BenchmarkConfigurationRole::Candidate, 0);
    let languages = languages_of(cases);
    let classes = risk_classes_of(cases);
    crate::order::law_ordered_set(languages);
    crate::order::law_ordered_set(classes);
    assert forall|t: Seq<char>| #[trigger] b.languages.contains(t) <==> exists|i: int|
        0 <= i < cases.len() && (#[trigger] cases[i]).language == t by {
        if languages.contains(t) {
            let i = choose|i: int| 0 <= i < languages.len() && languages[i] == t;
            assert(cases[i].language == t);
        }
        if exists|i: int| 0 <= i < cases.len() && (#[trigger] cases[i]).language == t {
            let i = choose|i: int| 0 <= i < cases.len() && (#[trigger] cases[i]).language == t;
            assert(languages[i] == t);
        }
    }
    assert forall|t: Seq<char>| #[trigger] b.risk_classes.contains(t) <==> exists|i: int|
        0 <= i < cases.len() && (#[trigger] cases[i]).risk_class == t by {
        if classes.contains(t) {
            let i = choose|i: int| 0 <= i < classes.len() && classes[i] == t;
            assert(cases[i].risk_class == t);
        }
        if exists|i: int| 0 <= i < cases.len() && (#[trigger] cases[i]).risk_class == t {
            let i = choose|i: int| 0 <= i < cases.len() && (#[trigger] cases[i]).risk_class == t;
            assert(classes[i] == t);
        }
    }
}

proof fn lemma_first_role(
    planned: Seq<(Seq<char>, BenchmarkConfigurationRole)>,
    role: BenchmarkConfigurationRole,
    from: int,
)
    requires
        0 <= from,
    ensures
        first_with_role(planned, role, from) matches Some(i) ==> from <= i < planned.len()
            && planned[i].1 == role && forall|j: int|
            from <= j < i ==> (#[trigger] planned[j]).1 != role,
        first_with_role(planned, role, from) is None ==> forall|j: int|
            from <= j < planned.len() ==> (#[trigger] planned[j]).1 != role,
    decreases planned.len() - from,
{
    if from < planned.len() && planned[from].1 != role {
        lemma_first_role(planned, role, from + 1);
    }
}

/// A report is made exactly if there are cases, every configuration has runs of each, and
/// there are a baseline and a candidate.
pub proof fn law_reports_are_made_of_complete_corpora(
    planned: Seq<(Seq<char>, BenchmarkConfigurationRole)>,
    cases: Seq<EvaluatedCaseView>,
)
    ensures
        report_error(planned, cases) is None <==> ({
            &&& cases.len() > 0
            &&& forall|i: int, j: int|
                0 <= i < planned.len() && 0 <= j < cases.len() ==> case_error(
                    #[trigger] cases[j],
                    (#[trigger] planned[i]).0,
                ) is None
            &&& exists|i: int|
                0 <= i < planned.len() && (#[trigger] planned[i]).1
                    == BenchmarkConfigurationRole::Baseline
            &&& exists|i: int|
                0 <= i < planned.len() && (#[trigger] planned[i]).1
                    == BenchmarkConfigurationRole::Candidate
        }),
{
    lemma_first_role(planned, BenchmarkConfigurationRole::Baseline, 0);
    lemma_first_role(planned, BenchmarkConfigurationRole::Candidate, 0);
    lemma_runs_errors(planned, cases);
    assert forall|i: int| 0 <= i < planned.len() implies (cases_error(
        cases,
        (#[trigger] planned[i]).0,
    ) is None <==> forall|j: int|
        0 <= j < cases.len() ==> case_error(#[trigger] cases[j], planned[i].0) is None) by {
        law_the_first_error_is_told(cases, planned[i].0);
    }
}

proof fn lemma_runs_errors(
    planned: Seq<(Seq<char>, BenchmarkConfigurationRole)>,
    cases: Seq<EvaluatedCaseView>,
)
    ensures
        runs_error(planned, cases) is None <==> forall|i: int|
            0 <= i < planned.len() ==> cases_error(cases, (#[trigger] planned[i]).0) is None,
    decreases planned.len(),
{
    if planned.len() > 0 {
        let rest = planned.drop_last();
        lemma_runs_errors(rest, cases);
        assert(planned[planned.len() - 1] == planned.last());
        if runs_error(rest, cases) is None {
            assert forall|i: int| 0 <= i < planned.len() - 1 implies cases_error(
                cases,
                (#[trigger] planned[i]).0,
            ) is None by {
                assert(rest[i] == planned[i]);
            }
        } else {
            let i = choose|i: int|
                0 <= i < rest.len() && cases_error(cases, (#[trigger] rest[i]).0) is Some;
            assert(rest[i] == planned[i]);
        }
    }
}

} // verus!
