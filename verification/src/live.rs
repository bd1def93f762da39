//! How cases are evaluated: which is prepared, when a review is asked for, when that stops,
//! and what runs each case ends up with.
use vstd::prelude::*;

use crate::benchmark::{
    configured_views, evaluated_case_views, evaluated_run_views, observed_views, occurrences,
    BenchmarkObservedFinding, BenchmarkRunScore, ConfigurationRuns, EvaluatedCase,
    EvaluatedCaseView, EvaluatedRun, EvaluatedRunView, RunScoreView,
};
use crate::list::{copy_texts, distinct, law_distinct};
use crate::order::{law_sorted_keeps_items, ordered_set, sort_unique};
use crate::text::{same_text, views};

verus! {

/// A case that is prepared.
#[derive(Debug, PartialEq, Eq)]
pub struct PreparedCase {
    pub id: String,
    pub name: String,
    pub language: String,
    pub risk_class: String,
    pub expected_blocking: bool,
}

/// A case that is prepared.
pub struct PreparedView {
    pub id: Seq<char>,
    pub name: Seq<char>,
    pub language: Seq<char>,
    pub risk_class: Seq<char>,
    pub expected_blocking: bool,
}

impl View for PreparedCase {
    type V = PreparedView;

    open spec fn view(&self) -> PreparedView {
        PreparedView {
            id: self.id@,
            name: self.name@,
            language: self.language@,
            risk_class: self.risk_class@,
            expected_blocking: self.expected_blocking,
        }
    }
}

/// The view of a case that there may be.
pub open spec fn opt_prepared(case: Option<PreparedCase>) -> Option<PreparedView> {
    match case {
        Some(c) => Some(c@),
        None => None,
    }
}

/// What a review came to in one configuration.
#[derive(Debug, PartialEq, Eq)]
pub struct ObservedRun {
    pub findings: Vec<BenchmarkObservedFinding>,
    pub score: BenchmarkRunScore,
}

/// What a review came to in one configuration.
pub struct ObservedView {
    pub findings: Seq<(Seq<char>, bool)>,
    pub score: RunScoreView,
}

impl View for ObservedRun {
    type V = ObservedView;

    open spec fn view(&self) -> ObservedView {
        ObservedView { findings: observed_views(self.findings@), score: self.score@ }
    }
}

/// What reviews came to.
pub open spec fn observed_run_views(s: Seq<ObservedRun>) -> Seq<ObservedView> {
    s.map_values(|o: ObservedRun| o@)
}

/// A review that was asked for, with what it came to in each configuration.
#[derive(Debug, PartialEq, Eq)]
pub struct LiveAnswer {
    pub review_complete: bool,
    pub cost_estimated: bool,
    pub cost_spent: bool,
    pub latency_ms: Option<u64>,
    pub observed: Vec<ObservedRun>,
}

/// A review that was asked for, with what it came to in each configuration.
pub struct LiveAnswerView {
    pub review_complete: bool,
    pub cost_estimated: bool,
    pub cost_spent: bool,
    pub latency_ms: Option<u64>,
    pub observed: Seq<ObservedView>,
}

impl View for LiveAnswer {
    type V = LiveAnswerView;

    open spec fn view(&self) -> LiveAnswerView {
        LiveAnswerView {
            review_complete: self.review_complete,
            cost_estimated: self.cost_estimated,
            cost_spent: self.cost_spent,
            latency_ms: self.latency_ms,
            observed: observed_run_views(self.observed@),
        }
    }
}

/// What is done next.
#[derive(Debug, Clone, Copy, PartialEq, Eq, Structural)]
pub enum LiveStep {
    /// Prepare the case at this position.
    Prepare { position: usize },
    /// Ask for a review of the case, for the time that is given.
    Ask { repetition: usize },
    /// Stop before that time, because the limit on the cost is reached.
    Stop { repetition: usize },
    /// All cases are evaluated.
    Done,
}

/// How far the evaluation of the cases has come.
#[derive(Debug, PartialEq, Eq)]
pub struct LiveEvaluation {
    case_count: usize,
    repetitions: usize,
    configurations: Vec<String>,
    current: Option<PreparedCase>,
    repetition: usize,
    runs: Vec<ConfigurationRuns>,
    evaluated: Vec<EvaluatedCase>,
}

/// How far the evaluation of the cases has come.
#[verifier::ext_equal]
pub struct LiveView {
    /// How many cases there are, and how often each is reviewed.
    pub case_count: nat,
    pub repetitions: nat,
    pub configurations: Seq<Seq<char>>,
    /// The case that is under way, how often it was reviewed, and its runs so far.
    pub current: Option<PreparedView>,
    pub repetition: nat,
    pub runs: Seq<(Seq<char>, Seq<EvaluatedRunView>)>,
    /// The cases that are done.
    pub evaluated: Seq<EvaluatedCaseView>,
}

impl View for LiveEvaluation {
    type V = LiveView;

    closed spec fn view(&self) -> LiveView {
        LiveView {
            case_count: self.case_count as nat,
            repetitions: self.repetitions as nat,
            configurations: views(self.configurations@),
            current: opt_prepared(self.current),
            repetition: self.repetition as nat,
            runs: configured_views(self.runs@),
            evaluated: evaluated_case_views(self.evaluated@),
        }
    }
}

// ---------------------------------------------------------------------------
// Runs
// ---------------------------------------------------------------------------

/// No runs, for each configuration once, in the order of their names.
pub open spec fn no_runs(configurations: Seq<Seq<char>>) -> Seq<
    (Seq<char>, Seq<EvaluatedRunView>),
> {
    ordered_set(configurations).map_values(
        |id: Seq<char>| (id, Seq::<EvaluatedRunView>::empty()),
    )
}

/// A run more in a configuration.
pub open spec fn with_run(
    runs: Seq<(Seq<char>, Seq<EvaluatedRunView>)>,
    configuration: Seq<char>,
    run: EvaluatedRunView,
) -> Seq<(Seq<char>, Seq<EvaluatedRunView>)> {
    runs.map_values(
        |entry: (Seq<char>, Seq<EvaluatedRunView>)|
            if entry.0 == configuration {
                (entry.0, entry.1.push(run))
            } else {
                entry
            },
    )
}

/// A run more in each configuration.
pub open spec fn with_runs(
    runs: Seq<(Seq<char>, Seq<EvaluatedRunView>)>,
    configurations: Seq<Seq<char>>,
    new: Seq<EvaluatedRunView>,
) -> Seq<(Seq<char>, Seq<EvaluatedRunView>)>
    decreases new.len(),
{
    if new.len() == 0 {
        runs
    } else {
        with_run(
            with_runs(runs, configurations, new.drop_last()),
            configurations[new.len() - 1],
            new.last(),
        )
    }
}

/// The run that an answer is in one configuration.
pub open spec fn run_of(
    case: PreparedView,
    answer: LiveAnswerView,
    observed: ObservedView,
) -> EvaluatedRunView {
    EvaluatedRunView {
        case_id: case.id,
        review_complete: answer.review_complete,
        findings: observed.findings,
        score: observed.score,
        cost_estimated: answer.cost_estimated,
        cost_spent: answer.cost_spent,
        latency_ms: answer.latency_ms,
        agent_time_ms: None,
    }
}

/// The runs that an answer is.
pub open spec fn runs_of(case: PreparedView, answer: LiveAnswerView) -> Seq<EvaluatedRunView> {
    answer.observed.map_values(|observed: ObservedView| run_of(case, answer, observed))
}

/// A case with its runs.
pub open spec fn evaluated_case(
    case: PreparedView,
    runs: Seq<(Seq<char>, Seq<EvaluatedRunView>)>,
) -> EvaluatedCaseView {
    EvaluatedCaseView {
        id: case.id,
        name: case.name,
        language: case.language,
        risk_class: case.risk_class,
        expected_blocking: case.expected_blocking,
        runs,
    }
}

/// Each configuration has a run for each time, as often as it is named.
pub open spec fn runs_complete(
    runs: Seq<(Seq<char>, Seq<EvaluatedRunView>)>,
    configurations: Seq<Seq<char>>,
    times: nat,
) -> bool {
    &&& runs.map_values(|entry: (Seq<char>, Seq<EvaluatedRunView>)| entry.0) == ordered_set(
        configurations,
    )
    &&& forall|i: int|
        0 <= i < runs.len() ==> (#[trigger] runs[i]).1.len() == times * occurrences(
            configurations,
            runs[i].0,
        )
}

// ---------------------------------------------------------------------------
// Steps
// ---------------------------------------------------------------------------

/// The evaluation is one that can come about: a case is under way only while reviews of it
/// are left, and every case has the runs that are due.
pub open spec fn live_valid(v: LiveView) -> bool {
    &&& v.evaluated.len() <= v.case_count
    &&& match v.current {
        Some(_) => v.evaluated.len() < v.case_count && v.repetition < v.repetitions
            && runs_complete(v.runs, v.configurations, v.repetition),
        None => v.repetition == 0,
    }
    &&& forall|i: int|
        0 <= i < v.evaluated.len() ==> runs_complete(
            (#[trigger] v.evaluated[i]).runs,
            v.configurations,
            v.repetitions,
        )
}

/// The beginning of an evaluation.
pub open spec fn live_start(
    case_count: nat,
    repetitions: nat,
    configurations: Seq<Seq<char>>,
) -> LiveView {
    LiveView {
        case_count,
        repetitions,
        configurations,
        current: None,
        repetition: 0,
        runs: Seq::empty(),
        evaluated: Seq::empty(),
    }
}

/// What is done next.
pub open spec fn live_next(v: LiveView, limit_reached: bool) -> LiveStep {
    match v.current {
        Some(_) => if limit_reached {
            LiveStep::Stop { repetition: (v.repetition + 1) as usize }
        } else {
            LiveStep::Ask { repetition: (v.repetition + 1) as usize }
        },
        None => if v.evaluated.len() < v.case_count {
            LiveStep::Prepare { position: v.evaluated.len() as usize }
        } else {
            LiveStep::Done
        },
    }
}

/// The case is done.
pub open spec fn close_case(
    v: LiveView,
    case: PreparedView,
    runs: Seq<(Seq<char>, Seq<EvaluatedRunView>)>,
) -> LiveView {
    LiveView {
        current: None,
        repetition: 0,
        runs: Seq::empty(),
        evaluated: v.evaluated.push(evaluated_case(case, runs)),
        ..v
    }
}

/// What follows once a case is prepared.
pub open spec fn live_prepared(v: LiveView, case: PreparedView) -> LiveView {
    if v.repetitions == 0 {
        close_case(v, case, no_runs(v.configurations))
    } else {
        LiveView { current: Some(case), repetition: 0, runs: no_runs(v.configurations), ..v }
    }
}

/// What follows once a review is there.
pub open spec fn live_answered(v: LiveView, answer: LiveAnswerView) -> LiveView {
    let case = v.current->0;
    let runs = with_runs(v.runs, v.configurations, runs_of(case, answer));
    if v.repetition + 1 == v.repetitions {
        close_case(v, case, runs)
    } else {
        LiveView { repetition: v.repetition + 1, runs, ..v }
    }
}

/// Each of the texts stands once.
proof fn lemma_ordered_set(texts: Seq<Seq<char>>)
    ensures
        ordered_set(texts).no_duplicates(),
        forall|x: Seq<char>| ordered_set(texts).contains(x) <==> texts.contains(x),
{
    broadcast use vstd::seq_lib::group_to_multiset_ensures;

    let once = distinct(texts);
    let all = ordered_set(texts);
    law_distinct(texts);
    law_sorted_keeps_items(once);
    once.lemma_multiset_has_no_duplicates();
    all.lemma_multiset_has_no_duplicates_conv();
    assert forall|x: Seq<char>| all.contains(x) <==> texts.contains(x) by {
        assert(all.contains(x) <==> all.to_multiset().count(x) > 0);
        assert(once.contains(x) <==> once.to_multiset().count(x) > 0);
    }
}

proof fn lemma_no_runs(configurations: Seq<Seq<char>>)
    ensures
        runs_complete(no_runs(configurations), configurations, 0),
{
    assert(no_runs(configurations).map_values(
        |entry: (Seq<char>, Seq<EvaluatedRunView>)| entry.0,
    ) =~= ordered_set(configurations));
}

/// The runs that a number of new ones adds to each configuration.
proof fn lemma_with_runs(
    runs: Seq<(Seq<char>, Seq<EvaluatedRunView>)>,
    configurations: Seq<Seq<char>>,
    new: Seq<EvaluatedRunView>,
)
    requires
        new.len() <= configurations.len(),
    ensures
        with_runs(runs, configurations, new).len() == runs.len(),
        forall|i: int|
            0 <= i < runs.len() ==> (#[trigger] with_runs(runs, configurations, new)[i]).0
                == runs[i].0 && with_runs(runs, configurations, new)[i].1.len() == runs[i].1.len()
                + occurrences(configurations.take(new.len() as int), runs[i].0),
    decreases new.len(),
{
    if new.len() > 0 {
        let n = new.len() as int;
        lemma_with_runs(runs, configurations, new.drop_last());
        assert(configurations.take(n).drop_last() =~= configurations.take(n - 1));
        assert(configurations.take(n).last() == configurations[n - 1]);
    }
}

proof fn lemma_answered_runs(
    runs: Seq<(Seq<char>, Seq<EvaluatedRunView>)>,
    configurations: Seq<Seq<char>>,
    new: Seq<EvaluatedRunView>,
    times: nat,
)
    requires
        new.len() == configurations.len(),
        runs_complete(runs, configurations, times),
    ensures
        runs_complete(with_runs(runs, configurations, new), configurations, times + 1),
{
    let after = with_runs(runs, configurations, new);
    lemma_with_runs(runs, configurations, new);
    assert(configurations.take(new.len() as int) =~= configurations);
    assert(after.map_values(|entry: (Seq<char>, Seq<EvaluatedRunView>)| entry.0)
        =~= runs.map_values(|entry: (Seq<char>, Seq<EvaluatedRunView>)| entry.0));
    assert forall|i: int| 0 <= i < after.len() implies (#[trigger] after[i]).1.len() == (times + 1)
        * occurrences(configurations, after[i].0) by {
        assert(runs[i].1.len() == times * occurrences(configurations, runs[i].0));
        let n = occurrences(configurations, runs[i].0);
        assert((times + 1) * n == times * n + n) by (nonlinear_arith);
    }
}

/// What can come about stays so, whatever is prepared and answered.
pub proof fn law_evaluations_stay_valid(v: LiveView, case: PreparedView, answer: LiveAnswerView)
    requires
        live_valid(v),
    ensures
        v.current is None && v.evaluated.len() < v.case_count ==> live_valid(
            live_prepared(v, case),
        ),
        v.current is Some && answer.observed.len() == v.configurations.len() ==> live_valid(
            live_answered(v, answer),
        ),
{
    lemma_no_runs(v.configurations);
    if v.current is Some && answer.observed.len() == v.configurations.len() {
        lemma_answered_runs(
            v.runs,
            v.configurations,
            runs_of(v.current->0, answer),
            v.repetition,
        );
    }
}

/// How many reviews were asked for.
pub open spec fn live_requests(v: LiveView) -> nat {
    v.evaluated.len() * v.repetitions + v.repetition
}

/// No more reviews are asked for than there are cases, each time that it is reviewed: every
/// answer is counted, preparing asks for none, and one is asked for only while there are
/// fewer.
pub proof fn law_live_requests_are_bounded(
    v: LiveView,
    case: PreparedView,
    answer: LiveAnswerView,
    limit_reached: bool,
)
    requires
        live_valid(v),
    ensures
        live_requests(v) <= v.case_count * v.repetitions,
        live_next(v, limit_reached) is Ask ==> live_requests(v) < v.case_count * v.repetitions,
        v.current is Some ==> live_requests(live_answered(v, answer)) == live_requests(v) + 1,
        v.current is None ==> live_requests(live_prepared(v, case)) == live_requests(v),
{
    let done = v.evaluated.len();
    let times = v.repetitions;
    assert((done + 1) * times == done * times + times) by (nonlinear_arith);
    if v.current is Some {
        assert((done + 1) * times <= v.case_count * times) by (nonlinear_arith)
            requires
                done + 1 <= v.case_count,
        ;
    } else {
        assert(done * times <= v.case_count * times) by (nonlinear_arith)
            requires
                done <= v.case_count,
        ;
    }
}

/// Once the limit on the cost is reached, no review is asked for.
pub proof fn law_nothing_is_asked_over_the_limit(v: LiveView)
    ensures
        !(live_next(v, true) is Ask),
{
}

/// In the end every case is evaluated, and where the configurations have different names,
/// each of them has exactly as many runs as the case was to be reviewed.
pub proof fn law_evaluated_cases_have_every_run(v: LiveView, limit_reached: bool, position: int)
    requires
        live_valid(v),
        live_next(v, limit_reached) is Done,
        v.configurations.no_duplicates(),
        0 <= position < v.case_count,
    ensures
        v.evaluated.len() == v.case_count,
        v.evaluated[position].runs.map_values(
            |entry: (Seq<char>, Seq<EvaluatedRunView>)| entry.0,
        ) == ordered_set(v.configurations),
        forall|i: int|
            0 <= i < v.evaluated[position].runs.len() ==> (
            #[trigger] v.evaluated[position].runs[i]).1.len() == v.repetitions,
{
    let runs = v.evaluated[position].runs;
    assert(runs_complete(runs, v.configurations, v.repetitions));
    assert forall|i: int| 0 <= i < runs.len() implies (#[trigger] runs[i]).1.len()
        == v.repetitions by {
        let names = runs.map_values(|entry: (Seq<char>, Seq<EvaluatedRunView>)| entry.0);
        assert(names[i] == runs[i].0);
        lemma_ordered_set(v.configurations);
        assert(ordered_set(v.configurations).contains(runs[i].0));
        lemma_occurs_once(v.configurations, runs[i].0);
        assert(v.repetitions * 1 == v.repetitions) by (nonlinear_arith);
    }
}

proof fn lemma_occurs_once(texts: Seq<Seq<char>>, text: Seq<char>)
    requires
        texts.no_duplicates(),
    ensures
        occurrences(texts, text) == if texts.contains(text) {
            1nat
        } else {
            0nat
        },
    decreases texts.len(),
{
    if texts.len() > 0 {
        let rest = texts.drop_last();
        assert(rest.no_duplicates());
        lemma_occurs_once(rest, text);
        assert(texts =~= rest.push(texts.last()));
        if texts.last() == text {
            assert(texts[texts.len() - 1] == text);
            if rest.contains(text) {
                let k = choose|k: int| 0 <= k < rest.len() && rest[k] == text;
                assert(texts[k] == text);
            }
        } else if texts.contains(text) {
            let k = choose|k: int| 0 <= k < texts.len() && texts[k] == text;
            assert(rest[k] == text);
        } else if rest.contains(text) {
            let k = choose|k: int| 0 <= k < rest.len() && rest[k] == text;
            assert(texts[k] == text);
        }
    }
}

// ---------------------------------------------------------------------------
// Evaluation
// ---------------------------------------------------------------------------

fn empty_runs(configurations: &Vec<String>) -> (r: Vec<ConfigurationRuns>)
    ensures
        configured_views(r@) == no_runs(views(configurations@)),
{
    let ghost wanted = no_runs(views(configurations@));
    let mut left = sort_unique(copy_texts(configurations));
    let ghost names = views(left@);
    let ghost start = left@;
    let ghost mut i: int = 0;
    let mut r: Vec<ConfigurationRuns> = Vec::new();
    proof {
        assert(left@ =~= start.skip(0));
        assert(configured_views(r@) =~= wanted.take(0));
    }
    while left.len() > 0
        invariant
            0 <= i <= start.len(),
            left@ == start.skip(i),
            names == views(start),
            wanted == names.map_values(|id: Seq<char>| (id, Seq::<EvaluatedRunView>::empty())),
            configured_views(r@) == wanted.take(i),
        decreases left@.len(),
    {
        let ghost before = configured_views(r@);
        let configuration_id = left.remove(0);
        let entry = ConfigurationRuns { configuration_id, runs: Vec::new() };
        r.push(entry);
        proof {
            assert(names[i] == entry.configuration_id@);
            assert(evaluated_run_views(entry.runs@) =~= Seq::<EvaluatedRunView>::empty());
            assert(configured_views(r@) =~= before.push(wanted[i]));
            assert(configured_views(r@) =~= wanted.take(i + 1));
            assert(left@ =~= start.skip(i + 1));
            i = i + 1;
        }
    }
    proof {
        assert(wanted.take(i) =~= wanted);
    }
    r
}

fn push_run(runs: Vec<ConfigurationRuns>, configuration: &str, run: EvaluatedRun) -> (r: Vec<
    ConfigurationRuns,
>)
    requires
        configured_views(runs@).map_values(
            |entry: (Seq<char>, Seq<EvaluatedRunView>)| entry.0,
        ).no_duplicates(),
    ensures
        configured_views(r@) == with_run(configured_views(runs@), configuration@, run@),
{
    let ghost all = configured_views(runs@);
    let ghost names = all.map_values(|entry: (Seq<char>, Seq<EvaluatedRunView>)| entry.0);
    let ghost wanted = with_run(all, configuration@, run@);
    let ghost pushed = run@;
    let mut left = runs;
    let mut waiting: Option<EvaluatedRun> = Some(run);
    let mut done: Vec<ConfigurationRuns> = Vec::new();
    let ghost mut i: int = 0;
    proof {
        assert(left@ =~= runs@.skip(0));
        assert(configured_views(done@) =~= wanted.take(0));
    }
    while left.len() > 0
        invariant
            0 <= i <= runs@.len(),
            all == configured_views(runs@),
            names == all.map_values(|entry: (Seq<char>, Seq<EvaluatedRunView>)| entry.0),
            names.no_duplicates(),
            wanted == with_run(all, configuration@, pushed),
            left@ == runs@.skip(i),
            configured_views(done@) == wanted.take(i),
            waiting matches Some(run) ==> run@ == pushed,
            waiting is None ==> exists|k: int| 0 <= k < i && names[k] == configuration@,
        decreases left@.len(),
    {
        let ghost before = configured_views(done@);
        let mut entry = left.remove(0);
        let ghost old_runs = evaluated_run_views(entry.runs@);
        proof {
            assert(all[i] == (entry.configuration_id@, old_runs));
            assert(names[i] == entry.configuration_id@);
        }
        if same_text(entry.configuration_id.as_str(), configuration) {
            let mut taken: Option<EvaluatedRun> = None;
            std::mem::swap(&mut taken, &mut waiting);
            match taken {
                Some(run) => {
                    let mut list = entry.runs;
                    list.push(run);
                    proof {
                        assert(evaluated_run_views(list@) =~= old_runs.push(pushed));
                    }
                    entry = ConfigurationRuns { configuration_id: entry.configuration_id, runs: list };
                },
                None => {
                    proof {
                        let k = choose|k: int| 0 <= k < i && names[k] == configuration@;
                        assert(names[k] == names[i]);
                        assert(false);
                    }
                },
            }
        }
        done.push(entry);
        proof {
            assert(configured_views(done@) =~= before.push(wanted[i]));
            assert(configured_views(done@) =~= wanted.take(i + 1));
            assert(left@ =~= runs@.skip(i + 1));
            i = i + 1;
        }
    }
    proof {
        assert(wanted.take(i) =~= wanted);
    }
    done
}

impl LiveEvaluation {
    /// The beginning of an evaluation.
    pub fn start(case_count: usize, repetitions: usize, configurations: Vec<String>) -> (r: Self)
        ensures
            r@ == live_start(case_count as nat, repetitions as nat, views(configurations@)),
            live_valid(r@),
    {
        let r = LiveEvaluation {
            case_count,
            repetitions,
            configurations,
            current: None,
            repetition: 0,
            runs: Vec::new(),
            evaluated: Vec::new(),
        };
        proof {
            assert(r@ =~= live_start(case_count as nat, repetitions as nat, views(configurations@)));
        }
        r
    }

    /// What is done next, given whether the limit on the cost is reached.
    pub fn next_step(&self, limit_reached: bool) -> (r: LiveStep)
        requires
            live_valid(self@),
        ensures
            r == live_next(self@, limit_reached),
    {
        proof {
            assert(self@.evaluated.len() == self.evaluated@.len());
        }
        match &self.current {
            Some(_) => {
                let repetition: usize = self.repetition + 1;
                if limit_reached {
                    LiveStep::Stop { repetition }
                } else {
                    LiveStep::Ask { repetition }
                }
            },
            None => {
                if self.evaluated.len() < self.case_count {
                    LiveStep::Prepare { position: self.evaluated.len() }
                } else {
                    LiveStep::Done
                }
            },
        }
    }

    fn close(&mut self, case: PreparedCase, runs: Vec<ConfigurationRuns>)
        ensures
            final(self)@ == close_case(old(self)@, case@, configured_views(runs@)),
    {
        let ghost before = self@;
        let ghost given = case@;
        self.evaluated.push(
            EvaluatedCase {
                id: case.id,
                name: case.name,
                language: case.language,
                risk_class: case.risk_class,
                expected_blocking: case.expected_blocking,
                runs,
            },
        );
        self.current = None;
        self.repetition = 0;
        self.runs = Vec::new();
        proof {
            assert(self@ =~= close_case(before, given, configured_views(runs@)));
        }
    }

    /// Goes on with a case that is prepared.
    pub fn prepared(&mut self, case: PreparedCase)
        requires
            live_valid(old(self)@),
            old(self)@.current is None,
            old(self)@.evaluated.len() < old(self)@.case_count,
        ensures
            final(self)@ == live_prepared(old(self)@, case@),
            live_valid(final(self)@),
    {
        let ghost before = self@;
        let ghost given = case@;
        let runs = empty_runs(&self.configurations);
        if self.repetitions == 0 {
            self.close(case, runs);
        } else {
            self.current = Some(case);
            self.repetition = 0;
            self.runs = runs;
        }
        proof {
            assert(self@ =~= live_prepared(before, given));
            law_evaluations_stay_valid(before, given, arbitrary());
        }
    }

    /// Goes on with a review that was asked for.
    pub fn answered(&mut self, answer: LiveAnswer)
        requires
            live_valid(old(self)@),
            old(self)@.current is Some,
            answer.observed@.len() == old(self)@.configurations.len(),
        ensures
            final(self)@ == live_answered(old(self)@, answer@),
            live_valid(final(self)@),
    {
        let ghost before = self@;
        let ghost whole = answer@;
        let ghost case = before.current->0;
        let ghost new = runs_of(case, whole);
        let ghost ids = before.configurations;
        let mut current: Option<PreparedCase> = None;
        std::mem::swap(&mut current, &mut self.current);
        let mut runs: Vec<ConfigurationRuns> = Vec::new();
        std::mem::swap(&mut runs, &mut self.runs);
        let total: usize = answer.observed.len();
        let mut left = answer.observed;
        let mut i: usize = 0;
        proof {
            assert(left@ =~= answer.observed@.skip(0));
            assert(new.take(0) =~= Seq::empty());
            assert(whole.observed.len() == answer.observed@.len());
        }
        if let Some(prepared) = current {
            while left.len() > 0
                invariant
                    i <= total,
                    total == answer.observed@.len(),
                    answer.observed@.len() == ids.len(),
                    self.configurations@.len() == ids.len(),
                    views(self.configurations@) == ids,
                    left@ == answer.observed@.skip(i as int),
                    whole == answer@,
                    case == prepared@,
                    new == runs_of(case, whole),
                    new.len() == ids.len(),
                    live_valid(before),
                    before.current is Some,
                    ids == before.configurations,
                    configured_views(runs@) == with_runs(before.runs, ids, new.take(i as int)),
                    self.case_count as nat == before.case_count,
                    self.repetitions as nat == before.repetitions,
                    self.repetition as nat == before.repetition,
                    evaluated_case_views(self.evaluated@) == before.evaluated,
                decreases left@.len(),
            {
                let observed = left.remove(0);
                proof {
                    assert(observed@ == whole.observed[i as int]);
                }
                let run = EvaluatedRun {
                    case_id: prepared.id.clone(),
                    review_complete: answer.review_complete,
                    findings: observed.findings,
                    score: observed.score,
                    cost_estimated: answer.cost_estimated,
                    cost_spent: answer.cost_spent,
                    latency_ms: answer.latency_ms,
                    agent_time_ms: None,
                };
                proof {
                    let now = with_runs(before.runs, ids, new.take(i as int));
                    lemma_with_runs(before.runs, ids, new.take(i as int));
                    lemma_ordered_set(ids);
                    assert(now.map_values(|entry: (Seq<char>, Seq<EvaluatedRunView>)| entry.0)
                        =~= before.runs.map_values(
                        |entry: (Seq<char>, Seq<EvaluatedRunView>)| entry.0,
                    ));
                    assert(run@ == new[i as int]);
                    assert(new.take(i + 1).drop_last() =~= new.take(i as int));
                    assert(ids[i as int] == self.configurations@[i as int]@);
                }
                runs = push_run(runs, self.configurations[i].as_str(), run);
                proof {
                    assert(left@ =~= answer.observed@.skip(i + 1));
                }
                i += 1;
            }
            proof {
                assert(new.take(i as int) =~= new);
            }
            if self.repetition + 1 == self.repetitions {
                self.close(prepared, runs);
            } else {
                self.current = Some(prepared);
                self.runs = runs;
                self.repetition = self.repetition + 1;
            }
        }
        proof {
            assert(self@ =~= live_answered(before, whole));
            law_evaluations_stay_valid(before, case, whole);
        }
    }

    /// The cases that are done.
    pub fn finish(self) -> (r: Vec<EvaluatedCase>)
        ensures
            evaluated_case_views(r@) == self@.evaluated,
    {
        self.evaluated
    }
}

// ---------------------------------------------------------------------------
// What holds of it
// ---------------------------------------------------------------------------

/// What was observed is noted down for the case and for every configuration in turn; no
/// time of agents is known of it.
pub proof fn law_runs_tell_what_was_observed(case: PreparedView, answer: LiveAnswerView, i: int)
    requires
        0 <= i < answer.observed.len(),
    ensures
        runs_of(case, answer).len() == answer.observed.len(),
        ({
            let run = runs_of(case, answer)[i];
            &&& run.case_id == case.id
            &&& run.review_complete == answer.review_complete
            &&& run.findings == answer.observed[i].findings
            &&& run.score == answer.observed[i].score
            &&& run.cost_estimated == answer.cost_estimated
            &&& run.cost_spent == answer.cost_spent
            &&& run.latency_ms == answer.latency_ms
            &&& run.agent_time_ms is None
        }),
{
}

/// A run is noted down with its configuration, behind those that are there, and with no
/// other.
pub proof fn law_runs_are_noted_with_their_configuration(
    runs: Seq<(Seq<char>, Seq<EvaluatedRunView>)>,
    configurations: Seq<Seq<char>>,
    new: Seq<EvaluatedRunView>,
    run: EvaluatedRunView,
    i: int,
)
    requires
        0 <= i < runs.len(),
        new.len() < configurations.len(),
    ensures
        with_runs(runs, configurations, Seq::empty()) == runs,
        with_runs(runs, configurations, new).len() == runs.len(),
        with_runs(runs, configurations, new)[i].0 == runs[i].0,
        with_runs(runs, configurations, new.push(run))[i].0 == runs[i].0,
        runs[i].0 == configurations[new.len() as int] ==> with_runs(
            runs,
            configurations,
            new.push(run),
        )[i].1 == with_runs(runs, configurations, new)[i].1.push(run),
        runs[i].0 != configurations[new.len() as int] ==> with_runs(
            runs,
            configurations,
            new.push(run),
        )[i].1 == with_runs(runs, configurations, new)[i].1,
    decreases new.len(),
{
    assert(new.push(run).drop_last() =~= new);
    if new.len() > 0 {
        law_runs_are_noted_with_their_configuration(
            runs,
            configurations,
            new.drop_last(),
            new.last(),
            i,
        );
        assert(new.drop_last().push(new.last()) =~= new);
    }
    let before = with_runs(runs, configurations, new);
    let behind = with_runs(runs, configurations, new.push(run));
    assert(behind == with_run(before, configurations[new.len() as int], run));
    assert(behind[i] == if before[i].0 == configurations[new.len() as int] {
        (before[i].0, before[i].1.push(run))
    } else {
        before[i]
    });
}

/// A case that is prepared is asked about from the beginning, with no runs of any of its
/// configurations; a case that was asked about often enough is evaluated as it was prepared.
pub proof fn law_cases_are_evaluated_as_prepared(
    v: LiveView,
    case: PreparedView,
    answer: LiveAnswerView,
)
    requires
        live_valid(v),
    ensures
        v.repetitions > 0 ==> live_prepared(v, case).current == Some(case) && live_prepared(
            v,
            case,
        ).evaluated == v.evaluated && live_prepared(v, case).repetition == 0,
        v.repetitions == 0 ==> live_prepared(v, case).evaluated.len() == v.evaluated.len() + 1
            && live_prepared(v, case).current is None,
        forall|i: int|
            0 <= i < no_runs(v.configurations).len() ==> (#[trigger] no_runs(
                v.configurations,
            )[i]).1.len() == 0,
        v.current == Some(case) && v.repetition + 1 == v.repetitions ==> {
            let last = live_answered(v, answer).evaluated.last();
            &&& live_answered(v, answer).evaluated.len() == v.evaluated.len() + 1
            &&& live_answered(v, answer).evaluated.drop_last() == v.evaluated
            &&& last.id == case.id
            &&& last.name == case.name
            &&& last.language == case.language
            &&& last.risk_class == case.risk_class
            &&& last.expected_blocking == case.expected_blocking
            &&& live_answered(v, answer).current is None
        },
        v.current == Some(case) && v.repetition + 1 < v.repetitions ==> live_answered(
            v,
            answer,
        ).evaluated == v.evaluated && live_answered(v, answer).current == Some(case)
            && live_answered(v, answer).repetition == v.repetition + 1,
{
    assert(live_answered(v, answer).evaluated.drop_last() =~= v.evaluated || v.repetition + 1
        != v.repetitions);
}

/// The next step is told by what is there: a case that is asked about is asked about again
/// while no limit is reached, and the next case is prepared while there is one.
pub proof fn law_the_next_step(v: LiveView, limit_reached: bool)
    requires
        live_valid(v),
        v.case_count <= usize::MAX,
        v.repetitions <= usize::MAX,
    ensures
        v.current is Some && !limit_reached ==> (live_next(v, limit_reached) matches LiveStep::Ask {
            repetition,
        } && repetition == v.repetition + 1),
        v.current is Some && limit_reached ==> (live_next(v, limit_reached) matches LiveStep::Stop {
            repetition,
        } && repetition == v.repetition + 1),
        v.current is None && v.evaluated.len() < v.case_count ==> (live_next(
            v,
            limit_reached,
        ) matches LiveStep::Prepare { position } && position == v.evaluated.len()),
        v.current is None && v.evaluated.len() == v.case_count ==> live_next(
            v,
            limit_reached,
        ) is Done,
{
}

/// An evaluation starts with nothing.
pub proof fn law_evaluations_start_empty(
    case_count: nat,
    repetitions: nat,
    configurations: Seq<Seq<char>>,
)
    ensures
        live_start(case_count, repetitions, configurations).evaluated.len() == 0,
        live_start(case_count, repetitions, configurations).current is None,
        live_start(case_count, repetitions, configurations).case_count == case_count,
        live_start(case_count, repetitions, configurations).repetitions == repetitions,
        live_start(case_count, repetitions, configurations).configurations == configurations,
{
}

} // verus!
