//! What the reviews of several angles come to.
use vstd::prelude::*;

use crate::angles::{AngleView, ReviewAngle, ReviewErrorKind};
use crate::findings::{finding_views, score_of, status_of_score, unique_id};
use crate::findings::{
    compute_score, status_for_score, unique_prefixed_angle_finding_id, Finding, FindingView,
};
use crate::list::{holds, push_unique};
use crate::reading::result_view;
use crate::split::{blank, is_blank, trim, trimmed};
use crate::status::ReviewStatus;
use crate::text::{concat2, concat3, join, joined, opt_view, views};

verus! {

/// A stage of a review.
#[derive(Debug, PartialEq, Eq)]
pub struct ReviewStage {
    pub name: String,
    pub model: String,
    pub status: String,
    pub reason: String,
}

/// A stage of a review.
pub struct StageView {
    pub name: Seq<char>,
    pub model: Seq<char>,
    pub status: Seq<char>,
    pub reason: Seq<char>,
}

impl View for ReviewStage {
    type V = StageView;

    open spec fn view(&self) -> StageView {
        StageView {
            name: self.name@,
            model: self.model@,
            status: self.status@,
            reason: self.reason@,
        }
    }
}

/// What stages are.
pub open spec fn stage_views(s: Seq<ReviewStage>) -> Seq<StageView> {
    s.map_values(|x: ReviewStage| x@)
}

/// What an angle came to.
#[derive(Debug, PartialEq, Eq)]
pub struct ReviewAngleResult {
    pub id: String,
    pub name: String,
    pub score: u8,
    pub status: ReviewStatus,
    pub verdict: String,
    pub model: String,
    pub finding_ids: Vec<String>,
}

/// What an angle came to.
pub struct AngleResultView {
    pub id: Seq<char>,
    pub name: Seq<char>,
    pub score: u8,
    pub status: ReviewStatus,
    pub verdict: Seq<char>,
    pub model: Seq<char>,
    pub finding_ids: Seq<Seq<char>>,
}

impl View for ReviewAngleResult {
    type V = AngleResultView;

    open spec fn view(&self) -> AngleResultView {
        AngleResultView {
            id: self.id@,
            name: self.name@,
            score: self.score,
            status: self.status,
            verdict: self.verdict@,
            model: self.model@,
            finding_ids: views(self.finding_ids@),
        }
    }
}

/// What angles came to.
pub open spec fn angle_result_views(s: Seq<ReviewAngleResult>) -> Seq<AngleResultView> {
    s.map_values(|x: ReviewAngleResult| x@)
}

/// An angle that failed.
#[derive(Debug, PartialEq, Eq)]
pub struct ReviewAngleError {
    pub angle_id: String,
    pub angle_name: String,
    pub kind: ReviewErrorKind,
    pub retryable: bool,
    pub message: String,
    pub model: String,
}

/// An angle that failed.
pub struct AngleErrorView {
    pub angle_id: Seq<char>,
    pub angle_name: Seq<char>,
    pub kind: ReviewErrorKind,
    pub retryable: bool,
    pub message: Seq<char>,
    pub model: Seq<char>,
}

impl View for ReviewAngleError {
    type V = AngleErrorView;

    open spec fn view(&self) -> AngleErrorView {
        AngleErrorView {
            angle_id: self.angle_id@,
            angle_name: self.angle_name@,
            kind: self.kind,
            retryable: self.retryable,
            message: self.message@,
            model: self.model@,
        }
    }
}

/// What failed angles are.
pub open spec fn angle_error_views(s: Seq<ReviewAngleError>) -> Seq<AngleErrorView> {
    s.map_values(|x: ReviewAngleError| x@)
}

/// Where a cost is known from.
#[derive(Debug, Clone, Copy, PartialEq, Eq, Structural)]
pub enum CostSource {
    OpenRouterUsage,
    FallbackPricing,
    Unknown,
}

/// What is known of the cost of an angle.
#[derive(Debug, Clone, Copy, PartialEq, Eq, Structural)]
pub enum AngleCost {
    /// Nothing.
    Missing,
    /// An amount without a summary.
    Estimate,
    /// A summary, with its source where it names one.
    Summary { source: Option<CostSource> },
}

/// What is known of the cost of a review.
#[derive(Debug, Clone, Copy, PartialEq, Eq, Structural)]
pub struct ReviewCost {
    pub has_cost: bool,
    /// The first source that was named.
    pub source: Option<CostSource>,
    /// Not all of the cost is from that source.
    pub mixed: bool,
}

/// The cost of a review with one more angle.
pub open spec fn with_cost(total: ReviewCost, cost: AngleCost) -> ReviewCost {
    match cost {
        AngleCost::Missing => total,
        AngleCost::Estimate => ReviewCost { has_cost: true, mixed: true, ..total },
        AngleCost::Summary { source: None } => ReviewCost { has_cost: true, ..total },
        AngleCost::Summary { source: Some(source) } => if total.source is None {
            ReviewCost { has_cost: true, source: Some(source), ..total }
        } else if total.source == Some(source) {
            ReviewCost { has_cost: true, ..total }
        } else {
            ReviewCost { has_cost: true, mixed: true, ..total }
        },
    }
}

/// The source of the cost, where there is a cost.
pub open spec fn cost_source(total: ReviewCost) -> Option<Option<CostSource>> {
    if !total.has_cost {
        None
    } else if total.mixed {
        Some(Some(CostSource::Unknown))
    } else {
        Some(total.source)
    }
}

impl ReviewCost {
    /// The cost of a review with one more angle.
    pub fn with(self, cost: AngleCost) -> (r: Self)
        ensures
            r == with_cost(self, cost),
    {
        match cost {
            AngleCost::Missing => self,
            AngleCost::Estimate => ReviewCost { has_cost: true, mixed: true, source: self.source },
            AngleCost::Summary { source } => {
                match source {
                    None => ReviewCost { has_cost: true, ..self },
                    Some(source) => {
                        match self.source {
                            None => ReviewCost {
                                has_cost: true,
                                source: Some(source),
                                mixed: self.mixed,
                            },
                            Some(first) => ReviewCost {
                                has_cost: true,
                                source: self.source,
                                mixed: self.mixed || first != source,
                            },
                        }
                    },
                }
            },
        }
    }

    /// The source of the cost, where there is a cost.
    pub fn cost_source(self) -> (r: Option<Option<CostSource>>)
        ensures
            r == cost_source(self),
    {
        if !self.has_cost {
            None
        } else if self.mixed {
            Some(Some(CostSource::Unknown))
        } else {
            Some(self.source)
        }
    }
}

/// The review of one angle.
#[derive(Debug, PartialEq, Eq)]
pub struct AngleReview {
    pub angle: ReviewAngle,
    pub models: Vec<String>,
    pub findings: Vec<Finding>,
    pub verdict: String,
    pub notes: Vec<String>,
    pub cost: AngleCost,
}

/// The review of one angle.
pub struct AngleReviewView {
    pub angle: AngleView,
    pub models: Seq<Seq<char>>,
    pub findings: Seq<FindingView>,
    pub verdict: Seq<char>,
    pub notes: Seq<Seq<char>>,
    pub cost: AngleCost,
}

impl View for AngleReview {
    type V = AngleReviewView;

    open spec fn view(&self) -> AngleReviewView {
        AngleReviewView {
            angle: self.angle@,
            models: views(self.models@),
            findings: finding_views(self.findings@),
            verdict: self.verdict@,
            notes: views(self.notes@),
            cost: self.cost,
        }
    }
}

/// What reviews of angles are.
pub open spec fn angle_review_views(s: Seq<AngleReview>) -> Seq<AngleReviewView> {
    s.map_values(|x: AngleReview| x@)
}

/// A review, as far as its outcome depends on it.
#[derive(Debug, PartialEq, Eq)]
pub struct ReviewArtifact {
    pub score: Option<u8>,
    pub status: ReviewStatus,
    pub verdict: String,
    pub models: Vec<String>,
    pub review_stages: Vec<ReviewStage>,
    pub angle_results: Vec<ReviewAngleResult>,
    pub angle_errors: Vec<ReviewAngleError>,
    pub findings: Vec<Finding>,
    /// The angle of each finding that is tracked.
    pub tracked_angle_ids: Vec<Option<String>>,
    pub notes: Vec<String>,
    pub cost: ReviewCost,
}

/// A review, as far as its outcome depends on it.
pub struct ArtifactView {
    pub score: Option<u8>,
    pub status: ReviewStatus,
    pub verdict: Seq<char>,
    pub models: Seq<Seq<char>>,
    pub review_stages: Seq<StageView>,
    pub angle_results: Seq<AngleResultView>,
    pub angle_errors: Seq<AngleErrorView>,
    pub findings: Seq<FindingView>,
    pub tracked_angle_ids: Seq<Option<Seq<char>>>,
    pub notes: Seq<Seq<char>>,
    pub cost: ReviewCost,
}

/// What texts that there may be are.
pub open spec fn opt_views(s: Seq<Option<String>>) -> Seq<Option<Seq<char>>> {
    s.map_values(|x: Option<String>| opt_view(x))
}

impl View for ReviewArtifact {
    type V = ArtifactView;

    open spec fn view(&self) -> ArtifactView {
        ArtifactView {
            score: self.score,
            status: self.status,
            verdict: self.verdict@,
            models: views(self.models@),
            review_stages: stage_views(self.review_stages@),
            angle_results: angle_result_views(self.angle_results@),
            angle_errors: angle_error_views(self.angle_errors@),
            findings: finding_views(self.findings@),
            tracked_angle_ids: opt_views(self.tracked_angle_ids@),
            notes: views(self.notes@),
            cost: self.cost,
        }
    }
}

// ---------------------------------------------------------------------------
// Verdicts
// ---------------------------------------------------------------------------

/// The verdict of an angle, or that it is completed where it says nothing.
pub open spec fn said_verdict(verdict: Seq<char>, angle_name: Seq<char>) -> Seq<char> {
    if blank(verdict) {
        angle_name + " review completed."@
    } else {
        trimmed(verdict)
    }
}

/// The verdict of an angle, or that it is completed where it says nothing.
pub fn non_empty_verdict(verdict: &str, angle_name: &str) -> (r: String)
    ensures
        r@ == said_verdict(verdict@, angle_name@),
{
    if is_blank(verdict) {
        concat2(angle_name, " review completed.")
    } else {
        trim(verdict)
    }
}

/// The names of the angles that need changes.
pub open spec fn failing_names(results: Seq<AngleResultView>) -> Seq<Seq<char>>
    decreases results.len(),
{
    if results.len() == 0 {
        Seq::empty()
    } else {
        let rest = failing_names(results.drop_last());
        if results.last().status == ReviewStatus::NeedsChanges {
            rest.push(results.last().name)
        } else {
            rest
        }
    }
}

/// The verdict on several angles.
pub open spec fn overall_verdict(results: Seq<AngleResultView>) -> Seq<char> {
    let failing = failing_names(results);
    if failing.len() == 0 {
        "All enabled ReviewGate review angles passed."@
    } else {
        "ReviewGate found issues in: "@ + joined(failing, ", "@) + "."@
    }
}

/// The verdict on several angles.
pub fn aggregate_verdict(angle_results: &Vec<ReviewAngleResult>) -> (r: String)
    ensures
        r@ == overall_verdict(angle_result_views(angle_results@)),
{
    let ghost all = angle_result_views(angle_results@);
    let mut names: Vec<String> = Vec::new();
    let mut i: usize = 0;
    proof {
        assert(views(names@) =~= failing_names(all.take(0)));
    }
    while i < angle_results.len()
        invariant
            i <= angle_results@.len(),
            all == angle_result_views(angle_results@),
            views(names@) == failing_names(all.take(i as int)),
        decreases angle_results@.len() - i,
    {
        proof {
            assert(all.take(i + 1).drop_last() =~= all.take(i as int));
            assert(all.take(i + 1).last() == angle_results@[i as int]@);
        }
        if angle_results[i].status == ReviewStatus::NeedsChanges {
            let ghost before = views(names@);
            names.push(angle_results[i].name.clone());
            proof {
                assert(views(names@) =~= before.push(angle_results@[i as int].name@));
            }
        }
        i += 1;
    }
    proof {
        assert(all.take(all.len() as int) =~= all);
        assert(views(names@).len() == names@.len());
    }
    if names.len() == 0 {
        "All enabled ReviewGate review angles passed.".to_owned()
    } else {
        let list = join(&names, ", ");
        concat3("ReviewGate found issues in: ", list.as_str(), ".")
    }
}

// ---------------------------------------------------------------------------
// Findings of an angle
// ---------------------------------------------------------------------------

/// The identifiers of findings.
pub open spec fn finding_ids(findings: Seq<FindingView>) -> Seq<Seq<char>> {
    findings.map_values(|f: FindingView| f.id)
}

/// The identifiers of angles.
pub open spec fn result_ids(results: Seq<AngleResultView>) -> Seq<Seq<char>> {
    results.map_values(|r: AngleResultView| r.id)
}

/// The findings of an angle, each with an identifier that is none of those seen and of
/// those before it.
pub open spec fn identified(
    findings: Seq<FindingView>,
    angle_id: Seq<char>,
    seen: Seq<Seq<char>>,
) -> Option<Seq<FindingView>>
    decreases findings.len(),
{
    if findings.len() == 0 {
        Some(Seq::empty())
    } else {
        match identified(findings.drop_last(), angle_id, seen) {
            None => None,
            Some(done) => match unique_id(angle_id, findings.last().id, seen + finding_ids(done)) {
                None => None,
                Some(id) => Some(
                    done.push(
                        FindingView { id, angle_id: Some(angle_id), ..findings.last() },
                    ),
                ),
            },
        }
    }
}

proof fn lemma_unidentified(
    findings: Seq<FindingView>,
    angle_id: Seq<char>,
    seen: Seq<Seq<char>>,
    n: int,
)
    requires
        0 <= n <= findings.len(),
        identified(findings.take(n), angle_id, seen) is None,
    ensures
        identified(findings, angle_id, seen) is None,
    decreases findings.len() - n,
{
    if n == findings.len() {
        assert(findings.take(n) =~= findings);
    } else {
        assert(findings.take(n + 1).drop_last() =~= findings.take(n));
        lemma_unidentified(findings, angle_id, seen, n + 1);
    }
}

fn identify(findings: Vec<Finding>, angle_id: &str, seen: &mut Vec<String>) -> (r: Option<
    Vec<Finding>,
>)
    ensures
        (match r {
            Some(v) => Some(finding_views(v@)),
            None => None,
        }) == identified(finding_views(findings@), angle_id@, views(old(seen)@)),
        r matches Some(v) ==> views(final(seen)@) == views(old(seen)@) + finding_ids(
            finding_views(v@),
        ),
{
    let ghost all = finding_views(findings@);
    let ghost before = views(seen@);
    let mut left = findings;
    let mut done: Vec<Finding> = Vec::new();
    let ghost mut i: int = 0;
    proof {
        assert(finding_views(done@) =~= Seq::empty());
        assert(views(seen@) =~= before + finding_ids(finding_views(done@)));
        assert(left@ =~= findings@.skip(0));
    }
    while left.len() > 0
        invariant
            0 <= i <= all.len(),
            all.len() == findings@.len(),
            left@ == findings@.skip(i),
            before == views(old(seen)@),
            all == finding_views(findings@),
            views(seen@) == before + finding_ids(finding_views(done@)),
            identified(all.take(i), angle_id@, before) == Some(finding_views(done@)),
        decreases left@.len(),
    {
        proof {
            assert(all.take(i + 1).drop_last() =~= all.take(i));
            assert(left@[0] == findings@[i]);
            assert(all.take(i + 1).last() == findings@[i]@);
        }
        let ghost rest = left@;
        let mut finding = left.remove(0);
        let ghost f = finding@;
        match unique_prefixed_angle_finding_id(angle_id, finding.id.as_str(), seen) {
            None => {
                proof {
                    lemma_unidentified(all, angle_id@, before, i + 1);
                }
                return None;
            },
            Some(id) => {
                finding.id = id;
                finding.angle_id = Some(angle_id.to_owned());
                let ghost earlier = finding_views(done@);
                done.push(finding);
                proof {
                    assert(finding_views(done@) =~= earlier.push(finding@));
                    assert(finding@ == (FindingView {
                        id: id@,
                        angle_id: Some(angle_id@),
                        ..f
                    }));
                    assert(views(seen@) =~= before + finding_ids(finding_views(done@)));
                    assert(left@ =~= findings@.skip(i + 1));
                    i = i + 1;
                }
            },
        }
    }
    proof {
        assert(left@.len() == 0);
        assert(all.take(i) =~= all);
    }
    Some(done)
}

// ---------------------------------------------------------------------------
// Aggregation
// ---------------------------------------------------------------------------

/// The model of a review, or the default one where it names none.
pub open spec fn review_model(models: Seq<Seq<char>>, default_model: Seq<char>) -> Seq<char> {
    if models.len() > 0 && !blank(models[0]) {
        models[0]
    } else {
        default_model
    }
}

/// The notes of an angle, each behind the angle's name.
pub open spec fn named_notes(name: Seq<char>, notes: Seq<Seq<char>>) -> Seq<Seq<char>> {
    notes.map_values(|note: Seq<char>| name + ": "@ + note)
}

/// A list with an item that it holds once.
pub open spec fn with_item(list: Seq<Seq<char>>, item: Seq<char>) -> Seq<Seq<char>> {
    if list.contains(item) {
        list
    } else {
        list.push(item)
    }
}

/// What reviews came to so far.
#[derive(Debug, PartialEq, Eq)]
struct Aggregation {
    models: Vec<String>,
    findings: Vec<Finding>,
    results: Vec<ReviewAngleResult>,
    stages: Vec<ReviewStage>,
    notes: Vec<String>,
    cost: ReviewCost,
}

/// What reviews came to so far.
pub struct AggregationView {
    pub models: Seq<Seq<char>>,
    pub findings: Seq<FindingView>,
    pub results: Seq<AngleResultView>,
    pub stages: Seq<StageView>,
    pub notes: Seq<Seq<char>>,
    pub cost: ReviewCost,
}

impl View for Aggregation {
    type V = AggregationView;

    closed spec fn view(&self) -> AggregationView {
        AggregationView {
            models: views(self.models@),
            findings: finding_views(self.findings@),
            results: angle_result_views(self.results@),
            stages: stage_views(self.stages@),
            notes: views(self.notes@),
            cost: self.cost,
        }
    }
}

/// What reviews came to with the review of one more angle, whose findings have got
/// identifiers.
pub open spec fn with_review(
    so_far: AggregationView,
    review: AngleReviewView,
    findings: Seq<FindingView>,
    default_model: Seq<char>,
) -> AggregationView {
    let model = review_model(review.models, default_model);
    AggregationView {
        models: with_item(so_far.models, model),
        findings: so_far.findings + findings,
        results: so_far.results.push(
            AngleResultView {
                id: review.angle.id,
                name: review.angle.name,
                score: score_of(findings),
                status: status_of_score(score_of(findings)),
                verdict: said_verdict(review.verdict, review.angle.name),
                model,
                finding_ids: finding_ids(findings),
            },
        ),
        stages: so_far.stages.push(
            StageView {
                name: review.angle.id,
                model,
                status: "ran"@,
                reason: review.angle.reason,
            },
        ),
        notes: so_far.notes + named_notes(review.angle.name, review.notes),
        cost: with_cost(so_far.cost, review.cost),
    }
}

/// What reviews came to with the review of one more angle. No angle may occur twice.
pub open spec fn next_aggregation(
    so_far: AggregationView,
    review: AngleReviewView,
    default_model: Seq<char>,
) -> Result<AggregationView, Seq<char>> {
    if result_ids(so_far.results).contains(review.angle.id) {
        Err("duplicate ReviewGate review angle id `"@ + review.angle.id + "`"@)
    } else {
        match identified(review.findings, review.angle.id, finding_ids(so_far.findings)) {
            None => Err("no free finding id in review angle `"@ + review.angle.id + "`"@),
            Some(findings) => Ok(with_review(so_far, review, findings, default_model)),
        }
    }
}

/// What no reviews come to.
pub open spec fn no_aggregation() -> AggregationView {
    AggregationView {
        models: Seq::empty(),
        findings: Seq::empty(),
        results: Seq::empty(),
        stages: Seq::empty(),
        notes: Seq::empty(),
        cost: ReviewCost { has_cost: false, source: None, mixed: false },
    }
}

/// What reviews come to.
pub open spec fn aggregation(
    reviews: Seq<AngleReviewView>,
    default_model: Seq<char>,
) -> Result<AggregationView, Seq<char>>
    decreases reviews.len(),
{
    if reviews.len() == 0 {
        Ok(no_aggregation())
    } else {
        match aggregation(reviews.drop_last(), default_model) {
            Err(e) => Err(e),
            Ok(so_far) => next_aggregation(so_far, reviews.last(), default_model),
        }
    }
}

/// The review that an aggregation stands for.
pub open spec fn artifact_of(a: AggregationView, default_model: Seq<char>) -> ArtifactView {
    ArtifactView {
        score: Some(score_of(a.findings)),
        status: status_of_score(score_of(a.findings)),
        verdict: overall_verdict(a.results),
        models: if a.models.len() == 0 {
            seq![default_model]
        } else {
            a.models
        },
        review_stages: a.stages,
        angle_results: a.results,
        angle_errors: Seq::empty(),
        findings: a.findings,
        tracked_angle_ids: Seq::empty(),
        notes: a.notes,
        cost: a.cost,
    }
}

/// The review that reviews of several angles come to.
pub open spec fn aggregated(
    reviews: Seq<AngleReviewView>,
    default_model: Seq<char>,
) -> Result<ArtifactView, Seq<char>> {
    match aggregation(reviews, default_model) {
        Err(e) => Err(e),
        Ok(a) => Ok(artifact_of(a, default_model)),
    }
}

proof fn lemma_failed_aggregation(reviews: Seq<AngleReviewView>, default_model: Seq<char>, n: int)
    requires
        0 <= n <= reviews.len(),
        aggregation(reviews.take(n), default_model) is Err,
    ensures
        aggregation(reviews, default_model) == aggregation(reviews.take(n), default_model),
    decreases reviews.len() - n,
{
    if n == reviews.len() {
        assert(reviews.take(n) =~= reviews);
    } else {
        assert(reviews.take(n + 1).drop_last() =~= reviews.take(n));
        lemma_failed_aggregation(reviews, default_model, n + 1);
    }
}

fn model_of(models: &Vec<String>, default_model: &str) -> (r: String)
    ensures
        r@ == review_model(views(models@), default_model@),
{
    proof {
        assert(views(models@).len() == models@.len());
    }
    if models.len() > 0 {
        proof {
            assert(views(models@)[0] == models@[0]@);
        }
        if !is_blank(models[0].as_str()) {
            return models[0].clone();
        }
    }
    default_model.to_owned()
}

fn ids_of(findings: &Vec<Finding>) -> (r: Vec<String>)
    ensures
        views(r@) == finding_ids(finding_views(findings@)),
{
    let mut r: Vec<String> = Vec::new();
    let mut i: usize = 0;
    while i < findings.len()
        invariant
            i <= findings@.len(),
            r@.len() == i,
            forall|k: int| 0 <= k < i ==> (#[trigger] r@[k])@ == findings@[k].id@,
        decreases findings@.len() - i,
    {
        r.push(findings[i].id.clone());
        i += 1;
    }
    proof {
        assert(views(r@) =~= finding_ids(finding_views(findings@)));
    }
    r
}

/// The identifiers of angles.
pub fn angle_ids(results: &Vec<ReviewAngleResult>) -> (r: Vec<String>)
    ensures
        views(r@) == result_ids(angle_result_views(results@)),
{
    let mut r: Vec<String> = Vec::new();
    let mut i: usize = 0;
    while i < results.len()
        invariant
            i <= results@.len(),
            r@.len() == i,
            forall|k: int| 0 <= k < i ==> (#[trigger] r@[k])@ == results@[k].id@,
        decreases results@.len() - i,
    {
        r.push(results[i].id.clone());
        i += 1;
    }
    proof {
        assert(views(r@) =~= result_ids(angle_result_views(results@)));
    }
    r
}

fn add_notes(notes: &mut Vec<String>, name: &str, added: &Vec<String>)
    ensures
        views(final(notes)@) == views(old(notes)@) + named_notes(name@, views(added@)),
{
    let ghost before = views(notes@);
    let ghost all = named_notes(name@, views(added@));
    let mut i: usize = 0;
    proof {
        assert(views(notes@) =~= before + all.take(0));
    }
    while i < added.len()
        invariant
            i <= added@.len(),
            all == named_notes(name@, views(added@)),
            before == views(old(notes)@),
            views(notes@) == before + all.take(i as int),
        decreases added@.len() - i,
    {
        let note = concat3(name, ": ", added[i].as_str());
        let ghost earlier = views(notes@);
        notes.push(note);
        proof {
            assert(views(notes@) =~= earlier.push(note@));
            assert(all[i as int] == note@);
            assert(views(notes@) =~= before + all.take(i + 1));
        }
        i += 1;
    }
    proof {
        assert(all.take(all.len() as int) =~= all);
    }
}

fn add_review(so_far: Aggregation, review: AngleReview, default_model: &str) -> (r: Result<
    Aggregation,
    String,
>)
    ensures
        result_view(r) == next_aggregation(so_far@, review@, default_model@),
{
    let mut a = so_far;
    let seen_angles = angle_ids(&a.results);
    if holds(&seen_angles, review.angle.id.as_str()) {
        return Err(
            concat3("duplicate ReviewGate review angle id `", review.angle.id.as_str(), "`"),
        );
    }
    let mut seen = ids_of(&a.findings);
    let mut findings = match identify(review.findings, review.angle.id.as_str(), &mut seen) {
        None => {
            return Err(
                concat3("no free finding id in review angle `", review.angle.id.as_str(), "`"),
            );
        },
        Some(findings) => findings,
    };
    let model = model_of(&review.models, default_model);
    let ghost before = so_far@;
    let score: u8 = compute_score(&findings);
    let result = ReviewAngleResult {
        id: review.angle.id.clone(),
        name: review.angle.name.clone(),
        score,
        status: status_for_score(score),
        verdict: non_empty_verdict(review.verdict.as_str(), review.angle.name.as_str()),
        model: model.clone(),
        finding_ids: ids_of(&findings),
    };
    let stage = ReviewStage {
        name: review.angle.id.clone(),
        model: model.clone(),
        status: "ran".to_owned(),
        reason: review.angle.reason.clone(),
    };
    let ghost added = finding_views(findings@);
    let ghost earlier = finding_views(a.findings@);
    push_unique(&mut a.models, model);
    a.results.push(result);
    a.stages.push(stage);
    add_notes(&mut a.notes, review.angle.name.as_str(), &review.notes);
    a.findings.append(&mut findings);
    a.cost = a.cost.with(review.cost);
    proof {
        assert(angle_result_views(a.results@) =~= before.results.push(result@));
        assert(stage_views(a.stages@) =~= before.stages.push(stage@));
        assert(finding_views(a.findings@) =~= earlier + added);
        let expected = with_review(before, review@, added, default_model@);
        assert(a@.models == expected.models);
        assert(a@.findings == expected.findings);
        assert(a@.results == expected.results);
        assert(a@.stages == expected.stages);
        assert(a@.notes == expected.notes);
        assert(a@ == expected);
    }
    Ok(a)
}

/// The review that reviews of several angles come to. The findings of each angle get
/// identifiers that tell the angle and that no other finding has.
pub fn aggregate_angle_artifacts(default_model: &str, angle_reviews: Vec<AngleReview>) -> (r:
    Result<ReviewArtifact, String>)
    ensures
        result_view(r) == aggregated(angle_review_views(angle_reviews@), default_model@),
{
    let ghost all = angle_review_views(angle_reviews@);
    let mut left = angle_reviews;
    let mut a = Aggregation {
        models: Vec::new(),
        findings: Vec::new(),
        results: Vec::new(),
        stages: Vec::new(),
        notes: Vec::new(),
        cost: ReviewCost { has_cost: false, source: None, mixed: false },
    };
    let ghost mut i: int = 0;
    proof {
        let none = no_aggregation();
        assert(a@.models =~= none.models);
        assert(a@.findings =~= none.findings);
        assert(a@.results =~= none.results);
        assert(a@.stages =~= none.stages);
        assert(a@.notes =~= none.notes);
        assert(left@ =~= angle_reviews@.skip(0));
    }
    while left.len() > 0
        invariant
            0 <= i <= all.len(),
            all == angle_review_views(angle_reviews@),
            all.len() == angle_reviews@.len(),
            left@ == angle_reviews@.skip(i),
            aggregation(all.take(i), default_model@) == Ok::<AggregationView, Seq<char>>(a@),
        decreases left@.len(),
    {
        proof {
            assert(all.take(i + 1).drop_last() =~= all.take(i));
            assert(left@[0] == angle_reviews@[i]);
            assert(all.take(i + 1).last() == angle_reviews@[i]@);
        }
        let review = left.remove(0);
        proof {
            assert(left@ =~= angle_reviews@.skip(i + 1));
        }
        match add_review(a, review, default_model) {
            Err(e) => {
                proof {
                    lemma_failed_aggregation(all, default_model@, i + 1);
                }
                return Err(e);
            },
            Ok(next) => {
                a = next;
            },
        }
        proof {
            i = i + 1;
        }
    }
    proof {
        assert(left@.len() == 0);
        assert(all.take(i) =~= all);
    }
    let mut models = a.models;
    let ghost named = views(models@);
    proof {
        assert(views(models@).len() == models@.len());
    }
    if models.len() == 0 {
        models.push(default_model.to_owned());
        proof {
            assert(views(models@) =~= seq![default_model@]);
        }
    }
    let score: u8 = compute_score(&a.findings);
    let r = ReviewArtifact {
        score: Some(score),
        status: status_for_score(score),
        verdict: aggregate_verdict(&a.results),
        models,
        review_stages: a.stages,
        angle_results: a.results,
        angle_errors: Vec::new(),
        findings: a.findings,
        tracked_angle_ids: Vec::new(),
        notes: a.notes,
        cost: a.cost,
    };
    proof {
        assert(r@.angle_errors =~= Seq::empty());
        assert(r@.tracked_angle_ids =~= Seq::empty());
    }
    Ok(r)
}

// ---------------------------------------------------------------------------
// What holds of it
// ---------------------------------------------------------------------------

/// Every angle that was reviewed is told of in the result, in its order: with what it said,
/// the model that reviewed it, and the score of its own findings.
pub proof fn law_every_angle_is_told_of(
    reviews: Seq<AngleReviewView>,
    default_model: Seq<char>,
    a: AggregationView,
)
    requires
        aggregation(reviews, default_model) == Ok::<AggregationView, Seq<char>>(a),
    ensures
        a.results.len() == reviews.len(),
        a.stages.len() == reviews.len(),
        forall|i: int|
            #![trigger a.results[i]]
            0 <= i < reviews.len() ==> {
                let model = if reviews[i].models.len() > 0 && !blank(reviews[i].models[0]) {
                    reviews[i].models[0]
                } else {
                    default_model
                };
                &&& a.results[i].id == reviews[i].angle.id
                &&& a.results[i].name == reviews[i].angle.name
                &&& a.results[i].model == model
                &&& !blank(reviews[i].verdict) ==> a.results[i].verdict == trimmed(
                    reviews[i].verdict,
                )
                &&& blank(reviews[i].verdict) ==> a.results[i].verdict == reviews[i].angle.name
                    + " review completed."@
                &&& a.results[i].finding_ids.len() == reviews[i].findings.len()
                &&& a.results[i].status == ReviewStatus::Passed <==> a.results[i].score >= 5
                &&& a.stages[i].name == reviews[i].angle.id && a.stages[i].model == model
                    && a.stages[i].status == "ran"@ && a.stages[i].reason
                    == reviews[i].angle.reason
                &&& a.models.contains(model)
            },
    decreases reviews.len(),
{
    if reviews.len() > 0 {
        let rest = reviews.drop_last();
        let so_far = aggregation(rest, default_model)->Ok_0;
        law_every_angle_is_told_of(rest, default_model, so_far);
        let last = reviews.last();
        let findings = identified(last.findings, last.angle.id, finding_ids(so_far.findings))->0;
        lemma_identified(last.findings, last.angle.id, finding_ids(so_far.findings));
        assert(a == with_review(so_far, last, findings, default_model));
        let n = reviews.len() - 1;
        let own = review_model(last.models, default_model);
        assert(a.models.contains(own)) by {
            if !so_far.models.contains(own) {
                assert(a.models[a.models.len() - 1] == own);
            }
        }
        assert forall|i: int| #![trigger a.results[i]] 0 <= i < reviews.len() implies {
            let model = if reviews[i].models.len() > 0 && !blank(reviews[i].models[0]) {
                reviews[i].models[0]
            } else {
                default_model
            };
            &&& a.results[i].id == reviews[i].angle.id
            &&& a.results[i].name == reviews[i].angle.name
            &&& a.results[i].model == model
            &&& !blank(reviews[i].verdict) ==> a.results[i].verdict == trimmed(reviews[i].verdict)
            &&& blank(reviews[i].verdict) ==> a.results[i].verdict == reviews[i].angle.name
                + " review completed."@
            &&& a.results[i].finding_ids.len() == reviews[i].findings.len()
            &&& a.results[i].status == ReviewStatus::Passed <==> a.results[i].score >= 5
            &&& a.stages[i].name == reviews[i].angle.id && a.stages[i].model == model
                && a.stages[i].status == "ran"@ && a.stages[i].reason == reviews[i].angle.reason
            &&& a.models.contains(model)
        } by {
            if i < n {
                assert(a.results[i] == so_far.results[i]);
                assert(rest[i] == reviews[i]);
                assert(a.stages[i] == so_far.stages[i]);
                let model = review_model(reviews[i].models, default_model);
                assert(so_far.models.contains(model));
                let k = choose|k: int|
                    0 <= k < so_far.models.len() && so_far.models[k] == model;
                assert(a.models[k] == model);
            } else {
                assert(a.results[i].finding_ids == finding_ids(findings));
            }
        }
    }
}

proof fn lemma_identified(findings: Seq<FindingView>, angle_id: Seq<char>, seen: Seq<Seq<char>>)
    ensures
        identified(findings, angle_id, seen) matches Some(done) ==> done.len() == findings.len()
            && forall|i: int|
            0 <= i < done.len() ==> (#[trigger] done[i]).angle_id == Some(angle_id)
                && done[i].severity == findings[i].severity && done[i].classification
                == findings[i].classification && done[i].blocking == findings[i].blocking
                && done[i].grounding == findings[i].grounding && done[i].file == findings[i].file
                && done[i].line == findings[i].line && done[i].detail == findings[i].detail
                && done[i].uncertain == findings[i].uncertain && done[i].semantic_fingerprint
                == findings[i].semantic_fingerprint && done[i].requires_evidence_gate
                == findings[i].requires_evidence_gate,
    decreases findings.len(),
{
    if findings.len() > 0 {
        lemma_identified(findings.drop_last(), angle_id, seen);
        if let Some(done) = identified(findings, angle_id, seen) {
            let rest = identified(findings.drop_last(), angle_id, seen)->0;
            assert forall|i: int| 0 <= i < done.len() implies (#[trigger] done[i]).angle_id
                == Some(angle_id) && done[i].severity == findings[i].severity
                && done[i].classification == findings[i].classification && done[i].blocking
                == findings[i].blocking && done[i].grounding == findings[i].grounding
                && done[i].file == findings[i].file && done[i].line == findings[i].line
                && done[i].detail == findings[i].detail && done[i].uncertain
                == findings[i].uncertain && done[i].semantic_fingerprint
                == findings[i].semantic_fingerprint && done[i].requires_evidence_gate
                == findings[i].requires_evidence_gate by {
                if i < rest.len() {
                    assert(done[i] == rest[i]);
                    assert(findings.drop_last()[i] == findings[i]);
                }
            }
        }
    }
}

/// Findings keep all that they say when angles are put together; only their identifier and
/// their angle are set.
pub proof fn law_findings_are_kept_as_they_are(
    findings: Seq<FindingView>,
    angle_id: Seq<char>,
    seen: Seq<Seq<char>>,
    i: int,
)
    requires
        identified(findings, angle_id, seen) is Some,
        0 <= i < findings.len(),
    ensures
        identified(findings, angle_id, seen)->0.len() == findings.len(),
        ({
            let f = identified(findings, angle_id, seen)->0[i];
            f == (FindingView { id: f.id, angle_id: Some(angle_id), ..findings[i] })
        }),
{
    lemma_identified(findings, angle_id, seen);
    let f = identified(findings, angle_id, seen)->0[i];
    assert(f.angle_id == Some(angle_id));
}

/// The findings and the notes of all angles are put together in the order of the angles,
/// each note behind the name of its angle.
pub proof fn law_one_more_angle(
    reviews: Seq<AngleReviewView>,
    review: AngleReviewView,
    default_model: Seq<char>,
    a: AggregationView,
    b: AggregationView,
)
    requires
        aggregation(reviews, default_model) == Ok::<AggregationView, Seq<char>>(a),
        aggregation(reviews.push(review), default_model) == Ok::<AggregationView, Seq<char>>(b),
    ensures
        b.findings.len() == a.findings.len() + review.findings.len(),
        a.findings.is_prefix_of(b.findings),
        b.notes.len() == a.notes.len() + review.notes.len(),
        a.notes.is_prefix_of(b.notes),
        forall|k: int|
            0 <= k < review.notes.len() ==> #[trigger] b.notes[a.notes.len() + k]
                == review.angle.name + ": "@ + review.notes[k],
        a.results.is_prefix_of(b.results),
        !result_ids(a.results).contains(review.angle.id),
{
    let all = reviews.push(review);
    assert(all.drop_last() =~= reviews);
    assert(all.last() == review);
    lemma_identified(review.findings, review.angle.id, finding_ids(a.findings));
    assert(b.findings.take(a.findings.len() as int) =~= a.findings);
    assert(b.notes.take(a.notes.len() as int) =~= a.notes);
    assert(b.results.take(a.results.len() as int) =~= a.results);
}

/// Two reviews of angles with one name are refused.
pub proof fn law_angles_are_reviewed_once(
    reviews: Seq<AngleReviewView>,
    default_model: Seq<char>,
    i: int,
    j: int,
)
    requires
        0 <= i < j < reviews.len(),
        reviews[i].angle.id == reviews[j].angle.id,
    ensures
        aggregation(reviews, default_model) is Err,
        aggregated(reviews, default_model) is Err,
    decreases reviews.len(),
{
    let rest = reviews.drop_last();
    if j < reviews.len() - 1 {
        assert(rest[i] == reviews[i] && rest[j] == reviews[j]);
        law_angles_are_reviewed_once(rest, default_model, i, j);
    } else if aggregation(rest, default_model) is Ok {
        let so_far = aggregation(rest, default_model)->Ok_0;
        law_every_angle_is_told_of(rest, default_model, so_far);
        assert(so_far.results[i].id == rest[i].angle.id);
        assert(result_ids(so_far.results)[i] == reviews[j].angle.id);
        assert(result_ids(so_far.results).contains(reviews.last().angle.id));
    }
}

/// The overall verdict names the angles that need changes, in their order, and no others.
pub proof fn law_failing_angles_are_named(results: Seq<AngleResultView>, next: AngleResultView)
    ensures
        next.status == ReviewStatus::NeedsChanges ==> failing_names(results.push(next))
            == failing_names(results).push(next.name),
        next.status != ReviewStatus::NeedsChanges ==> failing_names(results.push(next))
            == failing_names(results),
        failing_names(Seq::empty()).len() == 0,
        failing_names(results).len() == 0 <==> forall|i: int|
            0 <= i < results.len() ==> (#[trigger] results[i]).status
                != ReviewStatus::NeedsChanges,
        failing_names(results).len() == 0 ==> overall_verdict(results)
            == "All enabled ReviewGate review angles passed."@,
        failing_names(results).len() > 0 ==> overall_verdict(results)
            == "ReviewGate found issues in: "@ + joined(failing_names(results), ", "@) + "."@,
    decreases results.len(),
{
    assert(results.push(next).drop_last() =~= results);
    if results.len() > 0 {
        let rest = results.drop_last();
        law_failing_angles_are_named(rest, next);
        assert(results[results.len() - 1] == results.last());
        if failing_names(results).len() == 0 {
            assert forall|i: int| 0 <= i < results.len() implies (#[trigger] results[i]).status
                != ReviewStatus::NeedsChanges by {
                if i < rest.len() {
                    assert(rest[i] == results[i]);
                }
            }
        } else if failing_names(rest).len() > 0 {
            let i = choose|i: int|
                0 <= i < rest.len() && (#[trigger] rest[i]).status == ReviewStatus::NeedsChanges;
            assert(results[i] == rest[i]);
        }
    }
}

/// What a review cost is known by its source exactly if all of it is from one source; that
/// of a review without any cost is not told.
pub proof fn law_costs_are_of_one_source(total: ReviewCost, source: CostSource, other: CostSource)
    ensures
        with_cost(total, AngleCost::Missing) == total,
        with_cost(total, AngleCost::Estimate).has_cost && with_cost(
            total,
            AngleCost::Estimate,
        ).mixed,
        ({
            let first = with_cost(
                ReviewCost { has_cost: false, source: None, mixed: false },
                AngleCost::Summary { source: Some(source) },
            );
            let again = with_cost(first, AngleCost::Summary { source: Some(other) });
            &&& cost_source(first) == Some(Some(source))
            &&& source == other ==> cost_source(again) == Some(Some(source))
            &&& source != other ==> cost_source(again) == Some(Some(CostSource::Unknown))
        }),
        total.mixed ==> with_cost(total, AngleCost::Summary { source: Some(source) }).mixed,
        !total.has_cost ==> cost_source(total) is None,
        total.has_cost && total.mixed ==> cost_source(total) == Some(Some(CostSource::Unknown)),
        total.has_cost && !total.mixed ==> cost_source(total) == Some(total.source),
{
}

/// What comes of all angles: the score is that of all findings, and nothing that was found
/// is left out.
pub proof fn law_results_hold_all_findings(
    reviews: Seq<AngleReviewView>,
    default_model: Seq<char>,
    a: AggregationView,
)
    requires
        aggregation(reviews, default_model) == Ok::<AggregationView, Seq<char>>(a),
    ensures
        aggregated(reviews, default_model) matches Ok(r) && r.findings == a.findings && r.score
            == Some(score_of(a.findings)) && r.angle_results == a.results && r.notes == a.notes
            && r.angle_errors.len() == 0 && r.review_stages == a.stages && r.models.len() > 0 && (
        r.status == ReviewStatus::Passed <==> score_of(a.findings) >= 5) && (reviews.len() == 0
            ==> r.models == seq![default_model] && r.findings.len() == 0),
{
}

/// No reviews come to nothing: no finding, no angle, no cost.
pub proof fn law_no_reviews_come_to_nothing(default_model: Seq<char>)
    ensures
        aggregation(Seq::empty(), default_model) matches Ok(a) && a.models.len() == 0
            && a.findings.len() == 0 && a.results.len() == 0 && a.stages.len() == 0
            && a.notes.len() == 0 && !a.cost.has_cost && !a.cost.mixed && a.cost.source is None,
{
}

} // verus!
