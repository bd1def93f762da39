//! The outcome of a review, and the stages that it went through.
use vstd::prelude::*;

use crate::aggregate::{
    aggregate_verdict, aggregation, angle_error_views, angle_ids, angle_result_views, finding_ids,
    identified, next_aggregation, opt_views, overall_verdict, result_ids, stage_views,
    with_review, AggregationView, AngleErrorView, AngleResultView, AngleReviewView, ArtifactView,
    ReviewAngleError, ReviewAngleResult, ReviewArtifact, ReviewStage, StageView,
};
use crate::angles::{
    kind_of, may_retry, AngleReviewFailure, AngleView, ReviewAngle,
};
use crate::findings::{
    blockers, compute_score, finding_views, law_unique_ids_are_new, score_of, status_for_score,
    status_of_score, unique_id, Finding, FindingView,
};
use crate::list::holds;
use crate::number::{decimal, decimal_of};
use crate::status::ReviewStatus;
use crate::text::{
    concat2, contains, ends_with, has_text, join, joined, lowercase, opt_view, same_text,
    starts_with, to_lowercase, views,
};

verus! {

// ---------------------------------------------------------------------------
// Recomputing an outcome
// ---------------------------------------------------------------------------

/// The angle that a finding is still of: one of those that were completed.
pub open spec fn kept_angle(angle_id: Option<Seq<char>>, ids: Seq<Seq<char>>) -> Option<Seq<char>> {
    match angle_id {
        Some(id) => if ids.contains(id) {
            Some(id)
        } else {
            None
        },
        None => None,
    }
}

/// The finding, of an angle that was completed or of none.
pub open spec fn kept_finding(f: FindingView, ids: Seq<Seq<char>>) -> FindingView {
    FindingView { angle_id: kept_angle(f.angle_id, ids), ..f }
}

/// The identifiers of the findings of an angle.
pub open spec fn ids_in_angle(findings: Seq<FindingView>, angle_id: Seq<char>) -> Seq<Seq<char>>
    decreases findings.len(),
{
    if findings.len() == 0 {
        Seq::empty()
    } else {
        let rest = ids_in_angle(findings.drop_last(), angle_id);
        if findings.last().angle_id == Some(angle_id) {
            rest.push(findings.last().id)
        } else {
            rest
        }
    }
}

/// The findings with one of these identifiers.
pub open spec fn with_ids(findings: Seq<FindingView>, ids: Seq<Seq<char>>) -> Seq<FindingView>
    decreases findings.len(),
{
    if findings.len() == 0 {
        Seq::empty()
    } else {
        let rest = with_ids(findings.drop_last(), ids);
        if ids.contains(findings.last().id) {
            rest.push(findings.last())
        } else {
            rest
        }
    }
}

/// The verdict on an angle with these findings.
pub open spec fn angle_verdict(findings: Seq<FindingView>) -> Seq<char> {
    if status_of_score(score_of(findings)) == ReviewStatus::Passed {
        "No validated blockers."@
    } else {
        decimal_of(blockers(findings)) + " validated blocker(s) remain."@
    }
}

/// What an angle came to, by the findings of the review.
pub open spec fn recomputed_result(
    result: AngleResultView,
    findings: Seq<FindingView>,
) -> AngleResultView {
    let ids = ids_in_angle(findings, result.id);
    let own = with_ids(findings, ids);
    AngleResultView {
        finding_ids: ids,
        score: score_of(own),
        status: status_of_score(score_of(own)),
        verdict: angle_verdict(own),
        ..result
    }
}

/// That not every angle was completed.
pub open spec fn incomplete_verdict() -> Seq<char> {
    "ReviewGate could not complete every enabled review angle."@
}

/// A review with its outcome as its findings make it. An angle that failed leaves the
/// review without a score.
pub open spec fn recomputed(a: ArtifactView) -> ArtifactView {
    let ids = result_ids(a.angle_results);
    let findings = a.findings.map_values(|f: FindingView| kept_finding(f, ids));
    let results = a.angle_results.map_values(|r: AngleResultView| recomputed_result(r, findings));
    let complete = a.angle_errors.len() == 0;
    ArtifactView {
        findings,
        tracked_angle_ids: a.tracked_angle_ids.map_values(
            |t: Option<Seq<char>>| kept_angle(t, ids),
        ),
        angle_results: results,
        score: if complete {
            Some(score_of(findings))
        } else {
            None
        },
        status: if complete {
            status_of_score(score_of(findings))
        } else {
            ReviewStatus::ReviewError
        },
        verdict: if complete {
            overall_verdict(results)
        } else {
            incomplete_verdict()
        },
        ..a
    }
}

fn keep_angle(angle_id: Option<String>, ids: &Vec<String>) -> (r: Option<String>)
    ensures
        opt_view(r) == kept_angle(opt_view(angle_id), views(ids@)),
{
    match angle_id {
        Some(id) => if holds(ids, id.as_str()) {
            Some(id)
        } else {
            None
        },
        None => None,
    }
}

fn keep_findings(findings: Vec<Finding>, ids: &Vec<String>) -> (r: Vec<Finding>)
    ensures
        finding_views(r@) == finding_views(findings@).map_values(
            |f: FindingView| kept_finding(f, views(ids@)),
        ),
{
    let mut left = findings;
    let mut r: Vec<Finding> = Vec::new();
    let ghost mut i: int = 0;
    proof {
        assert(left@ =~= findings@.skip(0));
    }
    while left.len() > 0
        invariant
            0 <= i <= findings@.len(),
            left@ == findings@.skip(i),
            r@.len() == i,
            forall|k: int|
                0 <= k < i ==> (#[trigger] r@[k])@ == kept_finding(findings@[k]@, views(ids@)),
        decreases left@.len(),
    {
        proof {
            assert(left@[0] == findings@[i]);
        }
        let mut finding = left.remove(0);
        let ghost f = finding@;
        finding.angle_id = keep_angle(finding.angle_id, ids);
        proof {
            assert(finding@ == kept_finding(f, views(ids@)));
            assert(left@ =~= findings@.skip(i + 1));
        }
        r.push(finding);
        proof {
            i = i + 1;
        }
    }
    proof {
        assert(finding_views(r@) =~= finding_views(findings@).map_values(
            |f: FindingView| kept_finding(f, views(ids@)),
        ));
    }
    r
}

fn keep_tracked(tracked_ids: Vec<Option<String>>, ids: &Vec<String>) -> (r: Vec<Option<String>>)
    ensures
        opt_views(r@) == opt_views(tracked_ids@).map_values(
            |t: Option<Seq<char>>| kept_angle(t, views(ids@)),
        ),
{
    let mut left = tracked_ids;
    let mut r: Vec<Option<String>> = Vec::new();
    let ghost mut i: int = 0;
    proof {
        assert(left@ =~= tracked_ids@.skip(0));
    }
    while left.len() > 0
        invariant
            0 <= i <= tracked_ids@.len(),
            left@ == tracked_ids@.skip(i),
            r@.len() == i,
            forall|k: int|
                0 <= k < i ==> opt_view(#[trigger] r@[k]) == kept_angle(
                    opt_view(tracked_ids@[k]),
                    views(ids@),
                ),
        decreases left@.len(),
    {
        proof {
            assert(left@[0] == tracked_ids@[i]);
        }
        let id = left.remove(0);
        proof {
            assert(left@ =~= tracked_ids@.skip(i + 1));
        }
        r.push(keep_angle(id, ids));
        proof {
            i = i + 1;
        }
    }
    proof {
        assert(opt_views(r@) =~= opt_views(tracked_ids@).map_values(
            |t: Option<Seq<char>>| kept_angle(t, views(ids@)),
        ));
    }
    r
}

fn is_of_angle(finding: &Finding, angle_id: &str) -> (r: bool)
    ensures
        r == (finding@.angle_id == Some(angle_id@)),
{
    match &finding.angle_id {
        Some(id) => same_text(id.as_str(), angle_id),
        None => false,
    }
}

fn angle_finding_ids(findings: &Vec<Finding>, angle_id: &str) -> (r: Vec<String>)
    ensures
        views(r@) == ids_in_angle(finding_views(findings@), angle_id@),
{
    let ghost all = finding_views(findings@);
    let mut r: Vec<String> = Vec::new();
    let mut i: usize = 0;
    proof {
        assert(views(r@) =~= ids_in_angle(all.take(0), angle_id@));
    }
    while i < findings.len()
        invariant
            i <= findings@.len(),
            all == finding_views(findings@),
            views(r@) == ids_in_angle(all.take(i as int), angle_id@),
        decreases findings@.len() - i,
    {
        proof {
            assert(all.take(i + 1).drop_last() =~= all.take(i as int));
            assert(all.take(i + 1).last() == findings@[i as int]@);
        }
        if is_of_angle(&findings[i], angle_id) {
            let ghost before = views(r@);
            r.push(findings[i].id.clone());
            proof {
                assert(views(r@) =~= before.push(findings@[i as int].id@));
            }
        }
        i += 1;
    }
    proof {
        assert(all.take(all.len() as int) =~= all);
    }
    r
}

/// The score and the number of blockers of the findings with one of these identifiers.
fn score_with_ids(findings: &Vec<Finding>, ids: &Vec<String>) -> (r: (u8, usize))
    ensures
        r.0 == score_of(with_ids(finding_views(findings@), views(ids@))),
        r.1 == blockers(with_ids(finding_views(findings@), views(ids@))),
{
    let ghost all = finding_views(findings@);
    let ghost wanted = views(ids@);
    let mut score: u8 = 5;
    let mut count: usize = 0;
    let mut i: usize = 0;
    while i < findings.len()
        invariant
            i <= findings@.len(),
            count <= i,
            all == finding_views(findings@),
            wanted == views(ids@),
            score == score_of(with_ids(all.take(i as int), wanted)),
            count == blockers(with_ids(all.take(i as int), wanted)),
        decreases findings@.len() - i,
    {
        let ghost before = with_ids(all.take(i as int), wanted);
        proof {
            assert(all.take(i + 1).drop_last() =~= all.take(i as int));
            assert(all.take(i + 1).last() == findings@[i as int]@);
            assert(before.push(findings@[i as int]@).drop_last() =~= before);
        }
        let finding = &findings[i];
        if holds(ids, finding.id.as_str()) && finding.blocking {
            count += 1;
            let ceiling: u8 = finding.severity.score_ceiling();
            if ceiling < score {
                score = ceiling;
            }
        }
        i += 1;
    }
    proof {
        assert(all.take(all.len() as int) =~= all);
    }
    (score, count)
}

fn recompute_result(result: ReviewAngleResult, findings: &Vec<Finding>) -> (r: ReviewAngleResult)
    ensures
        r@ == recomputed_result(result@, finding_views(findings@)),
{
    let ids = angle_finding_ids(findings, result.id.as_str());
    let (score, count) = score_with_ids(findings, &ids);
    let status = status_for_score(score);
    let verdict = if status == ReviewStatus::Passed {
        "No validated blockers.".to_owned()
    } else {
        let number = decimal(count as u64);
        concat2(number.as_str(), " validated blocker(s) remain.")
    };
    ReviewAngleResult { finding_ids: ids, score, status, verdict, ..result }
}

fn recompute_results(results: Vec<ReviewAngleResult>, findings: &Vec<Finding>) -> (r: Vec<
    ReviewAngleResult,
>)
    ensures
        angle_result_views(r@) == angle_result_views(results@).map_values(
            |x: AngleResultView| recomputed_result(x, finding_views(findings@)),
        ),
{
    let mut left = results;
    let mut r: Vec<ReviewAngleResult> = Vec::new();
    let ghost mut i: int = 0;
    proof {
        assert(left@ =~= results@.skip(0));
    }
    while left.len() > 0
        invariant
            0 <= i <= results@.len(),
            left@ == results@.skip(i),
            r@.len() == i,
            forall|k: int|
                0 <= k < i ==> (#[trigger] r@[k])@ == recomputed_result(
                    results@[k]@,
                    finding_views(findings@),
                ),
        decreases left@.len(),
    {
        proof {
            assert(left@[0] == results@[i]);
        }
        let result = left.remove(0);
        proof {
            assert(left@ =~= results@.skip(i + 1));
        }
        r.push(recompute_result(result, findings));
        proof {
            i = i + 1;
        }
    }
    proof {
        assert(angle_result_views(r@) =~= angle_result_views(results@).map_values(
            |x: AngleResultView| recomputed_result(x, finding_views(findings@)),
        ));
    }
    r
}

/// Makes the outcome of a review what its findings make it.
pub fn recompute_artifact_outcome(artifact: &mut ReviewArtifact)
    ensures
        final(artifact)@ == recomputed(old(artifact)@),
{
    let ids = angle_ids(&artifact.angle_results);
    let mut findings: Vec<Finding> = Vec::new();
    std::mem::swap(&mut findings, &mut artifact.findings);
    let mut tracked_ids: Vec<Option<String>> = Vec::new();
    std::mem::swap(&mut tracked_ids, &mut artifact.tracked_angle_ids);
    let mut results: Vec<ReviewAngleResult> = Vec::new();
    std::mem::swap(&mut results, &mut artifact.angle_results);
    let findings = keep_findings(findings, &ids);
    artifact.tracked_angle_ids = keep_tracked(tracked_ids, &ids);
    artifact.angle_results = recompute_results(results, &findings);
    artifact.findings = findings;
    proof {
        assert(angle_error_views(artifact.angle_errors@).len() == artifact.angle_errors@.len());
    }
    if artifact.angle_errors.len() == 0 {
        let score: u8 = compute_score(&artifact.findings);
        artifact.score = Some(score);
        artifact.status = status_for_score(score);
        artifact.verdict = aggregate_verdict(&artifact.angle_results);
    } else {
        artifact.score = None;
        artifact.status = ReviewStatus::ReviewError;
        artifact.verdict = "ReviewGate could not complete every enabled review angle.".to_owned();
    }
}

/// A review with findings that were held against those tracked before.
pub open spec fn converged(
    a: ArtifactView,
    findings: Seq<FindingView>,
    notes: Seq<Seq<char>>,
    tracked_ids: Seq<Option<Seq<char>>>,
) -> ArtifactView {
    recomputed(
        ArtifactView { findings, notes: a.notes + notes, tracked_angle_ids: tracked_ids, ..a },
    )
}

/// Gives a review the findings, the notes and the tracked findings that came of holding
/// its findings against those tracked before.
pub fn apply_convergence_policy(
    artifact: &mut ReviewArtifact,
    findings: Vec<Finding>,
    notes: Vec<String>,
    tracked_angle_ids: Vec<Option<String>>,
)
    ensures
        final(artifact)@ == converged(
            old(artifact)@,
            finding_views(findings@),
            views(notes@),
            opt_views(tracked_angle_ids@),
        ),
{
    let ghost before = artifact@;
    let ghost added = views(notes@);
    let mut notes = notes;
    artifact.findings = findings;
    artifact.notes.append(&mut notes);
    artifact.tracked_angle_ids = tracked_angle_ids;
    proof {
        assert(views(artifact.notes@) =~= before.notes + added);
    }
    recompute_artifact_outcome(artifact);
}

// ---------------------------------------------------------------------------
// Angles that failed
// ---------------------------------------------------------------------------

/// An angle whose review failed, with what is said of the failure in public.
#[derive(Debug, PartialEq, Eq)]
pub struct FailedAngle {
    pub angle: ReviewAngle,
    pub failure: AngleReviewFailure,
    pub message: String,
}

/// An angle whose review failed.
pub struct FailedAngleView {
    pub angle: AngleView,
    pub failure: AngleReviewFailure,
    pub message: Seq<char>,
}

impl View for FailedAngle {
    type V = FailedAngleView;

    open spec fn view(&self) -> FailedAngleView {
        FailedAngleView { angle: self.angle@, failure: self.failure, message: self.message@ }
    }
}

/// What failed angles are.
pub open spec fn failed_angle_views(s: Seq<FailedAngle>) -> Seq<FailedAngleView> {
    s.map_values(|x: FailedAngle| x@)
}

/// The stage of an angle that failed.
pub open spec fn failed_stage(f: FailedAngleView, model: Seq<char>) -> StageView {
    StageView { name: f.angle.id, model, status: "failed"@, reason: f.message }
}

/// The error of an angle that failed.
pub open spec fn angle_error(f: FailedAngleView, model: Seq<char>) -> AngleErrorView {
    AngleErrorView {
        angle_id: f.angle.id,
        angle_name: f.angle.name,
        kind: kind_of(f.failure),
        retryable: may_retry(f.failure),
        message: f.message,
        model,
    }
}

/// A review with angles that failed. It has no score.
pub open spec fn with_failures(
    a: ArtifactView,
    failed: Seq<FailedAngleView>,
    model: Seq<char>,
) -> ArtifactView {
    if failed.len() == 0 {
        a
    } else {
        ArtifactView {
            review_stages: a.review_stages + failed.map_values(
                |f: FailedAngleView| failed_stage(f, model),
            ),
            angle_errors: a.angle_errors + failed.map_values(
                |f: FailedAngleView| angle_error(f, model),
            ),
            score: None,
            status: ReviewStatus::ReviewError,
            verdict: incomplete_verdict(),
            ..a
        }
    }
}

/// Adds angles that failed to a review.
pub fn append_failed_angle_reviews(
    artifact: &mut ReviewArtifact,
    default_model: &str,
    failed_angles: Vec<FailedAngle>,
)
    ensures
        final(artifact)@ == with_failures(
            old(artifact)@,
            failed_angle_views(failed_angles@),
            default_model@,
        ),
{
    proof {
        assert(failed_angle_views(failed_angles@).len() == failed_angles@.len());
    }
    if failed_angles.len() == 0 {
        return;
    }
    let ghost before = artifact@;
    let ghost all = failed_angle_views(failed_angles@);
    let ghost stages = all.map_values(|f: FailedAngleView| failed_stage(f, default_model@));
    let ghost errors = all.map_values(|f: FailedAngleView| angle_error(f, default_model@));
    let mut i: usize = 0;
    proof {
        assert(before.review_stages =~= before.review_stages + stages.take(0));
        assert(before.angle_errors =~= before.angle_errors + errors.take(0));
    }
    while i < failed_angles.len()
        invariant
            i <= failed_angles@.len(),
            before == old(artifact)@,
            all == failed_angle_views(failed_angles@),
            all.len() == failed_angles@.len(),
            stages == all.map_values(|f: FailedAngleView| failed_stage(f, default_model@)),
            errors == all.map_values(|f: FailedAngleView| angle_error(f, default_model@)),
            artifact@ == (ArtifactView {
                review_stages: before.review_stages + stages.take(i as int),
                angle_errors: before.angle_errors + errors.take(i as int),
                ..before
            }),
        decreases failed_angles@.len() - i,
    {
        let failed = &failed_angles[i];
        let stage = ReviewStage {
            name: failed.angle.id.clone(),
            model: default_model.to_owned(),
            status: "failed".to_owned(),
            reason: failed.message.clone(),
        };
        let error = ReviewAngleError {
            angle_id: failed.angle.id.clone(),
            angle_name: failed.angle.name.clone(),
            kind: failed.failure.kind(),
            retryable: failed.failure.retryable(),
            message: failed.message.clone(),
            model: default_model.to_owned(),
        };
        let ghost earlier = artifact@;
        artifact.review_stages.push(stage);
        artifact.angle_errors.push(error);
        proof {
            assert(all[i as int] == failed_angles@[i as int]@);
            assert(stages[i as int] == stage@);
            assert(errors[i as int] == error@);
            assert(artifact@.review_stages =~= earlier.review_stages.push(stage@));
            assert(artifact@.angle_errors =~= earlier.angle_errors.push(error@));
            assert(artifact@.review_stages =~= before.review_stages + stages.take(i + 1));
            assert(artifact@.angle_errors =~= before.angle_errors + errors.take(i + 1));
        }
        i += 1;
    }
    proof {
        assert(stages.take(stages.len() as int) =~= stages);
        assert(errors.take(errors.len() as int) =~= errors);
    }
    artifact.score = None;
    artifact.status = ReviewStatus::ReviewError;
    artifact.verdict = "ReviewGate could not complete every enabled review angle.".to_owned();
}

// ---------------------------------------------------------------------------
// Laws
// ---------------------------------------------------------------------------

/// Recomputing an outcome a second time changes nothing.
pub proof fn law_recomputing_again(a: ArtifactView)
    ensures
        recomputed(recomputed(a)) == recomputed(a),
{
    let b = recomputed(a);
    let c = recomputed(b);
    let ids = result_ids(a.angle_results);
    assert(result_ids(b.angle_results) =~= ids);
    assert(c.findings =~= b.findings);
    assert(c.tracked_angle_ids =~= b.tracked_angle_ids);
    assert(c.angle_results =~= b.angle_results);
}

/// A review with an angle that failed has no score and is an error, and stays so whatever
/// comes of its findings.
pub proof fn law_failures_leave_no_score(
    a: ArtifactView,
    failed: Seq<FailedAngleView>,
    model: Seq<char>,
    findings: Seq<FindingView>,
    notes: Seq<Seq<char>>,
    tracked_ids: Seq<Option<Seq<char>>>,
)
    requires
        failed.len() > 0,
    ensures
        with_failures(a, failed, model).score is None,
        with_failures(a, failed, model).status == ReviewStatus::ReviewError,
        converged(with_failures(a, failed, model), findings, notes, tracked_ids).score is None,
        converged(with_failures(a, failed, model), findings, notes, tracked_ids).status
            == ReviewStatus::ReviewError,
{
}

/// Every finding of a review whose outcome was computed is of an angle that was completed,
/// or of none.
pub proof fn law_findings_are_of_completed_angles(a: ArtifactView, i: int)
    requires
        0 <= i < a.findings.len(),
    ensures
        recomputed(a).findings[i].angle_id matches Some(id) ==> result_ids(
            recomputed(a).angle_results,
        ).contains(id),
{
    assert(result_ids(recomputed(a).angle_results) =~= result_ids(a.angle_results));
}

/// The results of angles agree with the findings: no two findings have one identifier, no
/// two results are of one angle, every finding is of an angle with a result, and a result
/// names the findings of its angle.
pub open spec fn agrees(a: AggregationView) -> bool {
    &&& finding_ids(a.findings).no_duplicates()
    &&& result_ids(a.results).no_duplicates()
    &&& forall|i: int|
        0 <= i < a.findings.len() ==> ((#[trigger] a.findings[i]).angle_id matches Some(id)
            && result_ids(a.results).contains(id))
    &&& forall|k: int|
        0 <= k < a.results.len() ==> (#[trigger] a.results[k]).finding_ids == ids_in_angle(
            a.findings,
            a.results[k].id,
        )
}

proof fn lemma_ids_of_no_finding(findings: Seq<FindingView>, angle_id: Seq<char>)
    requires
        forall|i: int|
            0 <= i < findings.len() ==> (#[trigger] findings[i]).angle_id != Some(angle_id),
    ensures
        ids_in_angle(findings, angle_id) == Seq::<Seq<char>>::empty(),
    decreases findings.len(),
{
    if findings.len() > 0 {
        lemma_ids_of_no_finding(findings.drop_last(), angle_id);
    }
}

proof fn lemma_ids_in_both(
    first: Seq<FindingView>,
    second: Seq<FindingView>,
    angle_id: Seq<char>,
)
    ensures
        ids_in_angle(first + second, angle_id) == ids_in_angle(first, angle_id) + ids_in_angle(
            second,
            angle_id,
        ),
    decreases second.len(),
{
    if second.len() == 0 {
        assert(first + second =~= first);
        assert(ids_in_angle(first, angle_id) + ids_in_angle(second, angle_id) =~= ids_in_angle(
            first,
            angle_id,
        ));
    } else {
        assert((first + second).drop_last() =~= first + second.drop_last());
        lemma_ids_in_both(first, second.drop_last(), angle_id);
        assert(ids_in_angle(first + second, angle_id) =~= ids_in_angle(first, angle_id)
            + ids_in_angle(second, angle_id));
    }
}

proof fn lemma_ids_of_all(findings: Seq<FindingView>, angle_id: Seq<char>)
    requires
        forall|i: int|
            0 <= i < findings.len() ==> (#[trigger] findings[i]).angle_id == Some(angle_id),
    ensures
        ids_in_angle(findings, angle_id) == finding_ids(findings),
    decreases findings.len(),
{
    if findings.len() > 0 {
        lemma_ids_of_all(findings.drop_last(), angle_id);
        assert(finding_ids(findings) =~= finding_ids(findings.drop_last()).push(
            findings.last().id,
        ));
    } else {
        assert(finding_ids(findings) =~= Seq::empty());
    }
}

proof fn lemma_identified(findings: Seq<FindingView>, angle_id: Seq<char>, seen: Seq<Seq<char>>)
    requires
        seen.no_duplicates(),
    ensures
        identified(findings, angle_id, seen) matches Some(done) ==> {
            &&& done.len() == findings.len()
            &&& (seen + finding_ids(done)).no_duplicates()
            &&& forall|i: int|
                0 <= i < done.len() ==> (#[trigger] done[i]).angle_id == Some(angle_id)
        },
    decreases findings.len(),
{
    if findings.len() == 0 {
        assert(seen + finding_ids(Seq::<FindingView>::empty()) =~= seen);
    } else {
        lemma_identified(findings.drop_last(), angle_id, seen);
        match identified(findings.drop_last(), angle_id, seen) {
            None => {},
            Some(done) => {
                let taken = seen + finding_ids(done);
                law_unique_ids_are_new(angle_id, findings.last().id, taken);
                match unique_id(angle_id, findings.last().id, taken) {
                    None => {},
                    Some(id) => {
                        let last = FindingView { id, angle_id: Some(angle_id), ..findings.last() };
                        let all = seen + finding_ids(done.push(last));
                        assert(all =~= taken.push(id));
                        assert forall|i: int, j: int|
                            0 <= i < j < all.len() implies all[i] != all[j] by {
                            if j == taken.len() {
                                assert(taken[i] == all[i]);
                                assert(taken.contains(all[i]));
                            }
                        }
                    },
                }
            },
        }
    }
}

proof fn lemma_next_agrees(a: AggregationView, review: AngleReviewView, model: Seq<char>)
    requires
        agrees(a),
        next_aggregation(a, review, model) is Ok,
    ensures
        agrees(next_aggregation(a, review, model)->Ok_0),
{
    let id = review.angle.id;
    let seen = finding_ids(a.findings);
    let added = identified(review.findings, id, seen)->Some_0;
    let b = with_review(a, review, added, model);
    lemma_identified(review.findings, id, seen);
    assert(finding_ids(b.findings) =~= seen + finding_ids(added));
    let ids = result_ids(a.results);
    assert(result_ids(b.results) =~= ids.push(id));
    assert forall|i: int, j: int| 0 <= i < j < ids.len() + 1 implies ids.push(id)[i] != ids.push(
        id,
    )[j] by {
        if j == ids.len() {
            assert(ids.contains(ids[i]));
        }
    }
    assert(ids.push(id)[ids.len() as int] == id);
    assert forall|i: int| 0 <= i < b.findings.len() implies ((#[trigger] b.findings[i]).angle_id
        matches Some(of) && result_ids(b.results).contains(of)) by {
        if i < a.findings.len() {
            let of = a.findings[i].angle_id->Some_0;
            let k = choose|k: int| 0 <= k < ids.len() && ids[k] == of;
            assert(ids.push(id)[k] == of);
        } else {
            assert(b.findings[i] == added[i - a.findings.len()]);
        }
    }
    assert forall|k: int| 0 <= k < b.results.len() implies (#[trigger] b.results[k]).finding_ids
        == ids_in_angle(b.findings, b.results[k].id) by {
        lemma_ids_in_both(a.findings, added, b.results[k].id);
        if k < a.results.len() {
            assert(ids[k] == a.results[k].id);
            assert(ids.contains(a.results[k].id));
            lemma_ids_of_no_finding(added, a.results[k].id);
            assert(b.results[k] == a.results[k]);
        } else {
            lemma_ids_of_no_finding(a.findings, id);
            lemma_ids_of_all(added, id);
        }
        assert(b.results[k].finding_ids =~= ids_in_angle(b.findings, b.results[k].id));
    }
}

/// What reviews of several angles come to agrees with itself.
pub proof fn law_aggregation_agrees(reviews: Seq<AngleReviewView>, default_model: Seq<char>)
    ensures
        aggregation(reviews, default_model) matches Ok(a) ==> agrees(a),
    decreases reviews.len(),
{
    if reviews.len() > 0 {
        law_aggregation_agrees(reviews.drop_last(), default_model);
        if aggregation(reviews.drop_last(), default_model) is Ok {
            let a = aggregation(reviews.drop_last(), default_model)->Ok_0;
            if next_aggregation(a, reviews.last(), default_model) is Ok {
                lemma_next_agrees(a, reviews.last(), default_model);
            }
        }
    }
}

// ---------------------------------------------------------------------------
// Stages
// ---------------------------------------------------------------------------

/// A path of documentation.
pub open spec fn documentation_path(path: Seq<char>) -> bool {
    has_text(path, "readme"@) || "docs/"@.is_prefix_of(path) || has_text(path, "/docs/"@)
        || ".md"@.is_suffix_of(path)
}

/// One of the paths, in lower case, is one of documentation.
pub open spec fn touches_documentation(changed_files: Seq<Seq<char>>) -> bool {
    exists|i: int|
        0 <= i < changed_files.len() && documentation_path(lowercase(#[trigger] changed_files[i]))
}

/// The reasons for a further stage, with its name, in the order in which they are looked at.
pub open spec fn stage_reasons(
    changed_files: Seq<Seq<char>>,
    data_integrity: bool,
) -> Seq<(bool, Seq<char>, Seq<char>)> {
    let changed = lowercase(joined(changed_files, "\n"@));
    seq![
        (
            has_text(changed, "test"@) || has_text(changed, "fixture"@),
            "testability"@,
            "Changed paths touch tests or fixtures."@,
        ),
        (
            has_text(changed, "migration"@) || has_text(changed, "schema"@),
            "migrations"@,
            "Changed paths touch migrations or schemas."@,
        ),
        (
            data_integrity,
            "data_integrity"@,
            "Changed paths and diff include deploy-time, startup, or ORM write behavior."@,
        ),
        (
            has_text(changed, "security"@) || has_text(changed, "auth"@) || has_text(
                changed,
                "token"@,
            ),
            "security"@,
            "Changed paths touch security-sensitive code or docs."@,
        ),
        (
            touches_documentation(changed_files),
            "docs"@,
            "Changed paths include documentation."@,
        ),
        (
            has_text(changed, "frontend"@) || has_text(changed, ".tsx"@) || has_text(
                changed,
                ".css"@,
            ),
            "frontend"@,
            "Changed paths look frontend-facing."@,
        ),
        (
            has_text(changed, "action.yml"@) || has_text(changed, "cargo.toml"@) || has_text(
                changed,
                "api"@,
            ),
            "compatibility"@,
            "Changed paths affect public integration surfaces."@,
        ),
    ]
}

/// A stage that is called for.
pub open spec fn selected_stage(name: Seq<char>, reason: Seq<char>, model: Seq<char>) -> StageView {
    StageView { name, model, status: "selected"@, reason }
}

/// The stages for the reasons that hold.
pub open spec fn stages_for(
    reasons: Seq<(bool, Seq<char>, Seq<char>)>,
    model: Seq<char>,
) -> Seq<StageView>
    decreases reasons.len(),
{
    if reasons.len() == 0 {
        Seq::empty()
    } else {
        let rest = stages_for(reasons.drop_last(), model);
        if reasons.last().0 {
            rest.push(selected_stage(reasons.last().1, reasons.last().2, model))
        } else {
            rest
        }
    }
}

/// The stages that changed files call for.
pub open spec fn selected_stages(
    changed_files: Seq<Seq<char>>,
    data_integrity: bool,
    model: Seq<char>,
) -> Seq<StageView> {
    seq![
        StageView {
            name: "general"@,
            model,
            status: "ran"@,
            reason: "Always run a general correctness review."@,
        },
    ] + stages_for(stage_reasons(changed_files, data_integrity), model)
}

fn any_documentation(changed_files: &Vec<String>) -> (r: bool)
    ensures
        r == touches_documentation(views(changed_files@)),
{
    let ghost all = views(changed_files@);
    let mut i: usize = 0;
    while i < changed_files.len()
        invariant
            i <= changed_files@.len(),
            all == views(changed_files@),
            forall|k: int| 0 <= k < i ==> !documentation_path(lowercase(#[trigger] all[k])),
        decreases changed_files@.len() - i,
    {
        let path = to_lowercase(changed_files[i].as_str());
        let path = path.as_str();
        proof {
            assert(all[i as int] == changed_files@[i as int]@);
        }
        if contains(path, "readme") || starts_with(path, "docs/") || contains(path, "/docs/")
            || ends_with(path, ".md") {
            return true;
        }
        i += 1;
    }
    false
}

fn add_stage(stages: &mut Vec<ReviewStage>, wanted: bool, name: &str, reason: &str, model: &str)
    ensures
        stage_views(final(stages)@) == if wanted {
            stage_views(old(stages)@).push(selected_stage(name@, reason@, model@))
        } else {
            stage_views(old(stages)@)
        },
{
    if wanted {
        let ghost before = stage_views(stages@);
        let stage = ReviewStage {
            name: name.to_owned(),
            model: model.to_owned(),
            status: "selected".to_owned(),
            reason: reason.to_owned(),
        };
        stages.push(stage);
        proof {
            assert(stage_views(stages@) =~= before.push(stage@));
        }
    }
}

proof fn lemma_stages_push(
    reasons: Seq<(bool, Seq<char>, Seq<char>)>,
    reason: (bool, Seq<char>, Seq<char>),
    model: Seq<char>,
)
    ensures
        stages_for(reasons.push(reason), model) == if reason.0 {
            stages_for(reasons, model).push(selected_stage(reason.1, reason.2, model))
        } else {
            stages_for(reasons, model)
        },
{
    assert(reasons.push(reason).drop_last() =~= reasons);
}

proof fn lemma_next_stage(r: Seq<(bool, Seq<char>, Seq<char>)>, i: int, model: Seq<char>)
    requires
        0 <= i < r.len(),
    ensures
        stages_for(r.take(i + 1), model) == if r[i].0 {
            stages_for(r.take(i), model).push(selected_stage(r[i].1, r[i].2, model))
        } else {
            stages_for(r.take(i), model)
        },
{
    lemma_stages_push(r.take(i), r[i], model);
    assert(r.take(i).push(r[i]) =~= r.take(i + 1));
}

/// The stages that changed files call for.
pub fn select_review_stages(
    changed_files: &Vec<String>,
    data_integrity_review_needed: bool,
    model: &str,
) -> (r: Vec<ReviewStage>)
    ensures
        stage_views(r@) == selected_stages(
            views(changed_files@),
            data_integrity_review_needed,
            model@,
        ),
{
    let text = join(changed_files, "\n");
    let changed = to_lowercase(text.as_str());
    let changed = changed.as_str();
    let mut stages: Vec<ReviewStage> = Vec::new();
    let ghost reasons = stage_reasons(views(changed_files@), data_integrity_review_needed);
    proof {
        assert(stage_views(stages@) =~= stages_for(reasons.take(0), model@));
    }
    let wanted = contains(changed, "test") || contains(changed, "fixture");
    add_stage(
        &mut stages,
        wanted,
        "testability",
        "Changed paths touch tests or fixtures.",
        model,
    );
    proof {
        lemma_next_stage(reasons, 0, model@);
    }
    let wanted = contains(changed, "migration") || contains(changed, "schema");
    add_stage(
        &mut stages,
        wanted,
        "migrations",
        "Changed paths touch migrations or schemas.",
        model,
    );
    proof {
        lemma_next_stage(reasons, 1, model@);
    }
    add_stage(
        &mut stages,
        data_integrity_review_needed,
        "data_integrity",
        "Changed paths and diff include deploy-time, startup, or ORM write behavior.",
        model,
    );
    proof {
        lemma_next_stage(reasons, 2, model@);
    }
    let wanted = contains(changed, "security") || contains(changed, "auth") || contains(
        changed,
        "token",
    );
    add_stage(
        &mut stages,
        wanted,
        "security",
        "Changed paths touch security-sensitive code or docs.",
        model,
    );
    proof {
        lemma_next_stage(reasons, 3, model@);
    }
    let wanted = any_documentation(changed_files);
    add_stage(&mut stages, wanted, "docs", "Changed paths include documentation.", model);
    proof {
        lemma_next_stage(reasons, 4, model@);
    }
    let wanted = contains(changed, "frontend") || contains(changed, ".tsx") || contains(
        changed,
        ".css",
    );
    add_stage(&mut stages, wanted, "frontend", "Changed paths look frontend-facing.", model);
    proof {
        lemma_next_stage(reasons, 5, model@);
    }
    let wanted = contains(changed, "action.yml") || contains(changed, "cargo.toml") || contains(
        changed,
        "api",
    );
    add_stage(
        &mut stages,
        wanted,
        "compatibility",
        "Changed paths affect public integration surfaces.",
        model,
    );
    proof {
        lemma_next_stage(reasons, 6, model@);
        assert(reasons.take(7) =~= reasons);
    }
    let first = ReviewStage {
        name: "general".to_owned(),
        model: model.to_owned(),
        status: "ran".to_owned(),
        reason: "Always run a general correctness review.".to_owned(),
    };
    let ghost rest = stage_views(stages@);
    stages.insert(0, first);
    proof {
        assert(stage_views(stages@) =~= seq![first@] + rest);
    }
    stages
}

/// A stage of this name is among the stages.
pub open spec fn has_stage(stages: Seq<StageView>, name: Seq<char>) -> bool {
    exists|i: int| 0 <= i < stages.len() && (#[trigger] stages[i]).name == name
}

/// The stages with those candidates whose names none before them has.
pub open spec fn with_missing(
    stages: Seq<StageView>,
    candidates: Seq<StageView>,
) -> Seq<StageView>
    decreases candidates.len(),
{
    if candidates.len() == 0 {
        stages
    } else {
        let rest = with_missing(stages, candidates.drop_last());
        if has_stage(rest, candidates.last().name) {
            rest
        } else {
            rest.push(candidates.last())
        }
    }
}

fn is_stage(stages: &Vec<ReviewStage>, name: &str) -> (r: bool)
    ensures
        r == has_stage(stage_views(stages@), name@),
{
    let ghost all = stage_views(stages@);
    let mut i: usize = 0;
    while i < stages.len()
        invariant
            i <= stages@.len(),
            all == stage_views(stages@),
            forall|k: int| 0 <= k < i ==> (#[trigger] all[k]).name != name@,
        decreases stages@.len() - i,
    {
        proof {
            assert(all[i as int] == stages@[i as int]@);
        }
        if same_text(stages[i].name.as_str(), name) {
            return true;
        }
        i += 1;
    }
    false
}

/// Adds the candidates whose names no stage has.
pub fn append_missing_review_stages(stages: &mut Vec<ReviewStage>, candidates: Vec<ReviewStage>)
    ensures
        stage_views(final(stages)@) == with_missing(
            stage_views(old(stages)@),
            stage_views(candidates@),
        ),
{
    let ghost all = stage_views(candidates@);
    let ghost first = stage_views(stages@);
    let mut left = candidates;
    let ghost mut i: int = 0;
    proof {
        assert(left@ =~= candidates@.skip(0));
    }
    while left.len() > 0
        invariant
            0 <= i <= candidates@.len(),
            all == stage_views(candidates@),
            all.len() == candidates@.len(),
            first == stage_views(old(stages)@),
            left@ == candidates@.skip(i),
            stage_views(stages@) == with_missing(first, all.take(i)),
        decreases left@.len(),
    {
        proof {
            assert(all.take(i + 1).drop_last() =~= all.take(i));
            assert(left@[0] == candidates@[i]);
            assert(all.take(i + 1).last() == candidates@[i]@);
        }
        let candidate = left.remove(0);
        proof {
            assert(left@ =~= candidates@.skip(i + 1));
        }
        if !is_stage(stages, candidate.name.as_str()) {
            let ghost before = stage_views(stages@);
            stages.push(candidate);
            proof {
                assert(stage_views(stages@) =~= before.push(candidate@));
            }
        }
        proof {
            i = i + 1;
        }
    }
    proof {
        assert(all.take(i) =~= all);
    }
}

/// A review with a model and with the stages that changed files call for.
pub open spec fn completed(
    a: ArtifactView,
    model: Seq<char>,
    changed_files: Seq<Seq<char>>,
    data_integrity: bool,
) -> ArtifactView {
    let models = if a.models.len() == 0 {
        seq![model]
    } else {
        a.models
    };
    ArtifactView {
        models,
        review_stages: with_missing(
            a.review_stages,
            selected_stages(changed_files, data_integrity, models[0]),
        ),
        ..a
    }
}

/// Gives a review a model, where it names none, and the stages that changed files call for.
pub fn finalize_review_artifact(
    artifact: &mut ReviewArtifact,
    model: &str,
    changed_files: &Vec<String>,
    data_integrity_review_needed: bool,
)
    ensures
        final(artifact)@ == completed(
            old(artifact)@,
            model@,
            views(changed_files@),
            data_integrity_review_needed,
        ),
{
    proof {
        assert(views(artifact.models@).len() == artifact.models@.len());
    }
    if artifact.models.len() == 0 {
        artifact.models.push(model.to_owned());
        proof {
            assert(views(artifact.models@) =~= seq![model@]);
        }
    }
    proof {
        assert(views(artifact.models@)[0] == artifact.models@[0]@);
    }
    let stages = select_review_stages(
        changed_files,
        data_integrity_review_needed,
        artifact.models[0].as_str(),
    );
    append_missing_review_stages(&mut artifact.review_stages, stages);
}

// ---------------------------------------------------------------------------
// Data integrity
// ---------------------------------------------------------------------------

/// A path, in lower case, of what is deployed or synchronises data.
pub open spec fn operational_path(path: Seq<char>) -> bool {
    has_text(path, "deployment/"@) || has_text(path, "entrypoint"@) || has_text(
        path,
        "management/commands"@,
    ) || "services.py"@.is_suffix_of(path) || "models.py"@.is_suffix_of(path) || has_text(
        path,
        "/tasks"@,
    ) || has_text(path, "worker"@) || has_text(path, "sync"@)
}

/// A diff, in lower case, that writes data or acts when something is started.
pub open spec fn operational_diff(diff: Seq<char>) -> bool {
    has_text(diff, ".objects."@) || has_text(diff, "update_or_create"@) || has_text(
        diff,
        "get_or_create"@,
    ) || has_text(diff, "transaction.atomic"@) || has_text(diff, "manage.py"@) || has_text(
        diff,
        "migrate --noinput"@,
    ) || has_text(diff, "gunicorn"@)
}

/// A change calls for a look at the integrity of data.
pub open spec fn data_sync_needed(changed_files: Seq<Seq<char>>, diff: Seq<char>) -> bool {
    &&& exists|i: int|
        0 <= i < changed_files.len() && operational_path(lowercase(#[trigger] changed_files[i]))
    &&& operational_diff(lowercase(diff))
}

fn any_operational_path(changed_files: &Vec<String>) -> (r: bool)
    ensures
        r == exists|i: int|
            0 <= i < changed_files@.len() && operational_path(
                lowercase(#[trigger] views(changed_files@)[i]),
            ),
{
    let ghost all = views(changed_files@);
    let mut i: usize = 0;
    while i < changed_files.len()
        invariant
            i <= changed_files@.len(),
            all == views(changed_files@),
            forall|k: int| 0 <= k < i ==> !operational_path(lowercase(#[trigger] all[k])),
        decreases changed_files@.len() - i,
    {
        let path = to_lowercase(changed_files[i].as_str());
        let path = path.as_str();
        proof {
            assert(all[i as int] == changed_files@[i as int]@);
        }
        if contains(path, "deployment/") || contains(path, "entrypoint") || contains(
            path,
            "management/commands",
        ) || ends_with(path, "services.py") || ends_with(path, "models.py") || contains(
            path,
            "/tasks",
        ) || contains(path, "worker") || contains(path, "sync") {
            return true;
        }
        i += 1;
    }
    false
}

/// Whether a change calls for a look at the integrity of data.
pub fn operational_data_sync_review_needed(changed_files: &Vec<String>, diff: &str) -> (r: bool)
    ensures
        r == data_sync_needed(views(changed_files@), diff@),
{
    proof {
        assert(views(changed_files@).len() == changed_files@.len());
    }
    if !any_operational_path(changed_files) {
        return false;
    }
    let lower = to_lowercase(diff);
    let lower = lower.as_str();
    contains(lower, ".objects.") || contains(lower, "update_or_create") || contains(
        lower,
        "get_or_create",
    ) || contains(lower, "transaction.atomic") || contains(lower, "manage.py") || contains(
        lower,
        "migrate --noinput",
    ) || contains(lower, "gunicorn")
}

// ---------------------------------------------------------------------------
// What holds of it
// ---------------------------------------------------------------------------

/// A finding keeps its angle exactly if the angle was completed; nothing else of it is
/// changed, and none is lost.
pub proof fn law_findings_of_other_angles_lose_their_angle(a: ArtifactView, i: int)
    requires
        0 <= i < a.findings.len(),
    ensures
        recomputed(a).findings.len() == a.findings.len(),
        ({
            let f = recomputed(a).findings[i];
            let known = a.findings[i].angle_id matches Some(id) && exists|k: int|
                0 <= k < a.angle_results.len() && (#[trigger] a.angle_results[k]).id == id;
            &&& f == (FindingView { angle_id: f.angle_id, ..a.findings[i] })
            &&& known ==> f.angle_id == a.findings[i].angle_id
            &&& !known ==> f.angle_id is None
        }),
        recomputed(a).notes == a.notes,
        recomputed(a).models == a.models,
        recomputed(a).angle_errors == a.angle_errors,
        recomputed(a).review_stages == a.review_stages,
{
    let ids = result_ids(a.angle_results);
    if let Some(id) = a.findings[i].angle_id {
        if ids.contains(id) {
            let k = choose|k: int| 0 <= k < ids.len() && ids[k] == id;
            assert(a.angle_results[k].id == id);
        }
        if exists|k: int|
            0 <= k < a.angle_results.len() && (#[trigger] a.angle_results[k]).id == id {
            let k = choose|k: int|
                0 <= k < a.angle_results.len() && (#[trigger] a.angle_results[k]).id == id;
            assert(ids[k] == id);
        }
    }
}

/// A review has a score exactly if no angle failed: that of all its findings. It passes
/// exactly if the score is the target.
pub proof fn law_complete_reviews_have_a_score(a: ArtifactView)
    ensures
        a.angle_errors.len() == 0 ==> recomputed(a).score == Some(score_of(a.findings)),
        a.angle_errors.len() == 0 ==> (recomputed(a).status == ReviewStatus::Passed <==> score_of(
            a.findings,
        ) >= 5),
        a.angle_errors.len() > 0 ==> recomputed(a).score is None && recomputed(a).status
            == ReviewStatus::ReviewError && recomputed(a).verdict
            == "ReviewGate could not complete every enabled review angle."@,
{
    let ids = result_ids(a.angle_results);
    let kept = a.findings.map_values(|f: FindingView| kept_finding(f, ids));
    lemma_scores_without_angles(a.findings, ids);
}

proof fn lemma_scores_without_angles(findings: Seq<FindingView>, ids: Seq<Seq<char>>)
    ensures
        score_of(findings.map_values(|f: FindingView| kept_finding(f, ids))) == score_of(findings),
    decreases findings.len(),
{
    let kept = findings.map_values(|f: FindingView| kept_finding(f, ids));
    if findings.len() > 0 {
        lemma_scores_without_angles(findings.drop_last(), ids);
        assert(kept.drop_last() =~= findings.drop_last().map_values(
            |f: FindingView| kept_finding(f, ids),
        ));
    }
}

/// The identifiers of an angle are those of its findings, in their order.
pub proof fn law_ids_of_an_angle(findings: Seq<FindingView>, next: FindingView, angle_id: Seq<char>)
    ensures
        ids_in_angle(Seq::empty(), angle_id).len() == 0,
        next.angle_id == Some(angle_id) ==> ids_in_angle(findings.push(next), angle_id)
            == ids_in_angle(findings, angle_id).push(next.id),
        next.angle_id != Some(angle_id) ==> ids_in_angle(findings.push(next), angle_id)
            == ids_in_angle(findings, angle_id),
{
    assert(findings.push(next).drop_last() =~= findings);
}

/// An angle is recomputed from its findings alone; its name and its model stay.
pub proof fn law_angles_are_recomputed(result: AngleResultView, findings: Seq<FindingView>)
    ensures
        ({
            let r = recomputed_result(result, findings);
            let own = with_ids(findings, ids_in_angle(findings, result.id));
            &&& r.id == result.id && r.name == result.name && r.model == result.model
            &&& r.finding_ids == ids_in_angle(findings, result.id)
            &&& r.score == score_of(own)
            &&& r.status == ReviewStatus::Passed <==> r.score >= 5
            &&& r.score >= 5 ==> r.verdict == "No validated blockers."@
            &&& r.score < 5 ==> r.verdict == decimal_of(blockers(own))
                + " validated blocker(s) remain."@
            &&& findings.len() == 0 ==> r.score == 5 && r.finding_ids.len() == 0
        }),
{
}

/// The findings with given identifiers, in their order.
pub proof fn law_findings_with_ids(
    findings: Seq<FindingView>,
    next: FindingView,
    ids: Seq<Seq<char>>,
)
    ensures
        with_ids(Seq::empty(), ids).len() == 0,
        ids.contains(next.id) ==> with_ids(findings.push(next), ids) == with_ids(
            findings,
            ids,
        ).push(next),
        !ids.contains(next.id) ==> with_ids(findings.push(next), ids) == with_ids(findings, ids),
{
    assert(findings.push(next).drop_last() =~= findings);
}

/// Every angle that failed is told of, with what went wrong, behind those before it; its
/// stage is marked as failed. Without failures nothing changes.
pub proof fn law_failures_are_told_of(
    a: ArtifactView,
    failed: Seq<FailedAngleView>,
    model: Seq<char>,
    i: int,
)
    ensures
        failed.len() == 0 ==> with_failures(a, failed, model) == a,
        with_failures(a, failed, model).findings == a.findings,
        with_failures(a, failed, model).angle_results == a.angle_results,
        with_failures(a, failed, model).notes == a.notes,
        0 <= i < failed.len() ==> {
            let r = with_failures(a, failed, model);
            let e = r.angle_errors[a.angle_errors.len() + i];
            let s = r.review_stages[a.review_stages.len() + i];
            &&& r.angle_errors.len() == a.angle_errors.len() + failed.len()
            &&& r.review_stages.len() == a.review_stages.len() + failed.len()
            &&& e.angle_id == failed[i].angle.id && e.angle_name == failed[i].angle.name
            &&& e.message == failed[i].message && e.model == model
            &&& failed[i].failure == AngleReviewFailure::Timeout ==> e.kind
                == crate::angles::ReviewErrorKind::Timeout && e.retryable
            &&& failed[i].failure matches AngleReviewFailure::Provider { retryable } ==> e.retryable
                == retryable
            &&& s.name == failed[i].angle.id && s.status == "failed"@ && s.reason
                == failed[i].message && s.model == model
        },
{
}

/// A stage is selected exactly if a changed path asks for it.
pub proof fn law_selected_stages(
    changed_files: Seq<Seq<char>>,
    data_integrity: bool,
    model: Seq<char>,
)
    ensures
        ({
            let stages = selected_stages(changed_files, data_integrity, model);
            let changed = lowercase(joined(changed_files, "\n"@));
            &&& stages.len() > 0 && stages[0].name == "general"@ && stages[0].status == "ran"@
            &&& has_text(changed, "test"@) ==> has_stage(stages, "testability"@)
            &&& has_text(changed, "fixture"@) ==> has_stage(stages, "testability"@)
            &&& has_text(changed, "migration"@) || has_text(changed, "schema"@) ==> has_stage(
                stages,
                "migrations"@,
            )
            &&& data_integrity ==> has_stage(stages, "data_integrity"@)
            &&& has_text(changed, "security"@) || has_text(changed, "auth"@) || has_text(
                changed,
                "token"@,
            ) ==> has_stage(stages, "security"@)
            &&& has_text(changed, "frontend"@) || has_text(changed, ".tsx"@) || has_text(
                changed,
                ".css"@,
            ) ==> has_stage(stages, "frontend"@)
            &&& has_text(changed, "action.yml"@) || has_text(changed, "cargo.toml"@) || has_text(
                changed,
                "api"@,
            ) ==> has_stage(stages, "compatibility"@)
            &&& forall|i: int|
                0 <= i < changed_files.len() && ".md"@.is_suffix_of(
                    lowercase(#[trigger] changed_files[i]),
                ) ==> has_stage(stages, "docs"@)
            &&& forall|k: int| 0 <= k < stages.len() ==> (#[trigger] stages[k]).model == model
            &&& forall|k: int|
                1 <= k < stages.len() ==> (#[trigger] stages[k]).status == "selected"@
        }),
{
    let reasons = stage_reasons(changed_files, data_integrity);
    let rest = stages_for(reasons, model);
    let stages = selected_stages(changed_files, data_integrity, model);
    lemma_stages(reasons, model);
    assert forall|k: int| 0 <= k < reasons.len() && (#[trigger] reasons[k]).0 implies has_stage(
        stages,
        reasons[k].1,
    ) by {
        let j = choose|j: int| 0 <= j < rest.len() && (#[trigger] rest[j]).name == reasons[k].1;
        assert(stages[j + 1] == rest[j]);
    }
    let a = reasons[0];
    let b = reasons[1];
    let c = reasons[2];
    let d = reasons[3];
    let e = reasons[4];
    let f = reasons[5];
    let g = reasons[6];
    assert forall|i: int|
        0 <= i < changed_files.len() && ".md"@.is_suffix_of(
            lowercase(#[trigger] changed_files[i]),
        ) implies has_stage(stages, "docs"@) by {
        assert(documentation_path(lowercase(changed_files[i])));
        assert(touches_documentation(changed_files));
    }
    assert forall|k: int| 1 <= k < stages.len() implies (#[trigger] stages[k]).status
        == "selected"@ && stages[k].model == model by {
        assert(stages[k] == rest[k - 1]);
    }
}

proof fn lemma_stages(reasons: Seq<(bool, Seq<char>, Seq<char>)>, model: Seq<char>)
    ensures
        forall|k: int|
            0 <= k < reasons.len() && (#[trigger] reasons[k]).0 ==> exists|j: int|
                0 <= j < stages_for(reasons, model).len() && (#[trigger] stages_for(
                    reasons,
                    model,
                )[j]).name == reasons[k].1,
        forall|j: int|
            0 <= j < stages_for(reasons, model).len() ==> (#[trigger] stages_for(
                reasons,
                model,
            )[j]).status == "selected"@ && stages_for(reasons, model)[j].model == model,
    decreases reasons.len(),
{
    if reasons.len() > 0 {
        let less = reasons.drop_last();
        lemma_stages(less, model);
        let some = stages_for(less, model);
        let all = stages_for(reasons, model);
        assert forall|k: int| 0 <= k < reasons.len() && (#[trigger] reasons[k]).0 implies exists|
            j: int,
        | 0 <= j < all.len() && (#[trigger] all[j]).name == reasons[k].1 by {
            if k < less.len() {
                assert(less[k] == reasons[k]);
                let j = choose|j: int|
                    0 <= j < some.len() && (#[trigger] some[j]).name == less[k].1;
                assert(all[j] == some[j]);
            } else {
                assert(all[all.len() - 1].name == reasons[k].1);
            }
        }
        assert forall|j: int| 0 <= j < all.len() implies (#[trigger] all[j]).status
            == "selected"@ && all[j].model == model by {
            if j < some.len() {
                assert(all[j] == some[j]);
            }
        }
    }
}

/// Stages that are missing are put behind those that are there, each name once.
pub proof fn law_missing_stages_are_added(stages: Seq<StageView>, candidates: Seq<StageView>)
    ensures
        stages.is_prefix_of(with_missing(stages, candidates)),
        forall|i: int|
            0 <= i < candidates.len() ==> has_stage(
                with_missing(stages, candidates),
                (#[trigger] candidates[i]).name,
            ),
        candidates.len() == 0 ==> with_missing(stages, candidates) == stages,
    decreases candidates.len(),
{
    if candidates.len() > 0 {
        let less = candidates.drop_last();
        law_missing_stages_are_added(stages, less);
        let rest = with_missing(stages, less);
        let all = with_missing(stages, candidates);
        assert(all.take(stages.len() as int) =~= rest.take(stages.len() as int));
        assert forall|i: int| 0 <= i < candidates.len() implies has_stage(
            all,
            (#[trigger] candidates[i]).name,
        ) by {
            if i < less.len() {
                assert(less[i] == candidates[i]);
                let k = choose|k: int|
                    0 <= k < rest.len() && (#[trigger] rest[k]).name == less[i].name;
                assert(all[k] == rest[k]);
            } else if !has_stage(rest, candidates.last().name) {
                assert(all[all.len() - 1].name == candidates[i].name);
            }
        }
    } else {
        assert(stages.take(stages.len() as int) =~= stages);
    }
}

/// A review of data is needed exactly if a path is operational and the diff writes data.
pub proof fn law_data_reviews_are_needed(changed_files: Seq<Seq<char>>, diff: Seq<char>, i: int)
    requires
        0 <= i < changed_files.len(),
    ensures
        ({
            let path = lowercase(changed_files[i]);
            let d = lowercase(diff);
            &&& (has_text(path, "deployment/"@) || has_text(path, "entrypoint"@) || has_text(
                path,
                "management/commands"@,
            ) || "services.py"@.is_suffix_of(path) || "models.py"@.is_suffix_of(path) || has_text(
                path,
                "/tasks"@,
            ) || has_text(path, "worker"@) || has_text(path, "sync"@)) && (has_text(
                d,
                ".objects."@,
            ) || has_text(d, "update_or_create"@) || has_text(d, "get_or_create"@) || has_text(
                d,
                "transaction.atomic"@,
            ) || has_text(d, "manage.py"@) || has_text(d, "migrate --noinput"@) || has_text(
                d,
                "gunicorn"@,
            )) ==> data_sync_needed(changed_files, diff)
        }),
        data_sync_needed(changed_files, diff) ==> exists|k: int|
            0 <= k < changed_files.len() && operational_path(
                lowercase(#[trigger] changed_files[k]),
            ),
        data_sync_needed(Seq::empty(), diff) == false,
{
    if operational_path(lowercase(changed_files[i])) && operational_diff(lowercase(diff)) {
        assert(data_sync_needed(changed_files, diff));
    }
}

} // verus!
