//! How the summary of a review is published: what the review is held against, what is
//! written down, and which comments are written and removed, in this order.
use vstd::prelude::*;

use crate::disposition::{
    agent_disposition_comments, apply_agent_disposition_comments, attested_disposition_comment_ids,
    attested_ids, disposition_views, load_attested_disposition_comment_ids, marked, outcome_count,
    replay_report, report_agent_disposition_replay, AgentDispositionComment, AgentDispositionReplay,
    CommentOutcome, DispositionView,
};
use crate::number::{decimal, decimal_of};
use crate::order::sorted;
use crate::publish::{
    base_reconciled, comment_message, comment_request, history_views, plan_comment_step,
    prepare_summary_publication_artifact, update_views, validate_serialized_disposition_updates,
    HistoryView, SummaryCommentAction, TrackedHistory, UpdateRecord, UpdateView,
};
use crate::pull_request::{collect_convergence_delta, delta_plan, opt_slice, DeltaPlan, DeltaView};
use crate::reading::result_view;
use crate::records::{
    comment_views, delete_issue_comment, fetch_issue_comment_records, issue_comment_endpoint,
    issue_comments_endpoint, status_views, CommentView, CommitStatusRecord, IssueCommentRecord,
    StatusView,
};
use crate::text::{concat3, opt_view, views};

verus! {

/// The pull request that a summary is published on.
#[derive(Debug, PartialEq, Eq)]
pub struct SummaryJob {
    pub repository: String,
    pub pr_number: u64,
}

/// The pull request that a summary is published on.
pub struct SummaryJobView {
    pub repository: Seq<char>,
    pub pr_number: u64,
}

impl View for SummaryJob {
    type V = SummaryJobView;

    open spec fn view(&self) -> SummaryJobView {
        SummaryJobView { repository: self.repository@, pr_number: self.pr_number }
    }
}

/// The heads that earlier reviews were of.
#[derive(Debug, PartialEq, Eq)]
pub struct ReviewedHeads {
    pub last: String,
    /// The last one of a review that was valid.
    pub last_valid: Option<String>,
}

/// The heads that earlier reviews were of.
pub struct HeadsView {
    pub last: Seq<char>,
    pub last_valid: Option<Seq<char>>,
}

impl View for ReviewedHeads {
    type V = HeadsView;

    open spec fn view(&self) -> HeadsView {
        HeadsView { last: self.last@, last_valid: opt_view(self.last_valid) }
    }
}

/// The view of heads that there may be.
pub open spec fn opt_heads(heads: Option<ReviewedHeads>) -> Option<HeadsView> {
    match heads {
        Some(h) => Some(h@),
        None => None,
    }
}

/// What a summary that was published earlier tells.
#[derive(Debug, PartialEq, Eq)]
pub struct EarlierSummary {
    pub heads: ReviewedHeads,
    /// Why it is not of this pull request, where it is not.
    pub scope_error: Option<String>,
}

/// What a summary that was published earlier tells.
pub struct EarlierView {
    pub heads: HeadsView,
    pub scope_error: Option<Seq<char>>,
}

impl View for EarlierSummary {
    type V = EarlierView;

    open spec fn view(&self) -> EarlierView {
        EarlierView { heads: self.heads@, scope_error: opt_view(self.scope_error) }
    }
}

/// The view of an earlier summary that there may be.
pub open spec fn opt_earlier(earlier: Option<EarlierSummary>) -> Option<EarlierView> {
    match earlier {
        Some(e) => Some(e@),
        None => None,
    }
}

/// What a review is compared with.
#[derive(Debug, PartialEq, Eq)]
pub enum Base {
    /// Nothing: it is the first.
    FirstReview,
    /// The last review.
    Earlier { plan: DeltaPlan },
}

/// What a review is compared with.
pub enum BaseView {
    FirstReview,
    Earlier { plan: DeltaView },
}

impl View for Base {
    type V = BaseView;

    open spec fn view(&self) -> BaseView {
        match self {
            Base::FirstReview => BaseView::FirstReview,
            Base::Earlier { plan } => BaseView::Earlier { plan: plan@ },
        }
    }
}

/// How far the publication has come.
#[derive(Debug, PartialEq, Eq)]
pub enum SummaryState {
    ReadingHead,
    ListingComments { head_sha: String },
    ListingStatuses { head_sha: String, comments: Vec<AgentDispositionComment> },
    Replaying { head_sha: String },
    ReadingReview { head_sha: String, heads: Option<ReviewedHeads> },
    Comparing { given: Vec<UpdateRecord>, reconcile: bool },
    Deriving { given: Vec<UpdateRecord>, reconcile: bool },
    WritingReview,
    Commenting { message: String, duplicates: Vec<u64> },
    Deleting { id: u64, duplicates: Vec<u64> },
    Finished,
}

/// How far the publication has come.
pub enum SummaryStateView {
    ReadingHead,
    ListingComments { head_sha: Seq<char> },
    ListingStatuses { head_sha: Seq<char>, comments: Seq<DispositionView> },
    Replaying { head_sha: Seq<char> },
    ReadingReview { head_sha: Seq<char>, heads: Option<HeadsView> },
    Comparing { given: Seq<UpdateView>, reconcile: bool },
    Deriving { given: Seq<UpdateView>, reconcile: bool },
    WritingReview,
    Commenting { message: Seq<char>, duplicates: Seq<u64> },
    Deleting { id: u64, duplicates: Seq<u64> },
    Finished,
}

impl View for SummaryState {
    type V = SummaryStateView;

    open spec fn view(&self) -> SummaryStateView {
        match self {
            SummaryState::ReadingHead => SummaryStateView::ReadingHead,
            SummaryState::ListingComments { head_sha } => SummaryStateView::ListingComments {
                head_sha: head_sha@,
            },
            SummaryState::ListingStatuses { head_sha, comments } =>
                SummaryStateView::ListingStatuses {
                head_sha: head_sha@,
                comments: disposition_views(comments@),
            },
            SummaryState::Replaying { head_sha } => SummaryStateView::Replaying {
                head_sha: head_sha@,
            },
            SummaryState::ReadingReview { head_sha, heads } => SummaryStateView::ReadingReview {
                head_sha: head_sha@,
                heads: opt_heads(*heads),
            },
            SummaryState::Comparing { given, reconcile } => SummaryStateView::Comparing {
                given: update_views(given@),
                reconcile: *reconcile,
            },
            SummaryState::Deriving { given, reconcile } => SummaryStateView::Deriving {
                given: update_views(given@),
                reconcile: *reconcile,
            },
            SummaryState::WritingReview => SummaryStateView::WritingReview,
            SummaryState::Commenting { message, duplicates } => SummaryStateView::Commenting {
                message: message@,
                duplicates: duplicates@,
            },
            SummaryState::Deleting { id, duplicates } => SummaryStateView::Deleting {
                id: *id,
                duplicates: duplicates@,
            },
            SummaryState::Finished => SummaryStateView::Finished,
        }
    }
}

/// What is done next.
#[derive(Debug, PartialEq, Eq)]
pub enum SummaryAction {
    /// Read the head of the pull request.
    ReadHead,
    /// List the comments of the pull request.
    ListComments { endpoint: String },
    /// List the statuses of the head that was reviewed last.
    ListStatuses { endpoint: String },
    /// Apply the dispositions of the comments, of which these are attested.
    Replay { attested: Vec<u64> },
    /// Read the review, prepared for this head.
    ReadReview { head_sha: String },
    /// Find what changed.
    Compare { base: Base },
    /// Derive the dispositions that the evidence of the review gives.
    Derive,
    /// Write the review down, reconciled with the earlier one or as it is, and its summary.
    WriteReview { reconcile: bool },
    /// Write a comment.
    Comment { method: String, endpoint: String, body: String },
    /// Remove a comment.
    Delete { endpoint: String },
    /// The summary is published.
    Done,
    /// The publication failed.
    Fail { error: String },
}

/// What is done next.
pub enum SummaryActionView {
    ReadHead,
    ListComments { endpoint: Seq<char> },
    ListStatuses { endpoint: Seq<char> },
    Replay { attested: Seq<u64> },
    ReadReview { head_sha: Seq<char> },
    Compare { base: BaseView },
    Derive,
    WriteReview { reconcile: bool },
    Comment { method: Seq<char>, endpoint: Seq<char>, body: Seq<char> },
    Delete { endpoint: Seq<char> },
    Done,
    Fail { error: Seq<char> },
}

impl View for SummaryAction {
    type V = SummaryActionView;

    open spec fn view(&self) -> SummaryActionView {
        match self {
            SummaryAction::ReadHead => SummaryActionView::ReadHead,
            SummaryAction::ListComments { endpoint } => SummaryActionView::ListComments {
                endpoint: endpoint@,
            },
            SummaryAction::ListStatuses { endpoint } => SummaryActionView::ListStatuses {
                endpoint: endpoint@,
            },
            SummaryAction::Replay { attested } => SummaryActionView::Replay {
                attested: attested@,
            },
            SummaryAction::ReadReview { head_sha } => SummaryActionView::ReadReview {
                head_sha: head_sha@,
            },
            SummaryAction::Compare { base } => SummaryActionView::Compare { base: base@ },
            SummaryAction::Derive => SummaryActionView::Derive,
            SummaryAction::WriteReview { reconcile } => SummaryActionView::WriteReview {
                reconcile: *reconcile,
            },
            SummaryAction::Comment { method, endpoint, body } => SummaryActionView::Comment {
                method: method@,
                endpoint: endpoint@,
                body: body@,
            },
            SummaryAction::Delete { endpoint } => SummaryActionView::Delete {
                endpoint: endpoint@,
            },
            SummaryAction::Done => SummaryActionView::Done,
            SummaryAction::Fail { error } => SummaryActionView::Fail { error: error@ },
        }
    }
}

/// What came back.
#[derive(Debug, PartialEq, Eq)]
pub enum SummaryEvent {
    /// The head of the pull request.
    Head { head_sha: String },
    /// The comments, and the summary among them, if there is one.
    Comments { records: Vec<IssueCommentRecord>, earlier: Option<EarlierSummary> },
    /// The statuses.
    Statuses { statuses: Vec<CommitStatusRecord> },
    /// What the comments came to, and what the summary tells now.
    Replayed { outcomes: Vec<CommentOutcome>, heads: ReviewedHeads },
    /// The dispositions that the review recorded, and the findings that the earlier summary
    /// and the review track.
    Review { given: Vec<UpdateRecord>, previous: Vec<TrackedHistory>, current: Vec<TrackedHistory> },
    /// What changed was found.
    Compared,
    /// The dispositions that the evidence gives.
    Derived { derived: Vec<UpdateRecord> },
    /// The review is written down. What is to be done about the one summary comment, and
    /// the comments that are too many.
    Written { action: SummaryCommentAction, duplicates: Vec<u64> },
    /// The comment was written.
    Commented,
    /// The comment was removed.
    Deleted,
}

/// What came back.
pub enum SummaryEventView {
    Head { head_sha: Seq<char> },
    Comments { records: Seq<CommentView>, earlier: Option<EarlierView> },
    Statuses { statuses: Seq<StatusView> },
    Replayed { outcomes: Seq<CommentOutcome>, heads: HeadsView },
    Review { given: Seq<UpdateView>, previous: Seq<HistoryView>, current: Seq<HistoryView> },
    Compared,
    Derived { derived: Seq<UpdateView> },
    Written { action: SummaryCommentAction, duplicates: Seq<u64> },
    Commented,
    Deleted,
}

impl View for SummaryEvent {
    type V = SummaryEventView;

    open spec fn view(&self) -> SummaryEventView {
        match self {
            SummaryEvent::Head { head_sha } => SummaryEventView::Head { head_sha: head_sha@ },
            SummaryEvent::Comments { records, earlier } => SummaryEventView::Comments {
                records: comment_views(records@),
                earlier: opt_earlier(*earlier),
            },
            SummaryEvent::Statuses { statuses } => SummaryEventView::Statuses {
                statuses: status_views(statuses@),
            },
            SummaryEvent::Replayed { outcomes, heads } => SummaryEventView::Replayed {
                outcomes: outcomes@,
                heads: heads@,
            },
            SummaryEvent::Review { given, previous, current } => SummaryEventView::Review {
                given: update_views(given@),
                previous: history_views(previous@),
                current: history_views(current@),
            },
            SummaryEvent::Compared => SummaryEventView::Compared,
            SummaryEvent::Derived { derived } => SummaryEventView::Derived {
                derived: update_views(derived@),
            },
            SummaryEvent::Written { action, duplicates } => SummaryEventView::Written {
                action: *action,
                duplicates: duplicates@,
            },
            SummaryEvent::Commented => SummaryEventView::Commented,
            SummaryEvent::Deleted => SummaryEventView::Deleted,
        }
    }
}

/// What may come back in a state.
pub open spec fn summary_answers(state: SummaryStateView, event: SummaryEventView) -> bool {
    match state {
        SummaryStateView::ReadingHead => event is Head,
        SummaryStateView::ListingComments { .. } => event is Comments,
        SummaryStateView::ListingStatuses { .. } => event is Statuses,
        SummaryStateView::Replaying { .. } => event is Replayed,
        SummaryStateView::ReadingReview { .. } => event is Review,
        SummaryStateView::Comparing { .. } => event is Compared,
        SummaryStateView::Deriving { .. } => event is Derived,
        SummaryStateView::WritingReview => event is Written,
        SummaryStateView::Commenting { .. } => event is Commented,
        SummaryStateView::Deleting { .. } => event is Deleted,
        SummaryStateView::Finished => false,
    }
}

/// The state that follows, what is said and what is done.
#[derive(Debug, PartialEq, Eq)]
pub struct SummaryStep {
    pub state: SummaryState,
    pub notices: Vec<String>,
    pub action: SummaryAction,
}

/// The state that follows, what is said and what is done.
#[verifier::ext_equal]
pub struct SummaryStepView {
    pub state: SummaryStateView,
    pub notices: Seq<Seq<char>>,
    pub action: SummaryActionView,
}

impl View for SummaryStep {
    type V = SummaryStepView;

    open spec fn view(&self) -> SummaryStepView {
        SummaryStepView {
            state: self.state@,
            notices: views(self.notices@),
            action: self.action@,
        }
    }
}

// ---------------------------------------------------------------------------
// What follows what
// ---------------------------------------------------------------------------

/// Nothing is said.
pub open spec fn quietly(state: SummaryStateView, action: SummaryActionView) -> SummaryStepView {
    SummaryStepView { state, notices: Seq::empty(), action }
}

/// The publication fails.
pub open spec fn publication_failed(error: Seq<char>) -> SummaryStepView {
    quietly(SummaryStateView::Finished, SummaryActionView::Fail { error })
}

/// The review is read.
pub open spec fn read_review(head_sha: Seq<char>, heads: Option<HeadsView>) -> SummaryStepView {
    quietly(
        SummaryStateView::ReadingReview { head_sha, heads },
        SummaryActionView::ReadReview { head_sha },
    )
}

/// What follows once the comments are known: without an earlier summary there is nothing
/// to apply dispositions to, and without comments that record any there is nothing to apply.
pub open spec fn after_comments(
    job: SummaryJobView,
    head_sha: Seq<char>,
    records: Seq<CommentView>,
    earlier: Option<EarlierView>,
) -> SummaryStepView {
    match earlier {
        None => read_review(head_sha, None),
        Some(earlier) => match earlier.scope_error {
            Some(error) => publication_failed(error),
            None => {
                let comments = sorted(marked(records));
                if comments.len() == 0 {
                    read_review(head_sha, Some(earlier.heads))
                } else {
                    quietly(
                        SummaryStateView::ListingStatuses { head_sha, comments },
                        SummaryActionView::ListStatuses {
                            endpoint: "repos/"@ + job.repository + "/commits/"@
                                + earlier.heads.last + "/statuses?per_page=100"@,
                        },
                    )
                }
            },
        },
    }
}

/// How many comments came to what.
pub open spec fn replay_of(outcomes: Seq<CommentOutcome>) -> AgentDispositionReplay {
    AgentDispositionReplay {
        found: outcomes.len() as usize,
        unauthorized: outcome_count(outcomes, CommentOutcome::Unauthorized) as usize,
        malformed: outcome_count(outcomes, CommentOutcome::Malformed) as usize,
        stale: outcome_count(outcomes, CommentOutcome::Stale) as usize,
        actor_mismatch: outcome_count(outcomes, CommentOutcome::ActorMismatch) as usize,
        invalid: outcome_count(outcomes, CommentOutcome::Invalid) as usize,
        applied: outcome_count(outcomes, CommentOutcome::Applied) as usize,
        duplicate: outcome_count(outcomes, CommentOutcome::Duplicate) as usize,
    }
}

/// What follows once the dispositions are applied.
pub open spec fn after_replay(
    head_sha: Seq<char>,
    outcomes: Seq<CommentOutcome>,
    heads: HeadsView,
) -> SummaryStepView {
    SummaryStepView {
        notices: match replay_report("summary publish"@, replay_of(outcomes)) {
            Some(report) => seq![report],
            None => Seq::empty(),
        },
        ..read_review(head_sha, Some(heads))
    }
}

/// What a review of a head is compared with, or why it cannot be.
pub open spec fn base_of(head_sha: Seq<char>, heads: Option<HeadsView>) -> Result<
    BaseView,
    Seq<char>,
> {
    match heads {
        None => Ok(BaseView::FirstReview),
        Some(heads) => match delta_plan(heads.last_valid, heads.last, head_sha) {
            Ok(plan) => Ok(BaseView::Earlier { plan }),
            Err(error) => Err(error),
        },
    }
}

/// What follows once the review is read.
pub open spec fn after_review(
    head_sha: Seq<char>,
    heads: Option<HeadsView>,
    given: Seq<UpdateView>,
    previous: Seq<HistoryView>,
    current: Seq<HistoryView>,
) -> SummaryStepView {
    match base_of(head_sha, heads) {
        Ok(base) => quietly(
            SummaryStateView::Comparing {
                given,
                reconcile: current.len() == 0 || !base_reconciled(previous, current),
            },
            SummaryActionView::Compare { base },
        ),
        Err(error) => publication_failed(error),
    }
}

/// The review is written down.
pub open spec fn write_review(reconcile: bool) -> SummaryStepView {
    quietly(SummaryStateView::WritingReview, SummaryActionView::WriteReview { reconcile })
}

/// The comments that are too many are removed, one after the other.
pub open spec fn clean_up(
    job: SummaryJobView,
    notice: Seq<char>,
    duplicates: Seq<u64>,
) -> SummaryStepView {
    if duplicates.len() == 0 {
        SummaryStepView {
            state: SummaryStateView::Finished,
            notices: seq![notice],
            action: SummaryActionView::Done,
        }
    } else {
        SummaryStepView {
            state: SummaryStateView::Deleting {
                id: duplicates[0],
                duplicates: duplicates.subrange(1, duplicates.len() as int),
            },
            notices: seq![notice],
            action: SummaryActionView::Delete {
                endpoint: issue_comment_endpoint(job.repository, duplicates[0]),
            },
        }
    }
}

/// What follows once the review is written down.
pub open spec fn after_writing(
    job: SummaryJobView,
    action: SummaryCommentAction,
    duplicates: Seq<u64>,
) -> SummaryStepView {
    match comment_request(action, job.repository, job.pr_number) {
        Some((method, endpoint, body)) => quietly(
            SummaryStateView::Commenting { message: comment_message(action, false), duplicates },
            SummaryActionView::Comment { method, endpoint, body },
        ),
        None => clean_up(job, comment_message(action, false), duplicates),
    }
}

/// What is said of a comment that was removed.
pub open spec fn deletion_notice(id: u64) -> Seq<char> {
    "Deleted duplicate ReviewGate summary comment "@ + decimal_of(id as nat) + "."@
}

/// Dispositions that do not match the evidence.
pub open spec fn mismatched_updates() -> Seq<char> {
    "serialized disposition updates do not match repository-grounded resolution evidence"@
}

/// What follows what came back.
pub open spec fn summary_step(
    job: SummaryJobView,
    state: SummaryStateView,
    event: SummaryEventView,
) -> SummaryStepView {
    match (state, event) {
        (SummaryStateView::ReadingHead, SummaryEventView::Head { head_sha }) => quietly(
            SummaryStateView::ListingComments { head_sha },
            SummaryActionView::ListComments {
                endpoint: issue_comments_endpoint(job.repository, job.pr_number),
            },
        ),
        (
            SummaryStateView::ListingComments { head_sha },
            SummaryEventView::Comments { records, earlier },
        ) => after_comments(job, head_sha, records, earlier),
        (
            SummaryStateView::ListingStatuses { head_sha, comments },
            SummaryEventView::Statuses { statuses },
        ) => quietly(
            SummaryStateView::Replaying { head_sha },
            SummaryActionView::Replay { attested: attested_ids(comments, statuses) },
        ),
        (
            SummaryStateView::Replaying { head_sha },
            SummaryEventView::Replayed { outcomes, heads },
        ) => after_replay(head_sha, outcomes, heads),
        (
            SummaryStateView::ReadingReview { head_sha, heads },
            SummaryEventView::Review { given, previous, current },
        ) => after_review(head_sha, heads, given, previous, current),
        (
            SummaryStateView::Comparing { given, reconcile },
            SummaryEventView::Compared,
        ) => if given.len() == 0 {
            write_review(reconcile)
        } else {
            quietly(SummaryStateView::Deriving { given, reconcile }, SummaryActionView::Derive)
        },
        (
            SummaryStateView::Deriving { given, reconcile },
            SummaryEventView::Derived { derived },
        ) => if given.len() == 0 || given == derived {
            write_review(reconcile)
        } else {
            publication_failed(mismatched_updates())
        },
        (
            SummaryStateView::WritingReview,
            SummaryEventView::Written { action, duplicates },
        ) => after_writing(job, action, duplicates),
        (
            SummaryStateView::Commenting { message, duplicates },
            SummaryEventView::Commented,
        ) => clean_up(job, message, duplicates),
        (
            SummaryStateView::Deleting { id, duplicates },
            SummaryEventView::Deleted,
        ) => clean_up(job, deletion_notice(id), duplicates),
        _ => quietly(SummaryStateView::Finished, SummaryActionView::Done),
    }
}

fn quiet(state: SummaryState, action: SummaryAction) -> (r: SummaryStep)
    ensures
        r@ == quietly(state@, action@),
{
    let r = SummaryStep { state, notices: Vec::new(), action };
    proof {
        assert(views(r.notices@) =~= Seq::empty());
    }
    r
}

fn fail(error: String) -> (r: SummaryStep)
    ensures
        r@ == publication_failed(error@),
{
    quiet(SummaryState::Finished, SummaryAction::Fail { error })
}

fn start_reading(head_sha: String, heads: Option<ReviewedHeads>) -> (r: SummaryStep)
    ensures
        r@ == read_review(head_sha@, opt_heads(heads)),
{
    let wanted = head_sha.clone();
    quiet(
        SummaryState::ReadingReview { head_sha, heads },
        SummaryAction::ReadReview { head_sha: wanted },
    )
}

fn proceed_with_comments(
    job: &SummaryJob,
    head_sha: String,
    records: &Vec<IssueCommentRecord>,
    earlier: Option<EarlierSummary>,
) -> (r: SummaryStep)
    ensures
        r@ == after_comments(job@, head_sha@, comment_views(records@), opt_earlier(earlier)),
{
    match earlier {
        None => start_reading(head_sha, None),
        Some(earlier) => match earlier.scope_error {
            Some(error) => fail(error),
            None => {
                let comments = agent_disposition_comments(records);
                proof {
                    assert(disposition_views(comments@).len() == comments@.len());
                }
                match load_attested_disposition_comment_ids(
                    job.repository.as_str(),
                    earlier.heads.last.as_str(),
                    &comments,
                ) {
                    None => start_reading(head_sha, Some(earlier.heads)),
                    Some(endpoint) => quiet(
                        SummaryState::ListingStatuses { head_sha, comments },
                        SummaryAction::ListStatuses { endpoint },
                    ),
                }
            },
        },
    }
}

fn proceed_with_replay(
    head_sha: String,
    outcomes: &Vec<CommentOutcome>,
    heads: ReviewedHeads,
) -> (r: SummaryStep)
    ensures
        r@ == after_replay(head_sha@, outcomes@, heads@),
{
    let replay = apply_agent_disposition_comments(outcomes);
    proof {
        assert(replay == replay_of(outcomes@));
    }
    let report = report_agent_disposition_replay("summary publish", replay);
    let mut step = start_reading(head_sha, Some(heads));
    if let Some(report) = report {
        let ghost said = report@;
        step.notices.push(report);
        proof {
            assert(views(step.notices@) =~= seq![said]);
        }
    }
    step
}

fn find_base(head_sha: &str, heads: &Option<ReviewedHeads>) -> (r: Result<Base, String>)
    ensures
        result_view(r) == base_of(head_sha@, opt_heads(*heads)),
{
    match heads {
        None => Ok(Base::FirstReview),
        Some(heads) => {
            let last_valid = match &heads.last_valid {
                Some(sha) => Some(sha.as_str()),
                None => None,
            };
            proof {
                assert(opt_slice(last_valid) == opt_view(heads.last_valid));
            }
            match collect_convergence_delta(last_valid, heads.last.as_str(), head_sha) {
                Ok(plan) => Ok(Base::Earlier { plan }),
                Err(error) => Err(error),
            }
        },
    }
}

fn remove_next(job: &SummaryJob, notice: String, duplicates: Vec<u64>) -> (r: SummaryStep)
    ensures
        r@ == clean_up(job@, notice@, duplicates@),
{
    let ghost all = duplicates@;
    let ghost said = notice@;
    let mut notices: Vec<String> = Vec::new();
    notices.push(notice);
    proof {
        assert(views(notices@) =~= seq![said]);
    }
    let mut duplicates = duplicates;
    if duplicates.len() == 0 {
        return SummaryStep { state: SummaryState::Finished, notices, action: SummaryAction::Done };
    }
    let id: u64 = duplicates.remove(0);
    proof {
        assert(duplicates@ =~= all.subrange(1, all.len() as int));
    }
    let endpoint = delete_issue_comment(job.repository.as_str(), id);
    SummaryStep {
        state: SummaryState::Deleting { id, duplicates },
        notices,
        action: SummaryAction::Delete { endpoint },
    }
}

fn proceed_with_writing(
    job: &SummaryJob,
    action: SummaryCommentAction,
    duplicates: Vec<u64>,
) -> (r: SummaryStep)
    ensures
        r@ == after_writing(job@, action, duplicates@),
{
    let step = plan_comment_step(action, false, job.repository.as_str(), job.pr_number);
    match step.request {
        Some((method, endpoint, body)) => quiet(
            SummaryState::Commenting { message: step.message, duplicates },
            SummaryAction::Comment { method, endpoint, body },
        ),
        None => remove_next(job, step.message, duplicates),
    }
}

/// How the publication begins.
pub fn begin_summary() -> (r: SummaryStep)
    ensures
        r@ == quietly(SummaryStateView::ReadingHead, SummaryActionView::ReadHead),
{
    quiet(SummaryState::ReadingHead, SummaryAction::ReadHead)
}

/// What follows what came back.
pub fn publish_summary(job: &SummaryJob, state: SummaryState, event: SummaryEvent) -> (r:
    SummaryStep)
    requires
        summary_answers(state@, event@),
    ensures
        r@ == summary_step(job@, state@, event@),
{
    match (state, event) {
        (SummaryState::ReadingHead, SummaryEvent::Head { head_sha }) => {
            let endpoint = fetch_issue_comment_records(job.repository.as_str(), job.pr_number);
            quiet(
                SummaryState::ListingComments { head_sha },
                SummaryAction::ListComments { endpoint },
            )
        },
        (
            SummaryState::ListingComments { head_sha },
            SummaryEvent::Comments { records, earlier },
        ) => proceed_with_comments(job, head_sha, &records, earlier),
        (
            SummaryState::ListingStatuses { head_sha, comments },
            SummaryEvent::Statuses { statuses },
        ) => {
            let attested = attested_disposition_comment_ids(&comments, &statuses);
            quiet(SummaryState::Replaying { head_sha }, SummaryAction::Replay { attested })
        },
        (SummaryState::Replaying { head_sha }, SummaryEvent::Replayed { outcomes, heads }) => {
            proceed_with_replay(head_sha, &outcomes, heads)
        },
        (
            SummaryState::ReadingReview { head_sha, heads },
            SummaryEvent::Review { given, previous, current },
        ) => match find_base(head_sha.as_str(), &heads) {
            Ok(base) => {
                let reconcile = prepare_summary_publication_artifact(&previous, &current);
                proof {
                    assert(history_views(current@).len() == current@.len());
                }
                quiet(
                    SummaryState::Comparing { given, reconcile },
                    SummaryAction::Compare { base },
                )
            },
            Err(error) => fail(error),
        },
        (SummaryState::Comparing { given, reconcile }, SummaryEvent::Compared) => {
            proof {
                assert(update_views(given@).len() == given@.len());
            }
            if given.len() == 0 {
                quiet(SummaryState::WritingReview, SummaryAction::WriteReview { reconcile })
            } else {
                quiet(SummaryState::Deriving { given, reconcile }, SummaryAction::Derive)
            }
        },
        (SummaryState::Deriving { given, reconcile }, SummaryEvent::Derived { derived }) => {
            proof {
                assert(update_views(given@).len() == given@.len());
            }
            match validate_serialized_disposition_updates(&given, &derived) {
                Ok(_) => quiet(
                    SummaryState::WritingReview,
                    SummaryAction::WriteReview { reconcile },
                ),
                Err(error) => fail(error),
            }
        },
        (SummaryState::WritingReview, SummaryEvent::Written { action, duplicates }) => {
            proceed_with_writing(job, action, duplicates)
        },
        (SummaryState::Commenting { message, duplicates }, SummaryEvent::Commented) => {
            remove_next(job, message, duplicates)
        },
        (SummaryState::Deleting { id, duplicates }, SummaryEvent::Deleted) => {
            let number = decimal(id);
            let notice = concat3(
                "Deleted duplicate ReviewGate summary comment ",
                number.as_str(),
                ".",
            );
            remove_next(job, notice, duplicates)
        },
        _ => quiet(SummaryState::Finished, SummaryAction::Done),
    }
}

// ---------------------------------------------------------------------------
// Laws
// ---------------------------------------------------------------------------

/// How far the publication is from its end: the stage, and the comments that are left.
pub open spec fn summary_rank(state: SummaryStateView) -> (nat, nat) {
    match state {
        SummaryStateView::ReadingHead => (9, 0),
        SummaryStateView::ListingComments { .. } => (8, 0),
        SummaryStateView::ListingStatuses { .. } => (7, 0),
        SummaryStateView::Replaying { .. } => (6, 0),
        SummaryStateView::ReadingReview { .. } => (5, 0),
        SummaryStateView::Comparing { .. } => (4, 0),
        SummaryStateView::Deriving { .. } => (3, 0),
        SummaryStateView::WritingReview => (2, 1),
        SummaryStateView::Commenting { .. } => (2, 0),
        SummaryStateView::Deleting { duplicates, .. } => (1, duplicates.len()),
        SummaryStateView::Finished => (0, 0),
    }
}

/// A publication comes to an end: with every answer it gets to a later stage, or a comment
/// less is left.
pub proof fn law_publications_end(
    job: SummaryJobView,
    state: SummaryStateView,
    event: SummaryEventView,
)
    requires
        summary_answers(state, event),
    ensures
        ({
            let before = summary_rank(state);
            let after = summary_rank(summary_step(job, state, event).state);
            after.0 < before.0 || after.0 == before.0 && after.1 < before.1
        }),
        ({
            let step = summary_step(job, state, event);
            step.state is Finished <==> step.action is Done || step.action is Fail
        }),
{
}

/// The action changes what is on GitHub.
pub open spec fn changes_comments(action: SummaryActionView) -> bool {
    action is Comment || action is Delete
}

/// Comments are changed only once the review is written down. The summary comment goes
/// first, and a comment that is too many is removed only once the summary stands.
pub proof fn law_comments_follow_the_review(
    job: SummaryJobView,
    state: SummaryStateView,
    event: SummaryEventView,
)
    requires
        summary_answers(state, event),
    ensures
        changes_comments(summary_step(job, state, event).action) ==> state is WritingReview
            || state is Commenting || state is Deleting,
        summary_step(job, state, event).action is Comment ==> state is WritingReview,
        summary_step(job, state, event).action is Delete ==> state is Commenting
            || state is Deleting || (event matches SummaryEventView::Written { action, .. }
            && action is Noop),
{
}

/// A review is written down only if its dispositions are those that its evidence gives, or
/// it recorded none; and it is left as it is only if it tracks everything that the earlier
/// summary did.
pub proof fn law_written_reviews_are_grounded(
    job: SummaryJobView,
    state: SummaryStateView,
    event: SummaryEventView,
)
    requires
        summary_answers(state, event),
    ensures
        summary_step(job, state, event).action matches SummaryActionView::WriteReview {
            reconcile,
        } ==> {
            ||| state == (SummaryStateView::Comparing { given: Seq::empty(), reconcile })
            ||| exists|given: Seq<UpdateView>|
                state == (SummaryStateView::Deriving { given, reconcile }) && event == (
                SummaryEventView::Derived { derived: given })
            ||| state == (SummaryStateView::Deriving { given: Seq::empty(), reconcile })
        },
        summary_step(job, state, event).state matches SummaryStateView::Comparing {
            given,
            reconcile,
        } ==> (event matches SummaryEventView::Review { given: recorded, previous, current }
            && recorded == given && (!reconcile ==> current.len() > 0 && base_reconciled(
            previous,
            current,
        ))),
{
    match (state, event) {
        (SummaryStateView::Comparing { given, reconcile }, _) => {
            if given.len() == 0 {
                assert(given =~= Seq::empty());
            }
        },
        (SummaryStateView::Deriving { given, reconcile }, _) => {
            if given.len() == 0 {
                assert(given =~= Seq::empty());
            }
        },
        _ => {},
    }
}

/// Dispositions are replayed only for a summary of this pull request, and only attested
/// comments count: each is attested by a status of the head that was reviewed last.
pub proof fn law_replays_are_of_attested_comments(
    job: SummaryJobView,
    state: SummaryStateView,
    event: SummaryEventView,
)
    requires
        summary_answers(state, event),
    ensures
        summary_step(job, state, event).action matches SummaryActionView::Replay { attested }
            ==> (state matches SummaryStateView::ListingStatuses { comments, .. } && (
        event matches SummaryEventView::Statuses { statuses } && attested == attested_ids(
            comments,
            statuses,
        ))),
        summary_step(job, state, event).state matches SummaryStateView::ListingStatuses {
            comments,
            ..
        } ==> (event matches SummaryEventView::Comments { records, earlier: Some(earlier) }
            && earlier.scope_error is None && comments == sorted(marked(records))),
{
}

// ---------------------------------------------------------------------------
// What holds of it
// ---------------------------------------------------------------------------

/// A review goes on without dispositions where there is no earlier summary or no comment
/// with one; an earlier summary of another pull request fails the publication.
pub proof fn law_earlier_summaries_are_considered(
    job: SummaryJobView,
    head_sha: Seq<char>,
    records: Seq<CommentView>,
    earlier: EarlierView,
)
    ensures
        after_comments(job, head_sha, records, None).state == (SummaryStateView::ReadingReview {
            head_sha,
            heads: None,
        }),
        earlier.scope_error matches Some(error) ==> after_comments(
            job,
            head_sha,
            records,
            Some(earlier),
        ).action == (SummaryActionView::Fail { error }),
        earlier.scope_error is None && marked(records).len() == 0 ==> after_comments(
            job,
            head_sha,
            records,
            Some(earlier),
        ).state == (SummaryStateView::ReadingReview { head_sha, heads: Some(earlier.heads) }),
        earlier.scope_error is None && marked(records).len() > 0 ==> (after_comments(
            job,
            head_sha,
            records,
            Some(earlier),
        ).action matches SummaryActionView::ListStatuses { endpoint } && endpoint == "repos/"@
            + job.repository + "/commits/"@ + earlier.heads.last + "/statuses?per_page=100"@),
{
    let found = marked(records);
    crate::order::law_sorted_keeps_items(found);
    found.to_multiset_ensures();
    sorted(found).to_multiset_ensures();
}

/// What the comments came to is counted, kind by kind.
pub proof fn law_replays_count_the_outcomes(outcomes: Seq<CommentOutcome>)
    requires
        outcomes.len() <= usize::MAX,
    ensures
        replay_of(outcomes).found == outcomes.len(),
        replay_of(outcomes).applied == outcome_count(outcomes, CommentOutcome::Applied),
        replay_of(outcomes).stale == outcome_count(outcomes, CommentOutcome::Stale),
        replay_of(outcomes).invalid == outcome_count(outcomes, CommentOutcome::Invalid),
        replay_of(outcomes).malformed == outcome_count(outcomes, CommentOutcome::Malformed),
        replay_of(outcomes).duplicate == outcome_count(outcomes, CommentOutcome::Duplicate),
        replay_of(outcomes).unauthorized == outcome_count(outcomes, CommentOutcome::Unauthorized),
        replay_of(outcomes).actor_mismatch == outcome_count(
            outcomes,
            CommentOutcome::ActorMismatch,
        ),
{
    lemma_counts_fit(outcomes, CommentOutcome::Applied);
    lemma_counts_fit(outcomes, CommentOutcome::Stale);
    lemma_counts_fit(outcomes, CommentOutcome::Invalid);
    lemma_counts_fit(outcomes, CommentOutcome::Malformed);
    lemma_counts_fit(outcomes, CommentOutcome::Duplicate);
    lemma_counts_fit(outcomes, CommentOutcome::Unauthorized);
    lemma_counts_fit(outcomes, CommentOutcome::ActorMismatch);
}

proof fn lemma_counts_fit(outcomes: Seq<CommentOutcome>, kind: CommentOutcome)
    ensures
        outcome_count(outcomes, kind) <= outcomes.len(),
    decreases outcomes.len(),
{
    if outcomes.len() > 0 {
        lemma_counts_fit(outcomes.drop_last(), kind);
    }
}

/// A review is held against the last one, if there is one, by the heads that it told after
/// the comments were applied.
pub proof fn law_reviews_are_held_against_the_last(
    job: SummaryJobView,
    head_sha: Seq<char>,
    outcomes: Seq<CommentOutcome>,
    heads: HeadsView,
    given: Seq<UpdateView>,
    previous: Seq<HistoryView>,
    current: Seq<HistoryView>,
)
    ensures
        summary_step(
            job,
            SummaryStateView::Replaying { head_sha },
            SummaryEventView::Replayed { outcomes, heads },
        ).state == (SummaryStateView::ReadingReview { head_sha, heads: Some(heads) }),
        after_review(head_sha, None, given, previous, current).action == (
        SummaryActionView::Compare { base: BaseView::FirstReview }),
        after_review(head_sha, Some(heads), given, previous, current).action
            matches SummaryActionView::Compare { base } ==> base is Earlier,
        current.len() == 0 ==> (after_review(head_sha, None, given, previous, current).state
            == (SummaryStateView::Comparing { given, reconcile: true })),
        current.len() > 0 ==> after_review(head_sha, None, given, previous, current).state == (
        SummaryStateView::Comparing { given, reconcile: !base_reconciled(previous, current) }),
{
}

/// Dispositions that a review recorded are published only if the evidence gives the same
/// ones; a review without any needs no evidence.
pub proof fn law_recorded_dispositions_are_derived(
    job: SummaryJobView,
    given: Seq<UpdateView>,
    derived: Seq<UpdateView>,
    reconcile: bool,
)
    ensures
        given.len() == 0 ==> summary_step(
            job,
            SummaryStateView::Comparing { given, reconcile },
            SummaryEventView::Compared,
        ).action == (SummaryActionView::WriteReview { reconcile }),
        given.len() > 0 ==> summary_step(
            job,
            SummaryStateView::Comparing { given, reconcile },
            SummaryEventView::Compared,
        ).state == (SummaryStateView::Deriving { given, reconcile }),
        given == derived ==> summary_step(
            job,
            SummaryStateView::Deriving { given, reconcile },
            SummaryEventView::Derived { derived },
        ).action == (SummaryActionView::WriteReview { reconcile }),
        given.len() > 0 && given != derived ==> summary_step(
            job,
            SummaryStateView::Deriving { given, reconcile },
            SummaryEventView::Derived { derived },
        ).action is Fail,
{
}

/// Comments that are too many are removed one after the other, and every one of them is.
pub proof fn law_duplicates_are_removed_in_turn(
    job: SummaryJobView,
    notice: Seq<char>,
    duplicates: Seq<u64>,
)
    ensures
        duplicates.len() == 0 ==> clean_up(job, notice, duplicates).action is Done,
        duplicates.len() > 0 ==> (clean_up(
            job,
            notice,
            duplicates,
        ).action matches SummaryActionView::Delete { endpoint } && decimal_of(
            duplicates[0] as nat,
        ).is_suffix_of(endpoint)),
        duplicates.len() > 0 ==> (clean_up(
            job,
            notice,
            duplicates,
        ).state matches SummaryStateView::Deleting { id, duplicates: rest } && id == duplicates[0]
            && rest.len() == duplicates.len() - 1 && forall|i: int|
            0 <= i < rest.len() ==> #[trigger] rest[i] == duplicates[i + 1]),
        clean_up(job, notice, duplicates).notices == seq![notice],
{
    if duplicates.len() > 0 {
        let endpoint = issue_comment_endpoint(job.repository, duplicates[0]);
        let digits = decimal_of(duplicates[0] as nat);
        assert(endpoint.subrange(endpoint.len() - digits.len(), endpoint.len() as int) =~= digits);
    }
}

/// A removal is told with the number of the comment.
pub proof fn law_removals_are_told(id: u64)
    ensures
        crate::text::has_text(deletion_notice(id), decimal_of(id as nat)),
{
    let head = "Deleted duplicate ReviewGate summary comment "@;
    let digits = decimal_of(id as nat);
    let notice = deletion_notice(id);
    assert(notice.subrange(head.len() as int, (head.len() + digits.len()) as int) =~= digits);
    assert(crate::text::occurs_at(notice, digits, head.len() as int));
}

/// A summary is written exactly if there is something to write, and its comments are cleaned
/// up in any case.
pub proof fn law_summaries_are_written_if_they_changed(
    job: SummaryJobView,
    action: SummaryCommentAction,
    duplicates: Seq<u64>,
)
    ensures
        after_writing(job, action, duplicates).action is Comment <==> !(action is Noop),
        after_writing(job, action, duplicates).state matches SummaryStateView::Commenting {
            duplicates: left,
            ..
        } ==> left == duplicates,
        action is Noop && duplicates.len() == 0 ==> after_writing(
            job,
            action,
            duplicates,
        ).action is Done,
{
}

} // verus!
