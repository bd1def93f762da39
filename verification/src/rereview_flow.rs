//! How a rereview request is carried out, from one answer of GitHub to the next.
use vstd::prelude::*;

use crate::json::{Json, JsonView};
use crate::rereview::{
    current_body, event_decision, failure_body, parse_rereview_request, pending_body, queued_body,
    render_current_body, render_pending_body, render_queued_body, render_rereview_failure_body,
    DecisionView, OutcomeView, RequestView, RereviewEventDecision, RereviewFailureReason,
    RereviewIgnoreReason, RereviewOutcome, RereviewRequest, RereviewTarget, TargetView,
};
use crate::status::ReviewStatus;
use crate::text::{opt_view, same_text};
use crate::workflow::{
    completed_runs_endpoint, is_workflow_identifier, workflow_identifier, workflow_runs_endpoint,
};

verus! {

/// A request with the repository and the workflow that it is about.
#[derive(Debug, PartialEq, Eq)]
pub struct RereviewJob {
    pub request: RereviewRequest,
    pub repository: String,
    pub workflow: String,
}

/// A request with the repository and the workflow that it is about.
pub struct JobView {
    pub request: RequestView,
    pub repository: Seq<char>,
    pub workflow: Seq<char>,
}

impl View for RereviewJob {
    type V = JobView;

    open spec fn view(&self) -> JobView {
        JobView {
            request: self.request@,
            repository: self.repository@,
            workflow: self.workflow@,
        }
    }
}

/// Where a request stands: what GitHub was asked last.
#[derive(Debug, PartialEq, Eq)]
pub enum RereviewState {
    CheckingPermission { job: RereviewJob },
    CheckingComments { job: RereviewJob },
    Reserving { job: RereviewJob },
    FetchingTarget { job: RereviewJob, status_comment_id: u64 },
    CheckingReview { job: RereviewJob, status_comment_id: u64, target: RereviewTarget },
    FetchingRuns { job: RereviewJob, status_comment_id: u64, target: RereviewTarget },
    Rerunning {
        job: RereviewJob,
        status_comment_id: u64,
        target: RereviewTarget,
        run_id: u64,
        run_url: String,
    },
    Finished,
}

/// Where a request stands.
pub enum StateView {
    CheckingPermission { job: JobView },
    CheckingComments { job: JobView },
    Reserving { job: JobView },
    FetchingTarget { job: JobView, status_comment_id: u64 },
    CheckingReview { job: JobView, status_comment_id: u64, target: TargetView },
    FetchingRuns { job: JobView, status_comment_id: u64, target: TargetView },
    Rerunning {
        job: JobView,
        status_comment_id: u64,
        target: TargetView,
        run_id: u64,
        run_url: Seq<char>,
    },
    Finished,
}

impl View for RereviewState {
    type V = StateView;

    open spec fn view(&self) -> StateView {
        match self {
            RereviewState::CheckingPermission { job } => StateView::CheckingPermission {
                job: job@,
            },
            RereviewState::CheckingComments { job } => StateView::CheckingComments { job: job@ },
            RereviewState::Reserving { job } => StateView::Reserving { job: job@ },
            RereviewState::FetchingTarget { job, status_comment_id } => StateView::FetchingTarget {
                job: job@,
                status_comment_id: *status_comment_id,
            },
            RereviewState::CheckingReview { job, status_comment_id, target } =>
                StateView::CheckingReview {
                job: job@,
                status_comment_id: *status_comment_id,
                target: target@,
            },
            RereviewState::FetchingRuns { job, status_comment_id, target } =>
                StateView::FetchingRuns {
                job: job@,
                status_comment_id: *status_comment_id,
                target: target@,
            },
            RereviewState::Rerunning { job, status_comment_id, target, run_id, run_url } =>
                StateView::Rerunning {
                job: job@,
                status_comment_id: *status_comment_id,
                target: target@,
                run_id: *run_id,
                run_url: run_url@,
            },
            RereviewState::Finished => StateView::Finished,
        }
    }
}

/// What is to be done next.
#[derive(Debug, PartialEq, Eq)]
pub enum RereviewAction {
    /// Ask whether the author of the comment may write.
    CheckPermission,
    /// List the comments of the pull request.
    ListComments,
    /// React to the comment, and create a comment with this body.
    Reserve { body: String },
    /// Ask for the pull request.
    FetchTarget,
    /// See whether the comments hold a completed review of the target.
    CheckReview,
    /// List the runs at this endpoint.
    ListRuns { endpoint: String },
    /// Ask for a rerun.
    Rerun { run_id: u64 },
    /// Give the comment with this id this body, where there is one, and report.
    Finish { feedback: Option<(u64, String)>, outcome: RereviewOutcome },
}

/// What is to be done next.
pub enum ActionView {
    CheckPermission,
    ListComments,
    Reserve { body: Seq<char> },
    FetchTarget,
    CheckReview,
    ListRuns { endpoint: Seq<char> },
    Rerun { run_id: u64 },
    Finish { feedback: Option<(u64, Seq<char>)>, outcome: OutcomeView },
}

/// The view of feedback.
pub open spec fn feedback_view(f: Option<(u64, String)>) -> Option<(u64, Seq<char>)> {
    match f {
        Some((id, body)) => Some((id, body@)),
        None => None,
    }
}

impl View for RereviewAction {
    type V = ActionView;

    open spec fn view(&self) -> ActionView {
        match self {
            RereviewAction::CheckPermission => ActionView::CheckPermission,
            RereviewAction::ListComments => ActionView::ListComments,
            RereviewAction::Reserve { body } => ActionView::Reserve { body: body@ },
            RereviewAction::FetchTarget => ActionView::FetchTarget,
            RereviewAction::CheckReview => ActionView::CheckReview,
            RereviewAction::ListRuns { endpoint } => ActionView::ListRuns { endpoint: endpoint@ },
            RereviewAction::Rerun { run_id } => ActionView::Rerun { run_id: *run_id },
            RereviewAction::Finish { feedback, outcome } => ActionView::Finish {
                feedback: feedback_view(*feedback),
                outcome: outcome@,
            },
        }
    }
}

/// What GitHub answered. `None` stands for a request that failed.
#[derive(Debug, PartialEq, Eq)]
pub enum RereviewEvent {
    /// Whether the author may write.
    Permission(Option<bool>),
    /// The comment on this request that exists already, if one does.
    Comments(Option<Option<u64>>),
    /// The comment that was created.
    Reserved(Option<u64>),
    /// The head of the pull request.
    Target(Option<RereviewTarget>),
    /// Whether the head has a completed review.
    Reviewed(bool),
    /// The run to be run again, if one is eligible.
    Runs(Option<Option<(u64, String)>>),
    /// Whether the rerun was accepted.
    Rerun(bool),
}

/// What GitHub answered.
pub enum EventView {
    Permission(Option<bool>),
    Comments(Option<Option<u64>>),
    Reserved(Option<u64>),
    Target(Option<TargetView>),
    Reviewed(bool),
    Runs(Option<Option<(u64, Seq<char>)>>),
    Rerun(bool),
}

/// The view of a run that may have been found.
pub open spec fn found_run_view(run: Option<Option<(u64, String)>>) -> Option<
    Option<(u64, Seq<char>)>,
> {
    match run {
        Some(Some((id, url))) => Some(Some((id, url@))),
        Some(None) => Some(None),
        None => None,
    }
}

/// The view of a target that may have been found.
pub open spec fn found_target_view(target: Option<RereviewTarget>) -> Option<TargetView> {
    match target {
        Some(t) => Some(t@),
        None => None,
    }
}

impl View for RereviewEvent {
    type V = EventView;

    open spec fn view(&self) -> EventView {
        match self {
            RereviewEvent::Permission(p) => EventView::Permission(*p),
            RereviewEvent::Comments(c) => EventView::Comments(*c),
            RereviewEvent::Reserved(r) => EventView::Reserved(*r),
            RereviewEvent::Target(t) => EventView::Target(found_target_view(*t)),
            RereviewEvent::Reviewed(b) => EventView::Reviewed(*b),
            RereviewEvent::Runs(r) => EventView::Runs(found_run_view(*r)),
            RereviewEvent::Rerun(b) => EventView::Rerun(*b),
        }
    }
}

/// The answer is to what was asked.
pub open spec fn answers(state: StateView, event: EventView) -> bool {
    match state {
        StateView::CheckingPermission { .. } => event is Permission,
        StateView::CheckingComments { .. } => event is Comments,
        StateView::Reserving { .. } => event is Reserved,
        StateView::FetchingTarget { .. } => event is Target,
        StateView::CheckingReview { .. } => event is Reviewed,
        StateView::FetchingRuns { .. } => event is Runs,
        StateView::Rerunning { .. } => event is Rerun,
        StateView::Finished => false,
    }
}

/// The request ends without feedback.
pub open spec fn ended(outcome: OutcomeView) -> (StateView, ActionView) {
    (StateView::Finished, ActionView::Finish { feedback: None, outcome })
}

/// The request ends with a failure that the reserved comment tells.
pub open spec fn failed_with_feedback(
    job: JobView,
    status_comment_id: u64,
    reason: RereviewFailureReason,
) -> (StateView, ActionView) {
    (
        StateView::Finished,
        ActionView::Finish {
            feedback: Some(
                (
                    status_comment_id,
                    failure_body(
                        job.request.comment_id,
                        job.request.pull_request_number,
                        reason,
                    ),
                ),
            ),
            outcome: OutcomeView::Failed(reason),
        },
    )
}

/// What a request starts with: an event that asks for none is ignored, and without a
/// token, a repository and a workflow nothing is asked of GitHub.
pub open spec fn begin_view(
    event_name: Seq<char>,
    event: JsonView,
    token_available: bool,
    repository: Option<Seq<char>>,
    workflow: Seq<char>,
) -> (StateView, ActionView) {
    match event_decision(event_name, event) {
        DecisionView::Ignore(reason) => ended(OutcomeView::Ignored(reason)),
        DecisionView::Trigger(request) => if !token_available {
            ended(OutcomeView::Failed(RereviewFailureReason::MissingToken))
        } else {
            match repository {
                None => ended(
                    OutcomeView::Failed(RereviewFailureReason::InvalidRepositoryContext),
                ),
                Some(repository) => if !workflow_identifier(workflow) {
                    ended(OutcomeView::Failed(RereviewFailureReason::InvalidWorkflow))
                } else {
                    (
                        StateView::CheckingPermission {
                            job: JobView { request, repository, workflow },
                        },
                        ActionView::CheckPermission,
                    )
                },
            }
        },
    }
}

/// What follows an answer.
pub open spec fn step_view(state: StateView, event: EventView) -> (StateView, ActionView) {
    match (state, event) {
        (StateView::CheckingPermission { job }, EventView::Permission(p)) => match p {
            None => ended(OutcomeView::Failed(RereviewFailureReason::AuthorizationCheckFailed)),
            Some(false) => ended(OutcomeView::Ignored(RereviewIgnoreReason::UnauthorizedActor)),
            Some(true) => (StateView::CheckingComments { job }, ActionView::ListComments),
        },
        (StateView::CheckingComments { job }, EventView::Comments(c)) => match c {
            None => ended(OutcomeView::Failed(RereviewFailureReason::CommentDiscoveryFailed)),
            Some(Some(existing)) => ended(
                OutcomeView::Duplicate {
                    pull_request: job.request.pull_request_number,
                    source_comment_id: job.request.comment_id,
                    status_comment_id: existing,
                },
            ),
            Some(None) => (
                StateView::Reserving { job },
                ActionView::Reserve { body: pending_body(job.request) },
            ),
        },
        (StateView::Reserving { job }, EventView::Reserved(r)) => match r {
            None => ended(OutcomeView::Failed(RereviewFailureReason::ReservationFailed)),
            Some(status_comment_id) => (
                StateView::FetchingTarget { job, status_comment_id },
                ActionView::FetchTarget,
            ),
        },
        (StateView::FetchingTarget { job, status_comment_id }, EventView::Target(t)) => match t {
            None => failed_with_feedback(
                job,
                status_comment_id,
                RereviewFailureReason::TargetValidationFailed,
            ),
            Some(target) => (
                StateView::CheckingReview { job, status_comment_id, target },
                ActionView::CheckReview,
            ),
        },
        (
            StateView::CheckingReview { job, status_comment_id, target },
            EventView::Reviewed(reviewed),
        ) => if reviewed {
            (
                StateView::Finished,
                ActionView::Finish {
                    feedback: Some(
                        (status_comment_id, current_body(job.request, target.head_sha)),
                    ),
                    outcome: OutcomeView::Current {
                        pull_request: job.request.pull_request_number,
                        reviewed_sha: target.head_sha,
                    },
                },
            )
        } else {
            (
                StateView::FetchingRuns { job, status_comment_id, target },
                ActionView::ListRuns {
                    endpoint: completed_runs_endpoint(
                        job.repository,
                        job.workflow,
                        target.head_sha,
                    ),
                },
            )
        },
        (
            StateView::FetchingRuns { job, status_comment_id, target },
            EventView::Runs(runs),
        ) => match runs {
            None => failed_with_feedback(
                job,
                status_comment_id,
                RereviewFailureReason::DiscoveryFailed,
            ),
            Some(None) => failed_with_feedback(
                job,
                status_comment_id,
                RereviewFailureReason::NoEligibleRun,
            ),
            Some(Some((run_id, run_url))) => (
                StateView::Rerunning { job, status_comment_id, target, run_id, run_url },
                ActionView::Rerun { run_id },
            ),
        },
        (
            StateView::Rerunning { job, status_comment_id, target, run_id, run_url },
            EventView::Rerun(accepted),
        ) => if accepted {
            (
                StateView::Finished,
                ActionView::Finish {
                    feedback: Some(
                        (
                            status_comment_id,
                            queued_body(job.request.comment_id, target, run_url),
                        ),
                    ),
                    outcome: OutcomeView::Queued {
                        pull_request: target.pull_request_number,
                        head_sha: target.head_sha,
                        run_id,
                        run_url,
                        source_comment_id: job.request.comment_id,
                    },
                },
            )
        } else {
            failed_with_feedback(job, status_comment_id, RereviewFailureReason::RerunFailed)
        },
        _ => (state, ActionView::CheckPermission),
    }
}

fn fail_with_feedback(
    job: &RereviewJob,
    status_comment_id: u64,
    reason: RereviewFailureReason,
) -> (r: (RereviewState, RereviewAction))
    ensures
        (r.0@, r.1@) == failed_with_feedback(job@, status_comment_id, reason),
{
    let body = render_rereview_failure_body(
        job.request.comment_id,
        job.request.pull_request_number,
        reason,
    );
    (
        RereviewState::Finished,
        RereviewAction::Finish {
            feedback: Some((status_comment_id, body)),
            outcome: RereviewOutcome::Failed(reason),
        },
    )
}

fn end(outcome: RereviewOutcome) -> (r: (RereviewState, RereviewAction))
    ensures
        (r.0@, r.1@) == ended(outcome@),
{
    (RereviewState::Finished, RereviewAction::Finish { feedback: None, outcome })
}

/// What a request starts with.
pub fn begin_rereview(
    event_name: &str,
    event: &Json,
    token_available: bool,
    repository: Option<String>,
    workflow: &str,
) -> (r: (RereviewState, RereviewAction))
    ensures
        (r.0@, r.1@) == begin_view(
            event_name@,
            event@,
            token_available,
            opt_view(repository),
            workflow@,
        ),
{
    let request = match parse_rereview_request(event_name, event) {
        RereviewEventDecision::Trigger(request) => request,
        RereviewEventDecision::Ignore(reason) => {
            return end(RereviewOutcome::Ignored(reason));
        },
    };
    if !token_available {
        return end(RereviewOutcome::Failed(RereviewFailureReason::MissingToken));
    }
    match repository {
        None => end(RereviewOutcome::Failed(RereviewFailureReason::InvalidRepositoryContext)),
        Some(repository) => {
            if !is_workflow_identifier(workflow) {
                return end(RereviewOutcome::Failed(RereviewFailureReason::InvalidWorkflow));
            }
            let job = RereviewJob { request, repository, workflow: workflow.to_owned() };
            (RereviewState::CheckingPermission { job }, RereviewAction::CheckPermission)
        },
    }
}

/// What follows an answer.
pub fn request_rereview(state: RereviewState, event: RereviewEvent) -> (r: (
    RereviewState,
    RereviewAction,
))
    requires
        answers(state@, event@),
    ensures
        (r.0@, r.1@) == step_view(state@, event@),
{
    match (state, event) {
        (RereviewState::CheckingPermission { job }, RereviewEvent::Permission(p)) => match p {
            None => end(RereviewOutcome::Failed(RereviewFailureReason::AuthorizationCheckFailed)),
            Some(may_write) => if may_write {
                (RereviewState::CheckingComments { job }, RereviewAction::ListComments)
            } else {
                end(RereviewOutcome::Ignored(RereviewIgnoreReason::UnauthorizedActor))
            },
        },
        (RereviewState::CheckingComments { job }, RereviewEvent::Comments(c)) => match c {
            None => end(RereviewOutcome::Failed(RereviewFailureReason::CommentDiscoveryFailed)),
            Some(Some(existing)) => end(
                RereviewOutcome::Duplicate {
                    pull_request: job.request.pull_request_number,
                    source_comment_id: job.request.comment_id,
                    status_comment_id: existing,
                },
            ),
            Some(None) => {
                let body = render_pending_body(&job.request);
                (RereviewState::Reserving { job }, RereviewAction::Reserve { body })
            },
        },
        (RereviewState::Reserving { job }, RereviewEvent::Reserved(created)) => match created {
            None => end(RereviewOutcome::Failed(RereviewFailureReason::ReservationFailed)),
            Some(status_comment_id) => (
                RereviewState::FetchingTarget { job, status_comment_id },
                RereviewAction::FetchTarget,
            ),
        },
        (
            RereviewState::FetchingTarget { job, status_comment_id },
            RereviewEvent::Target(found),
        ) => match found {
            None => fail_with_feedback(
                &job,
                status_comment_id,
                RereviewFailureReason::TargetValidationFailed,
            ),
            Some(target) => (
                RereviewState::CheckingReview { job, status_comment_id, target },
                RereviewAction::CheckReview,
            ),
        },
        (
            RereviewState::CheckingReview { job, status_comment_id, target },
            RereviewEvent::Reviewed(reviewed),
        ) => if reviewed {
            let body = render_current_body(&job.request, target.head_sha.as_str());
            (
                RereviewState::Finished,
                RereviewAction::Finish {
                    feedback: Some((status_comment_id, body)),
                    outcome: RereviewOutcome::Current {
                        pull_request: job.request.pull_request_number,
                        reviewed_sha: target.head_sha,
                    },
                },
            )
        } else {
            let endpoint = workflow_runs_endpoint(
                job.repository.as_str(),
                job.workflow.as_str(),
                target.head_sha.as_str(),
            );
            (
                RereviewState::FetchingRuns { job, status_comment_id, target },
                RereviewAction::ListRuns { endpoint },
            )
        },
        (
            RereviewState::FetchingRuns { job, status_comment_id, target },
            RereviewEvent::Runs(runs),
        ) => match runs {
            None => fail_with_feedback(
                &job,
                status_comment_id,
                RereviewFailureReason::DiscoveryFailed,
            ),
            Some(None) => fail_with_feedback(
                &job,
                status_comment_id,
                RereviewFailureReason::NoEligibleRun,
            ),
            Some(Some((run_id, run_url))) => (
                RereviewState::Rerunning { job, status_comment_id, target, run_id, run_url },
                RereviewAction::Rerun { run_id },
            ),
        },
        (
            RereviewState::Rerunning { job, status_comment_id, target, run_id, run_url },
            RereviewEvent::Rerun(accepted),
        ) => if accepted {
            let body = render_queued_body(job.request.comment_id, &target, run_url.as_str());
            (
                RereviewState::Finished,
                RereviewAction::Finish {
                    feedback: Some((status_comment_id, body)),
                    outcome: RereviewOutcome::Queued {
                        pull_request: target.pull_request_number,
                        head_sha: target.head_sha,
                        run_id,
                        run_url,
                        source_comment_id: job.request.comment_id,
                    },
                },
            )
        } else {
            fail_with_feedback(&job, status_comment_id, RereviewFailureReason::RerunFailed)
        },
        (state, _) => (state, RereviewAction::CheckPermission),
    }
}

// ---------------------------------------------------------------------------
// What holds of every request
// ---------------------------------------------------------------------------

/// The action changes something on GitHub.
pub open spec fn changes_github(action: ActionView) -> bool {
    match action {
        ActionView::Reserve { .. } => true,
        ActionView::Rerun { .. } => true,
        ActionView::Finish { feedback, .. } => feedback is Some,
        _ => false,
    }
}

/// How far a request has come.
pub open spec fn progress_of(state: StateView) -> nat {
    match state {
        StateView::CheckingPermission { .. } => 0,
        StateView::CheckingComments { .. } => 1,
        StateView::Reserving { .. } => 2,
        StateView::FetchingTarget { .. } => 3,
        StateView::CheckingReview { .. } => 4,
        StateView::FetchingRuns { .. } => 5,
        StateView::Rerunning { .. } => 6,
        StateView::Finished => 7,
    }
}

/// The states and actions of a request that gets these answers, one after the other.
pub open spec fn after(state: StateView, events: Seq<EventView>) -> (StateView, Seq<ActionView>)
    decreases events.len(),
{
    if events.len() == 0 {
        (state, Seq::empty())
    } else {
        let (before, actions) = after(state, events.drop_last());
        let (now, action) = step_view(before, events.last());
        (now, actions.push(action))
    }
}

/// Each answer is to what was asked.
pub open spec fn answered_in_turn(state: StateView, events: Seq<EventView>) -> bool
    decreases events.len(),
{
    events.len() == 0 || (answered_in_turn(state, events.drop_last()) && answers(
        after(state, events.drop_last()).0,
        events.last(),
    ))
}

/// How many of the actions ask for a rerun.
pub open spec fn reruns(actions: Seq<ActionView>) -> nat
    decreases actions.len(),
{
    if actions.len() == 0 {
        0
    } else {
        reruns(actions.drop_last()) + if actions.last() is Rerun {
            1nat
        } else {
            0nat
        }
    }
}

/// A request comes further with every answer, so it ends after at most seven.
pub proof fn law_requests_end(state: StateView, event: EventView)
    requires
        answers(state, event),
    ensures
        progress_of(step_view(state, event).0) > progress_of(state),
        step_view(state, event).1 is Finish <==> step_view(state, event).0 is Finished,
{
}

/// Nothing is changed on GitHub, and nothing is asked of it but the permission, for an
/// event that asks for no rereview, without a token, repository or workflow.
pub proof fn law_beginning_changes_nothing(
    event_name: Seq<char>,
    event: JsonView,
    token_available: bool,
    repository: Option<Seq<char>>,
    workflow: Seq<char>,
)
    ensures
        ({
            let (state, action) = begin_view(
                event_name,
                event,
                token_available,
                repository,
                workflow,
            );
            &&& !changes_github(action)
            &&& action is CheckPermission ==> event_decision(event_name, event) is Trigger
                && token_available && repository is Some && workflow_identifier(workflow)
            &&& action is CheckPermission || action is Finish
        }),
{
}

/// Nothing is changed on GitHub before the author is known to have write access and the
/// comment is known not to have been answered: whatever else is answered, the request
/// then ends, and nothing was changed.
pub proof fn law_no_change_without_permission(job: JobView, p: Option<bool>, c: Option<Option<u64>>)
    ensures
        ({
            let asked = StateView::CheckingPermission { job };
            let (state, action) = step_view(asked, EventView::Permission(p));
            &&& !changes_github(action)
            &&& p != Some(true) ==> state is Finished
            &&& p == Some(true) ==> {
                let (next, second) = step_view(state, EventView::Comments(c));
                c != Some(None::<u64>) ==> next is Finished && !changes_github(second)
            }
        }),
{
}

/// A request asks for at most one rerun, whatever it is answered.
pub proof fn law_at_most_one_rerun(job: JobView, events: Seq<EventView>)
    requires
        answered_in_turn(StateView::CheckingPermission { job }, events),
    ensures
        reruns(after(StateView::CheckingPermission { job }, events).1) <= 1,
        reruns(after(StateView::CheckingPermission { job }, events).1) == 1
            ==> progress_of(after(StateView::CheckingPermission { job }, events).0) >= 6,
    decreases events.len(),
{
    let start = StateView::CheckingPermission { job };
    if events.len() > 0 {
        law_at_most_one_rerun(job, events.drop_last());
        let (before, actions) = after(start, events.drop_last());
        let (now, action) = step_view(before, events.last());
        assert(actions.push(action).drop_last() =~= actions);
    }
}

/// A rerun is asked for only of a run that was found for the target, of which the head has
/// no completed review, and under a comment that was reserved.
pub proof fn law_reruns_are_of_found_runs(state: StateView, event: EventView)
    requires
        answers(state, event),
        step_view(state, event).1 is Rerun,
    ensures
        state is FetchingRuns,
        event matches EventView::Runs(Some(Some(run))) && step_view(state, event).1
            == (ActionView::Rerun { run_id: run.0 }),
{
}

// ---------------------------------------------------------------------------
// Reviews that are complete
// ---------------------------------------------------------------------------

/// What the summary comment of a pull request tells of earlier reviews.
#[derive(Debug, PartialEq, Eq)]
pub struct SummaryFacts {
    /// The summary is of this repository and pull request.
    pub scope_is_valid: bool,
    pub last_reviewed_sha: String,
    pub last_valid_reviewed_sha: Option<String>,
    pub last_valid_status: Option<ReviewStatus>,
}

/// What the summary comment of a pull request tells of earlier reviews.
pub struct FactsView {
    pub scope_is_valid: bool,
    pub last_reviewed_sha: Seq<char>,
    pub last_valid_reviewed_sha: Option<Seq<char>>,
    pub last_valid_status: Option<ReviewStatus>,
}

impl View for SummaryFacts {
    type V = FactsView;

    open spec fn view(&self) -> FactsView {
        FactsView {
            scope_is_valid: self.scope_is_valid,
            last_reviewed_sha: self.last_reviewed_sha@,
            last_valid_reviewed_sha: opt_view(self.last_valid_reviewed_sha),
            last_valid_status: self.last_valid_status,
        }
    }
}

/// The summary holds a completed review of this head.
pub open spec fn completed_at(facts: Option<FactsView>, head_sha: Seq<char>) -> bool {
    match facts {
        Some(f) => f.scope_is_valid && f.last_reviewed_sha == head_sha
            && f.last_valid_reviewed_sha == Some(head_sha) && (f.last_valid_status == Some(
            ReviewStatus::Passed,
        ) || f.last_valid_status == Some(ReviewStatus::NeedsChanges)),
        None => false,
    }
}

/// The view of facts that may be known.
pub open spec fn opt_facts_view(facts: Option<SummaryFacts>) -> Option<FactsView> {
    match facts {
        Some(f) => Some(f@),
        None => None,
    }
}

/// Whether the summary holds a completed review of the head of the target.
pub fn current_head_has_completed_review(
    summary: &Option<SummaryFacts>,
    target: &RereviewTarget,
) -> (r: bool)
    ensures
        r == completed_at(opt_facts_view(*summary), target@.head_sha),
{
    match summary {
        Some(f) => {
            let valid_sha = match &f.last_valid_reviewed_sha {
                Some(sha) => same_text(sha.as_str(), target.head_sha.as_str()),
                None => false,
            };
            let complete = match f.last_valid_status {
                Some(ReviewStatus::Passed) => true,
                Some(ReviewStatus::NeedsChanges) => true,
                _ => false,
            };
            f.scope_is_valid && same_text(
                f.last_reviewed_sha.as_str(),
                target.head_sha.as_str(),
            ) && valid_sha && complete
        },
        None => false,
    }
}

// ---------------------------------------------------------------------------
// What holds of it
// ---------------------------------------------------------------------------

/// A request goes ahead exactly if the event asks for it, there is a token, the repository
/// is known and the workflow is named plainly; the first of these that is missing is told.
pub proof fn law_requests_begin(
    event_name: Seq<char>,
    event: JsonView,
    token_available: bool,
    repository: Option<Seq<char>>,
    workflow: Seq<char>,
)
    ensures
        ({
            let (state, action) = begin_view(
                event_name,
                event,
                token_available,
                repository,
                workflow,
            );
            match event_decision(event_name, event) {
                DecisionView::Ignore(reason) => action == (ActionView::Finish {
                    feedback: None,
                    outcome: OutcomeView::Ignored(reason),
                }),
                DecisionView::Trigger(request) => {
                    &&& action is CheckPermission <==> token_available && repository is Some
                        && workflow_identifier(workflow)
                    &&& action is CheckPermission ==> state == (StateView::CheckingPermission {
                        job: JobView { request, repository: repository->0, workflow },
                    })
                    &&& !token_available ==> action == (ActionView::Finish {
                        feedback: None,
                        outcome: OutcomeView::Failed(RereviewFailureReason::MissingToken),
                    })
                    &&& token_available && repository is None ==> action == (ActionView::Finish {
                        feedback: None,
                        outcome: OutcomeView::Failed(
                            RereviewFailureReason::InvalidRepositoryContext,
                        ),
                    })
                    &&& token_available && repository is Some && !workflow_identifier(workflow)
                        ==> action == (ActionView::Finish {
                        feedback: None,
                        outcome: OutcomeView::Failed(RereviewFailureReason::InvalidWorkflow),
                    })
                },
            }
        }),
{
}

/// A request by an actor who may write, for which no comment was answered yet, is reserved;
/// a request that was answered already is a duplicate.
pub proof fn law_permitted_requests_are_reserved(job: JobView, existing: u64)
    ensures
        step_view(
            StateView::CheckingPermission { job },
            EventView::Permission(Some(true)),
        ).0 == (StateView::CheckingComments { job }),
        step_view(StateView::CheckingPermission { job }, EventView::Permission(Some(false))).1 == (
        ActionView::Finish {
            feedback: None,
            outcome: OutcomeView::Ignored(RereviewIgnoreReason::UnauthorizedActor),
        }),
        step_view(StateView::CheckingPermission { job }, EventView::Permission(None)).1 == (
        ActionView::Finish {
            feedback: None,
            outcome: OutcomeView::Failed(RereviewFailureReason::AuthorizationCheckFailed),
        }),
        step_view(
            StateView::CheckingComments { job },
            EventView::Comments(Some(None::<u64>)),
        ).0 == (StateView::Reserving { job }),
        step_view(
            StateView::CheckingComments { job },
            EventView::Comments(Some(Some(existing))),
        ).1 == (ActionView::Finish {
            feedback: None,
            outcome: OutcomeView::Duplicate {
                pull_request: job.request.pull_request_number,
                source_comment_id: job.request.comment_id,
                status_comment_id: existing,
            },
        }),
        step_view(
            StateView::CheckingComments { job },
            EventView::Comments(None::<Option<u64>>),
        ).1 == (ActionView::Finish {
            feedback: None,
            outcome: OutcomeView::Failed(RereviewFailureReason::CommentDiscoveryFailed),
        }),
        step_view(StateView::Reserving { job }, EventView::Reserved(None)).1 == (
        ActionView::Finish {
            feedback: None,
            outcome: OutcomeView::Failed(RereviewFailureReason::ReservationFailed),
        }),
        step_view(StateView::Reserving { job }, EventView::Reserved(Some(existing))).0 == (
        StateView::FetchingTarget { job, status_comment_id: existing }),
{
}

/// Every request that was reserved is answered in its comment, whatever comes of it, and the
/// answer goes with the outcome.
pub proof fn law_reserved_requests_are_answered(state: StateView, event: EventView)
    requires
        answers(state, event),
    ensures
        ({
            let action = step_view(state, event).1;
            &&& state matches StateView::FetchingTarget { status_comment_id, .. } ==> (
            action matches ActionView::Finish { feedback, .. } ==> (feedback matches Some(f) && f.0
                == status_comment_id))
            &&& state matches StateView::CheckingReview { status_comment_id, .. } ==> (
            action matches ActionView::Finish { feedback, .. } ==> (feedback matches Some(f) && f.0
                == status_comment_id))
            &&& state matches StateView::FetchingRuns { status_comment_id, .. } ==> (
            action matches ActionView::Finish { feedback, .. } ==> (feedback matches Some(f) && f.0
                == status_comment_id))
            &&& state matches StateView::Rerunning { status_comment_id, .. } ==> (
            action matches ActionView::Finish { feedback, .. } && (feedback matches Some(f) && f.0
                == status_comment_id))
        }),
{
}

/// A head that was reviewed already is not reviewed again; for any other the runs are
/// looked for, and the first that is found is run again.
pub proof fn law_reviewed_heads_are_current(
    job: JobView,
    status_comment_id: u64,
    target: TargetView,
    run_id: u64,
    run_url: Seq<char>,
)
    ensures
        step_view(
            StateView::FetchingTarget { job, status_comment_id },
            EventView::Target(Some(target)),
        ).0 == (StateView::CheckingReview { job, status_comment_id, target }),
        step_view(
            StateView::FetchingTarget { job, status_comment_id },
            EventView::Target(None),
        ).1 matches ActionView::Finish { outcome, .. } && outcome == (OutcomeView::Failed(
            RereviewFailureReason::TargetValidationFailed,
        )),
        step_view(
            StateView::CheckingReview { job, status_comment_id, target },
            EventView::Reviewed(true),
        ).1 matches ActionView::Finish { outcome, .. } && outcome == (OutcomeView::Current {
            pull_request: job.request.pull_request_number,
            reviewed_sha: target.head_sha,
        }),
        step_view(
            StateView::CheckingReview { job, status_comment_id, target },
            EventView::Reviewed(false),
        ).0 == (StateView::FetchingRuns { job, status_comment_id, target }),
        step_view(
            StateView::FetchingRuns { job, status_comment_id, target },
            EventView::Runs(Some(Some((run_id, run_url)))),
        ) == (
            StateView::Rerunning { job, status_comment_id, target, run_id, run_url },
            ActionView::Rerun { run_id },
        ),
        step_view(
            StateView::FetchingRuns { job, status_comment_id, target },
            EventView::Runs(Some(None::<(u64, Seq<char>)>)),
        ).1 matches ActionView::Finish { outcome, .. } && outcome == (OutcomeView::Failed(
            RereviewFailureReason::NoEligibleRun,
        )),
        step_view(
            StateView::FetchingRuns { job, status_comment_id, target },
            EventView::Runs(None::<Option<(u64, Seq<char>)>>),
        ).1 matches ActionView::Finish { outcome, .. } && outcome == (OutcomeView::Failed(
            RereviewFailureReason::DiscoveryFailed,
        )),
{
}

/// A run that was accepted is queued, for the head and the pull request of the target.
pub proof fn law_accepted_runs_are_queued(
    job: JobView,
    status_comment_id: u64,
    target: TargetView,
    run_id: u64,
    run_url: Seq<char>,
)
    ensures
        step_view(
            StateView::Rerunning { job, status_comment_id, target, run_id, run_url },
            EventView::Rerun(true),
        ).1 matches ActionView::Finish { outcome, .. } && outcome == (OutcomeView::Queued {
            pull_request: target.pull_request_number,
            head_sha: target.head_sha,
            run_id,
            run_url,
            source_comment_id: job.request.comment_id,
        }),
        step_view(
            StateView::Rerunning { job, status_comment_id, target, run_id, run_url },
            EventView::Rerun(false),
        ).1 matches ActionView::Finish { outcome, .. } && outcome == (OutcomeView::Failed(
            RereviewFailureReason::RerunFailed,
        )),
{
}

/// A head has a complete review exactly if the summary is of this pull request, its last
/// review is of this head and valid, and passed or asked for changes.
pub proof fn law_complete_reviews(facts: FactsView, head_sha: Seq<char>)
    ensures
        !completed_at(None, head_sha),
        completed_at(Some(facts), head_sha) ==> facts.scope_is_valid && facts.last_reviewed_sha
            == head_sha && facts.last_valid_reviewed_sha == Some(head_sha)
            && facts.last_valid_status != Some(ReviewStatus::ReviewError)
            && facts.last_valid_status is Some,
        facts.scope_is_valid && facts.last_reviewed_sha == head_sha
            && facts.last_valid_reviewed_sha == Some(head_sha) && facts.last_valid_status == Some(
            ReviewStatus::NeedsChanges,
        ) ==> completed_at(Some(facts), head_sha),
        facts.scope_is_valid && facts.last_reviewed_sha == head_sha
            && facts.last_valid_reviewed_sha == Some(head_sha) && facts.last_valid_status == Some(
            ReviewStatus::Passed,
        ) ==> completed_at(Some(facts), head_sha),
{
}

} // verus!
