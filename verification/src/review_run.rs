//! How the review of a pull request is started, joined and waited for.
use vstd::prelude::*;

use crate::agent_result::ensure_pull_request_head;
use crate::json::{json_document, json_view, parse_json, Json, JsonView};
use crate::number::{decimal, decimal_of};
use crate::text::{concat2, concat3, same_text, views};
use crate::workflow::{
    completed_runs_endpoint, current_runs_endpoint, current_workflow_runs_endpoint,
    fetch_workflow_run_state, mismatch_text, rerun_workflow, run_endpoint, run_matches, run_start,
    start_selected_run, wait_for_workflow_attempt, wait_view, workflow_runs_endpoint,
    ReviewRunStart, RunStateView, WaitStep, WaitView, WorkflowRunState,
};

verus! {

/// The pull request that is reviewed.
#[derive(Debug, PartialEq, Eq)]
pub struct CliPullRequestTarget {
    pub pull_request_number: u64,
    pub url: String,
}

/// The pull request that is reviewed.
pub struct CliTargetView {
    pub pull_request_number: u64,
    pub url: Seq<char>,
}

impl View for CliPullRequestTarget {
    type V = CliTargetView;

    open spec fn view(&self) -> CliTargetView {
        CliTargetView { pull_request_number: self.pull_request_number, url: self.url@ }
    }
}

/// The pull request that a reply names.
pub open spec fn pull_request_in(reply: JsonView) -> Result<CliTargetView, Seq<char>> {
    match reply.get("number"@) {
        Some(JsonView::Number(Some(number))) => Ok(
            CliTargetView {
                pull_request_number: number,
                url: match reply.get("url"@) {
                    Some(JsonView::Text(url)) => url,
                    _ => Seq::empty(),
                },
            },
        ),
        _ => Err("gh pr view did not return PR number"@),
    }
}

/// A pull request or what is wrong.
pub open spec fn target_result(r: Result<CliPullRequestTarget, String>) -> Result<
    CliTargetView,
    Seq<char>,
> {
    match r {
        Ok(target) => Ok(target@),
        Err(e) => Err(e@),
    }
}

/// The pull request that a reply names.
pub fn viewed_pull_request(reply: &Json) -> (r: Result<CliPullRequestTarget, String>)
    ensures
        target_result(r) == pull_request_in(json_view(*reply)),
{
    let number = match reply.get("number") {
        Some(number) => number.as_u64(),
        None => None,
    };
    let url = match reply.get("url") {
        Some(url) => url.as_str(),
        None => None,
    };
    match number {
        Some(pull_request_number) => {
            let url = match url {
                Some(url) => url.to_owned(),
                None => String::new(),
            };
            Ok(CliPullRequestTarget { pull_request_number, url })
        },
        None => Err("gh pr view did not return PR number".to_owned()),
    }
}

/// The pull request that a reply names, from the text of the reply.
pub fn resolve_cli_pull_request(raw: &str) -> (r: Result<CliPullRequestTarget, String>)
    ensures
        target_result(r) == match json_document(raw@) {
            Some(reply) => pull_request_in(reply),
            None => Err("failed to parse gh pr view output"@),
        },
{
    match parse_json(raw) {
        Some(reply) => viewed_pull_request(&reply),
        None => Err("failed to parse gh pr view output".to_owned()),
    }
}

// ---------------------------------------------------------------------------
// Jobs
// ---------------------------------------------------------------------------

/// What a run is started for.
#[derive(Debug, Clone, Copy, PartialEq, Eq, Structural)]
pub enum ReviewMode {
    /// A completed run is run again.
    Recheck,
    /// A completed run is run again, or an active one is joined.
    Start,
    /// The same, and its result is waited for.
    Wait { timeout: u64, poll_interval: u64 },
}

/// The review that is started.
#[derive(Debug, PartialEq, Eq)]
pub struct ReviewJob {
    pub repository: String,
    pub pull_request: CliPullRequestTarget,
    pub head_sha: String,
    pub workflow_id: u64,
    pub mode: ReviewMode,
}

/// The review that is started.
pub struct ReviewJobView {
    pub repository: Seq<char>,
    pub pull_request: CliTargetView,
    pub head_sha: Seq<char>,
    pub workflow_id: u64,
    pub mode: ReviewMode,
}

impl View for ReviewJob {
    type V = ReviewJobView;

    open spec fn view(&self) -> ReviewJobView {
        ReviewJobView {
            repository: self.repository@,
            pull_request: self.pull_request@,
            head_sha: self.head_sha@,
            workflow_id: self.workflow_id,
            mode: self.mode,
        }
    }
}

/// Where the review is.
#[derive(Debug, PartialEq, Eq)]
pub enum ReviewState {
    /// The runs are listed.
    Listing,
    /// Some time passes before the runs are listed again.
    Resting,
    /// The run that was found is looked at.
    ReadingRun { run_id: u64, run_url: String },
    /// The run is started again.
    Rerunning { run_id: u64, run_url: String, attempt: u64 },
    /// The run is looked at while it is waited for; the waiting began at this time, and
    /// may last so long.
    Waiting { run_id: u64, attempt: u64, began: u64, limit: u64 },
    /// Some time passes before the run is looked at again.
    Pausing { run_id: u64, attempt: u64, began: u64, limit: u64 },
    /// The result is downloaded.
    Downloading,
    /// The head is read before the threads are reconciled.
    CheckingHead,
    /// The threads are reconciled.
    Reconciling,
    /// The head is read after the threads were reconciled.
    CheckingHeadAgain,
    /// The review is over.
    Finished,
}

/// Where the review is.
pub enum ReviewStateView {
    Listing,
    Resting,
    ReadingRun { run_id: u64, run_url: Seq<char> },
    Rerunning { run_id: u64, run_url: Seq<char>, attempt: u64 },
    Waiting { run_id: u64, attempt: u64, began: u64, limit: u64 },
    Pausing { run_id: u64, attempt: u64, began: u64, limit: u64 },
    Downloading,
    CheckingHead,
    Reconciling,
    CheckingHeadAgain,
    Finished,
}

impl View for ReviewState {
    type V = ReviewStateView;

    open spec fn view(&self) -> ReviewStateView {
        match self {
            ReviewState::Listing => ReviewStateView::Listing,
            ReviewState::Resting => ReviewStateView::Resting,
            ReviewState::ReadingRun { run_id, run_url } => ReviewStateView::ReadingRun {
                run_id: *run_id,
                run_url: run_url@,
            },
            ReviewState::Rerunning { run_id, run_url, attempt } => ReviewStateView::Rerunning {
                run_id: *run_id,
                run_url: run_url@,
                attempt: *attempt,
            },
            ReviewState::Waiting { run_id, attempt, began, limit } => ReviewStateView::Waiting {
                run_id: *run_id,
                attempt: *attempt,
                began: *began,
                limit: *limit,
            },
            ReviewState::Pausing { run_id, attempt, began, limit } => ReviewStateView::Pausing {
                run_id: *run_id,
                attempt: *attempt,
                began: *began,
                limit: *limit,
            },
            ReviewState::Downloading => ReviewStateView::Downloading,
            ReviewState::CheckingHead => ReviewStateView::CheckingHead,
            ReviewState::Reconciling => ReviewStateView::Reconciling,
            ReviewState::CheckingHeadAgain => ReviewStateView::CheckingHeadAgain,
            ReviewState::Finished => ReviewStateView::Finished,
        }
    }
}

/// What is done next.
#[derive(Debug, PartialEq, Eq)]
pub enum ReviewAction {
    /// List the runs.
    ListRuns { endpoint: String },
    /// Look at the run.
    ReadRun { endpoint: String },
    /// Start the run again.
    Rerun { endpoint: String },
    /// Let so many nanoseconds pass.
    Sleep { nanos: u64 },
    /// Download the result of this attempt.
    Download { run_id: u64, attempt: u64 },
    /// Read the head of the pull request.
    ReadHead,
    /// Reconcile the threads with the result.
    Reconcile,
    /// The run is under way, and nothing more is waited for.
    Leave,
    /// Print the result.
    Report,
    /// Fail because there is no run.
    NoRun,
    /// Fail.
    Fail { error: String },
}

/// What is done next.
pub enum ReviewActionView {
    ListRuns { endpoint: Seq<char> },
    ReadRun { endpoint: Seq<char> },
    Rerun { endpoint: Seq<char> },
    Sleep { nanos: u64 },
    Download { run_id: u64, attempt: u64 },
    ReadHead,
    Reconcile,
    Leave,
    Report,
    NoRun,
    Fail { error: Seq<char> },
}

impl View for ReviewAction {
    type V = ReviewActionView;

    open spec fn view(&self) -> ReviewActionView {
        match self {
            ReviewAction::ListRuns { endpoint } => ReviewActionView::ListRuns {
                endpoint: endpoint@,
            },
            ReviewAction::ReadRun { endpoint } => ReviewActionView::ReadRun {
                endpoint: endpoint@,
            },
            ReviewAction::Rerun { endpoint } => ReviewActionView::Rerun { endpoint: endpoint@ },
            ReviewAction::Sleep { nanos } => ReviewActionView::Sleep { nanos: *nanos },
            ReviewAction::Download { run_id, attempt } => ReviewActionView::Download {
                run_id: *run_id,
                attempt: *attempt,
            },
            ReviewAction::ReadHead => ReviewActionView::ReadHead,
            ReviewAction::Reconcile => ReviewActionView::Reconcile,
            ReviewAction::Leave => ReviewActionView::Leave,
            ReviewAction::Report => ReviewActionView::Report,
            ReviewAction::NoRun => ReviewActionView::NoRun,
            ReviewAction::Fail { error } => ReviewActionView::Fail { error: error@ },
        }
    }
}

/// What came back. Where the time matters, the nanoseconds since the review began.
#[derive(Debug, PartialEq, Eq)]
pub enum ReviewEvent {
    /// The number and the address of the run that is eligible, if there is one.
    Runs { run: Option<(u64, String)>, elapsed: u64 },
    /// The time has passed.
    Slept,
    /// The state of the run.
    Run { state: WorkflowRunState, elapsed: u64 },
    /// The run was started again.
    Rerun { elapsed: u64 },
    /// The result was downloaded.
    Downloaded,
    /// The head of the pull request.
    Head { head_sha: String },
    /// So many actions were taken on the threads.
    Reconciled { actions: u64 },
}

/// What came back.
pub enum ReviewEventView {
    Runs { run: Option<(u64, Seq<char>)>, elapsed: u64 },
    Slept,
    Run { state: RunStateView, elapsed: u64 },
    Rerun { elapsed: u64 },
    Downloaded,
    Head { head_sha: Seq<char> },
    Reconciled { actions: u64 },
}

/// The run that was found.
pub open spec fn found_run(run: Option<(u64, String)>) -> Option<(u64, Seq<char>)> {
    match run {
        Some((id, url)) => Some((id, url@)),
        None => None,
    }
}

impl View for ReviewEvent {
    type V = ReviewEventView;

    open spec fn view(&self) -> ReviewEventView {
        match self {
            ReviewEvent::Runs { run, elapsed } => ReviewEventView::Runs {
                run: found_run(*run),
                elapsed: *elapsed,
            },
            ReviewEvent::Slept => ReviewEventView::Slept,
            ReviewEvent::Run { state, elapsed } => ReviewEventView::Run {
                state: state@,
                elapsed: *elapsed,
            },
            ReviewEvent::Rerun { elapsed } => ReviewEventView::Rerun { elapsed: *elapsed },
            ReviewEvent::Downloaded => ReviewEventView::Downloaded,
            ReviewEvent::Head { head_sha } => ReviewEventView::Head { head_sha: head_sha@ },
            ReviewEvent::Reconciled { actions } => ReviewEventView::Reconciled {
                actions: *actions,
            },
        }
    }
}

/// What came back answers what was asked.
pub open spec fn review_answers(state: ReviewStateView, event: ReviewEventView) -> bool {
    match state {
        ReviewStateView::Listing => event is Runs,
        ReviewStateView::Resting => event is Slept,
        ReviewStateView::ReadingRun { .. } => event is Run,
        ReviewStateView::Rerunning { .. } => event is Rerun,
        ReviewStateView::Waiting { .. } => event is Run,
        ReviewStateView::Pausing { .. } => event is Slept,
        ReviewStateView::Downloading => event is Downloaded,
        ReviewStateView::CheckingHead => event is Head,
        ReviewStateView::Reconciling => event is Reconciled,
        ReviewStateView::CheckingHeadAgain => event is Head,
        ReviewStateView::Finished => false,
    }
}

/// The state that follows, what is said and what is done.
#[derive(Debug, PartialEq, Eq)]
pub struct ReviewStep {
    pub state: ReviewState,
    pub notices: Vec<String>,
    pub action: ReviewAction,
}

/// The state that follows, what is said and what is done.
#[verifier::ext_equal]
pub struct ReviewStepView {
    pub state: ReviewStateView,
    pub notices: Seq<Seq<char>>,
    pub action: ReviewActionView,
}

impl View for ReviewStep {
    type V = ReviewStepView;

    open spec fn view(&self) -> ReviewStepView {
        ReviewStepView {
            state: self.state@,
            notices: views(self.notices@),
            action: self.action@,
        }
    }
}

/// A step on which nothing is said.
pub open spec fn silent(state: ReviewStateView, action: ReviewActionView) -> ReviewStepView {
    ReviewStepView { state, notices: Seq::empty(), action }
}

/// Where the runs that are eligible are listed.
pub open spec fn runs_endpoint(job: ReviewJobView) -> Seq<char> {
    if job.mode is Recheck {
        completed_runs_endpoint(
            job.repository,
            decimal_of(job.workflow_id as nat),
            job.head_sha,
        )
    } else {
        current_runs_endpoint(job.repository, decimal_of(job.workflow_id as nat), job.head_sha)
    }
}

/// What is left of a time.
pub open spec fn time_left(limit: u64, elapsed: u64) -> u64 {
    if elapsed <= limit {
        (limit - elapsed) as u64
    } else {
        0
    }
}

/// What is said once a run is under way.
pub open spec fn start_notice(job: ReviewJobView, rerun: bool) -> Seq<char> {
    let number = decimal_of(job.pull_request.pull_request_number as nat);
    if job.mode is Recheck {
        "Triggered ReviewGate recheck for PR #"@ + number + " "@ + job.pull_request.url
    } else {
        (if rerun {
            "Triggered"@
        } else {
            "Joined"@
        }) + " ReviewGate for PR #"@ + number + " "@ + job.pull_request.url + " at "@
            + job.head_sha
    }
}

/// What is said where the run is left to itself.
pub open spec fn leave_notices(job: ReviewJobView, rerun: bool, run_url: Seq<char>) -> Seq<
    Seq<char>,
> {
    if run_url.len() == 0 {
        seq![start_notice(job, rerun)]
    } else {
        seq![
            start_notice(job, rerun),
            (if job.mode is Recheck {
                "Rerun: "@
            } else {
                "Run: "@
            }) + run_url,
        ]
    }
}

/// What follows once a run is under way.
pub open spec fn under_way(
    job: ReviewJobView,
    run_id: u64,
    run_url: Seq<char>,
    attempt: u64,
    rerun: bool,
    elapsed: u64,
) -> ReviewStepView {
    match job.mode {
        ReviewMode::Wait { timeout, poll_interval } => ReviewStepView {
            state: ReviewStateView::Waiting {
                run_id,
                attempt,
                began: elapsed,
                limit: time_left(timeout, elapsed),
            },
            notices: seq![start_notice(job, rerun)],
            action: ReviewActionView::ReadRun { endpoint: run_endpoint(job.repository, run_id) },
        },
        _ => ReviewStepView {
            state: ReviewStateView::Finished,
            notices: leave_notices(job, rerun, run_url),
            action: ReviewActionView::Leave,
        },
    }
}

/// What follows where no run was found.
pub open spec fn no_run(job: ReviewJobView, elapsed: u64) -> ReviewStepView {
    match job.mode {
        ReviewMode::Wait { timeout, poll_interval } if elapsed < timeout => silent(
            ReviewStateView::Resting,
            ReviewActionView::Sleep {
                nanos: if poll_interval <= time_left(timeout, elapsed) {
                    poll_interval
                } else {
                    time_left(timeout, elapsed)
                },
            },
        ),
        _ => silent(ReviewStateView::Finished, ReviewActionView::NoRun),
    }
}

/// What follows once the state of the run that was found is known.
pub open spec fn after_run(
    job: ReviewJobView,
    run_id: u64,
    run_url: Seq<char>,
    state: RunStateView,
    elapsed: u64,
) -> ReviewStepView {
    if !run_matches(state, job.head_sha) {
        silent(
            ReviewStateView::Finished,
            ReviewActionView::Fail { error: mismatch_text(run_id, job.head_sha) },
        )
    } else {
        match run_start(state, !(job.mode is Recheck)) {
            Some(ReviewRunStart::Rerun { expected_attempt }) => silent(
                ReviewStateView::Rerunning { run_id, run_url, attempt: expected_attempt },
                ReviewActionView::Rerun {
                    endpoint: run_endpoint(job.repository, run_id) + "/rerun"@,
                },
            ),
            Some(ReviewRunStart::Join { expected_attempt }) => under_way(
                job,
                run_id,
                run_url,
                expected_attempt,
                false,
                elapsed,
            ),
            None => silent(
                ReviewStateView::Finished,
                ReviewActionView::Fail {
                    error: "workflow run became "@ + state.status
                        + " before ReviewGate could request a rerun"@,
                },
            ),
        }
    }
}

/// What follows once the state of the run that is waited for is known.
pub open spec fn after_wait(
    job: ReviewJobView,
    run_id: u64,
    attempt: u64,
    began: u64,
    limit: u64,
    state: RunStateView,
    elapsed: u64,
) -> ReviewStepView {
    let poll_interval = match job.mode {
        ReviewMode::Wait { timeout, poll_interval } => poll_interval,
        _ => 0,
    };
    match wait_view(
        state,
        run_id,
        attempt,
        job.head_sha,
        time_left(elapsed, began),
        limit,
        poll_interval,
    ) {
        WaitView::Done => silent(
            ReviewStateView::Downloading,
            ReviewActionView::Download { run_id, attempt },
        ),
        WaitView::Sleep { nanos } => silent(
            ReviewStateView::Pausing { run_id, attempt, began, limit },
            ReviewActionView::Sleep { nanos },
        ),
        WaitView::Fail(error) => silent(
            ReviewStateView::Finished,
            ReviewActionView::Fail { error },
        ),
    }
}

/// What follows if the head is still the same; otherwise the review fails.
pub open spec fn if_head(
    job: ReviewJobView,
    current: Seq<char>,
    state: ReviewStateView,
    action: ReviewActionView,
) -> ReviewStepView {
    if current == job.head_sha {
        silent(state, action)
    } else {
        silent(
            ReviewStateView::Finished,
            ReviewActionView::Fail {
                error: "pull request head changed while reading ReviewGate state: expected "@
                    + job.head_sha + ", current "@ + current,
            },
        )
    }
}

/// What follows once the threads are reconciled.
pub open spec fn after_reconciling(actions: u64) -> ReviewStepView {
    ReviewStepView {
        state: ReviewStateView::CheckingHeadAgain,
        notices: if actions > 0 {
            seq!["Reconciled "@ + decimal_of(actions as nat) + " ReviewGate thread action(s)."@]
        } else {
            Seq::empty()
        },
        action: ReviewActionView::ReadHead,
    }
}

/// What follows what came back.
pub open spec fn review_step(
    job: ReviewJobView,
    state: ReviewStateView,
    event: ReviewEventView,
) -> ReviewStepView {
    match (state, event) {
        (ReviewStateView::Listing, ReviewEventView::Runs { run, elapsed }) => match run {
            Some((run_id, run_url)) => silent(
                ReviewStateView::ReadingRun { run_id, run_url },
                ReviewActionView::ReadRun { endpoint: run_endpoint(job.repository, run_id) },
            ),
            None => no_run(job, elapsed),
        },
        (ReviewStateView::Resting, ReviewEventView::Slept) => silent(
            ReviewStateView::Listing,
            ReviewActionView::ListRuns { endpoint: runs_endpoint(job) },
        ),
        (
            ReviewStateView::ReadingRun { run_id, run_url },
            ReviewEventView::Run { state: run, elapsed },
        ) => after_run(job, run_id, run_url, run, elapsed),
        (
            ReviewStateView::Rerunning { run_id, run_url, attempt },
            ReviewEventView::Rerun { elapsed },
        ) => under_way(job, run_id, run_url, attempt, true, elapsed),
        (
            ReviewStateView::Waiting { run_id, attempt, began, limit },
            ReviewEventView::Run { state: run, elapsed },
        ) => after_wait(job, run_id, attempt, began, limit, run, elapsed),
        (
            ReviewStateView::Pausing { run_id, attempt, began, limit },
            ReviewEventView::Slept,
        ) => silent(
            ReviewStateView::Waiting { run_id, attempt, began, limit },
            ReviewActionView::ReadRun { endpoint: run_endpoint(job.repository, run_id) },
        ),
        (ReviewStateView::Downloading, ReviewEventView::Downloaded) => silent(
            ReviewStateView::CheckingHead,
            ReviewActionView::ReadHead,
        ),
        (ReviewStateView::CheckingHead, ReviewEventView::Head { head_sha }) => if_head(
            job,
            head_sha,
            ReviewStateView::Reconciling,
            ReviewActionView::Reconcile,
        ),
        (ReviewStateView::Reconciling, ReviewEventView::Reconciled { actions }) =>
            after_reconciling(actions),
        (ReviewStateView::CheckingHeadAgain, ReviewEventView::Head { head_sha }) => if_head(
            job,
            head_sha,
            ReviewStateView::Finished,
            ReviewActionView::Report,
        ),
        _ => silent(ReviewStateView::Finished, ReviewActionView::NoRun),
    }
}

fn quiet(state: ReviewState, action: ReviewAction) -> (r: ReviewStep)
    ensures
        r@ == silent(state@, action@),
{
    let notices: Vec<String> = Vec::new();
    proof {
        assert(views(notices@) =~= Seq::empty());
    }
    ReviewStep { state, notices, action }
}

fn list_runs(job: &ReviewJob) -> (r: String)
    ensures
        r@ == runs_endpoint(job@),
{
    let workflow = decimal(job.workflow_id);
    match job.mode {
        ReviewMode::Recheck => workflow_runs_endpoint(
            job.repository.as_str(),
            workflow.as_str(),
            job.head_sha.as_str(),
        ),
        _ => current_workflow_runs_endpoint(
            job.repository.as_str(),
            workflow.as_str(),
            job.head_sha.as_str(),
        ),
    }
}

/// How a review begins: the runs are listed.
pub fn begin_review(job: &ReviewJob) -> (r: ReviewStep)
    ensures
        r@ == silent(
            ReviewStateView::Listing,
            ReviewActionView::ListRuns { endpoint: runs_endpoint(job@) },
        ),
{
    quiet(ReviewState::Listing, ReviewAction::ListRuns { endpoint: list_runs(job) })
}

fn say_started(job: &ReviewJob, rerun: bool) -> (r: String)
    ensures
        r@ == start_notice(job@, rerun),
{
    let number = decimal(job.pull_request.pull_request_number);
    match job.mode {
        ReviewMode::Recheck => {
            let head = concat3("Triggered ReviewGate recheck for PR #", number.as_str(), " ");
            concat2(head.as_str(), job.pull_request.url.as_str())
        },
        _ => {
            let word = if rerun {
                "Triggered"
            } else {
                "Joined"
            };
            let head = concat3(word, " ReviewGate for PR #", number.as_str());
            let head = concat3(head.as_str(), " ", job.pull_request.url.as_str());
            concat3(head.as_str(), " at ", job.head_sha.as_str())
        },
    }
}

fn join_started(
    job: &ReviewJob,
    run_id: u64,
    run_url: &str,
    attempt: u64,
    rerun: bool,
    elapsed: u64,
) -> (r: ReviewStep)
    ensures
        r@ == under_way(job@, run_id, run_url@, attempt, rerun, elapsed),
{
    let mut notices: Vec<String> = Vec::new();
    notices.push(say_started(job, rerun));
    match job.mode {
        ReviewMode::Wait { timeout, .. } => {
            let limit: u64 = if elapsed <= timeout {
                timeout - elapsed
            } else {
                0
            };
            proof {
                assert(views(notices@) =~= seq![start_notice(job@, rerun)]);
            }
            ReviewStep {
                state: ReviewState::Waiting { run_id, attempt, began: elapsed, limit },
                notices,
                action: ReviewAction::ReadRun {
                    endpoint: fetch_workflow_run_state(job.repository.as_str(), run_id),
                },
            }
        },
        _ => {
            proof {
                reveal_strlit("");
            }
            if !same_text(run_url, "") {
                let label = match job.mode {
                    ReviewMode::Recheck => "Rerun: ",
                    _ => "Run: ",
                };
                notices.push(concat2(label, run_url));
            }
            proof {
                assert(run_url@.len() == 0 ==> run_url@ =~= ""@);
                assert(views(notices@) =~= leave_notices(job@, rerun, run_url@));
            }
            ReviewStep { state: ReviewState::Finished, notices, action: ReviewAction::Leave }
        },
    }
}

fn rest(job: &ReviewJob, elapsed: u64) -> (r: ReviewStep)
    ensures
        r@ == no_run(job@, elapsed),
{
    match job.mode {
        ReviewMode::Wait { timeout, poll_interval } => {
            if elapsed < timeout {
                let left: u64 = timeout - elapsed;
                let nanos: u64 = if poll_interval <= left {
                    poll_interval
                } else {
                    left
                };
                return quiet(ReviewState::Resting, ReviewAction::Sleep { nanos });
            }
        },
        _ => {},
    }
    quiet(ReviewState::Finished, ReviewAction::NoRun)
}

/// What follows once the state of the run that was found is known: a completed run is
/// started again, an active one is joined, unless a completed one was asked for.
pub fn start_or_join_review_run(
    job: &ReviewJob,
    run_id: u64,
    run_url: String,
    state: &WorkflowRunState,
    elapsed: u64,
) -> (r: ReviewStep)
    ensures
        r@ == after_run(job@, run_id, run_url@, state@, elapsed),
{
    let join_active = match job.mode {
        ReviewMode::Recheck => false,
        _ => true,
    };
    match start_selected_run(run_id, state, job.head_sha.as_str(), join_active) {
        Ok(ReviewRunStart::Rerun { expected_attempt }) => quiet(
            ReviewState::Rerunning { run_id, run_url, attempt: expected_attempt },
            ReviewAction::Rerun { endpoint: rerun_workflow(job.repository.as_str(), run_id) },
        ),
        Ok(ReviewRunStart::Join { expected_attempt }) => join_started(
            job,
            run_id,
            run_url.as_str(),
            expected_attempt,
            false,
            elapsed,
        ),
        Err(error) => quiet(ReviewState::Finished, ReviewAction::Fail { error }),
    }
}

fn keep_waiting(
    job: &ReviewJob,
    run_id: u64,
    attempt: u64,
    began: u64,
    limit: u64,
    state: &WorkflowRunState,
    elapsed: u64,
) -> (r: ReviewStep)
    ensures
        r@ == after_wait(job@, run_id, attempt, began, limit, state@, elapsed),
{
    let poll_interval: u64 = match job.mode {
        ReviewMode::Wait { poll_interval, .. } => poll_interval,
        _ => 0,
    };
    let waited: u64 = if began <= elapsed {
        elapsed - began
    } else {
        0
    };
    match wait_for_workflow_attempt(
        state,
        run_id,
        attempt,
        job.head_sha.as_str(),
        waited,
        limit,
        poll_interval,
    ) {
        WaitStep::Done => quiet(
            ReviewState::Downloading,
            ReviewAction::Download { run_id, attempt },
        ),
        WaitStep::Sleep { nanos } => quiet(
            ReviewState::Pausing { run_id, attempt, began, limit },
            ReviewAction::Sleep { nanos },
        ),
        WaitStep::Fail(error) => quiet(ReviewState::Finished, ReviewAction::Fail { error }),
    }
}

fn hold_head(job: &ReviewJob, current: &str, state: ReviewState, action: ReviewAction) -> (r:
    ReviewStep)
    ensures
        r@ == if_head(job@, current@, state@, action@),
{
    match ensure_pull_request_head(current, job.head_sha.as_str()) {
        Ok(_) => quiet(state, action),
        Err(error) => quiet(ReviewState::Finished, ReviewAction::Fail { error }),
    }
}

fn reconciled(actions: u64) -> (r: ReviewStep)
    ensures
        r@ == after_reconciling(actions),
{
    let mut notices: Vec<String> = Vec::new();
    if actions > 0 {
        let count = decimal(actions);
        notices.push(concat3("Reconciled ", count.as_str(), " ReviewGate thread action(s)."));
    }
    proof {
        assert(views(notices@) =~= after_reconciling(actions).notices);
    }
    ReviewStep { state: ReviewState::CheckingHeadAgain, notices, action: ReviewAction::ReadHead }
}

/// What follows what came back.
pub fn review_agent_pull_request(job: &ReviewJob, state: ReviewState, event: ReviewEvent) -> (r:
    ReviewStep)
    requires
        review_answers(state@, event@),
    ensures
        r@ == review_step(job@, state@, event@),
{
    match (state, event) {
        (ReviewState::Listing, ReviewEvent::Runs { run, elapsed }) => match run {
            Some((run_id, run_url)) => quiet(
                ReviewState::ReadingRun { run_id, run_url },
                ReviewAction::ReadRun {
                    endpoint: fetch_workflow_run_state(job.repository.as_str(), run_id),
                },
            ),
            None => rest(job, elapsed),
        },
        (ReviewState::Resting, ReviewEvent::Slept) => begin_review(job),
        (
            ReviewState::ReadingRun { run_id, run_url },
            ReviewEvent::Run { state, elapsed },
        ) => start_or_join_review_run(job, run_id, run_url, &state, elapsed),
        (
            ReviewState::Rerunning { run_id, run_url, attempt },
            ReviewEvent::Rerun { elapsed },
        ) => join_started(job, run_id, run_url.as_str(), attempt, true, elapsed),
        (
            ReviewState::Waiting { run_id, attempt, began, limit },
            ReviewEvent::Run { state, elapsed },
        ) => keep_waiting(job, run_id, attempt, began, limit, &state, elapsed),
        (
            ReviewState::Pausing { run_id, attempt, began, limit },
            ReviewEvent::Slept,
        ) => quiet(
            ReviewState::Waiting { run_id, attempt, began, limit },
            ReviewAction::ReadRun {
                endpoint: fetch_workflow_run_state(job.repository.as_str(), run_id),
            },
        ),
        (ReviewState::Downloading, ReviewEvent::Downloaded) => quiet(
            ReviewState::CheckingHead,
            ReviewAction::ReadHead,
        ),
        (ReviewState::CheckingHead, ReviewEvent::Head { head_sha }) => hold_head(
            job,
            head_sha.as_str(),
            ReviewState::Reconciling,
            ReviewAction::Reconcile,
        ),
        (ReviewState::Reconciling, ReviewEvent::Reconciled { actions }) => reconciled(actions),
        (ReviewState::CheckingHeadAgain, ReviewEvent::Head { head_sha }) => hold_head(
            job,
            head_sha.as_str(),
            ReviewState::Finished,
            ReviewAction::Report,
        ),
        _ => quiet(ReviewState::Finished, ReviewAction::NoRun),
    }
}

/// A result is printed and threads are reconciled only right after the head was seen
/// unchanged, and a result is downloaded only once the attempt that was started or
/// joined is complete.
pub proof fn law_results_are_of_the_started_attempt(
    job: ReviewJobView,
    state: ReviewStateView,
    event: ReviewEventView,
)
    requires
        review_answers(state, event),
    ensures
        ({
            let action = review_step(job, state, event).action;
            &&& (action is Report || action is Reconcile) ==> event == (ReviewEventView::Head {
                head_sha: job.head_sha,
            })
            &&& action matches ReviewActionView::Download { run_id, attempt } ==> {
                &&& state matches ReviewStateView::Waiting { run_id: waited, attempt: for_, .. }
                    && waited == run_id && for_ == attempt
                &&& event matches ReviewEventView::Run { state: run, .. } && run.status
                    == "completed"@ && run.run_attempt == attempt && run_matches(
                    run,
                    job.head_sha,
                )
            }
        }),
{
}

/// A run is started again only if it is completed and of the head; an active run is
/// joined, unless a recheck was asked for.
pub proof fn law_active_runs_are_joined(
    job: ReviewJobView,
    run_id: u64,
    run_url: Seq<char>,
    run: RunStateView,
    elapsed: u64,
)
    ensures
        ({
            let step = after_run(job, run_id, run_url, run, elapsed);
            &&& step.action is Rerun <==> run_matches(run, job.head_sha) && run.status
                == "completed"@
            &&& run_matches(run, job.head_sha) && run.status != "completed"@ && job.mode is Wait
                ==> (step.state matches ReviewStateView::Waiting { run_id: waited, attempt, .. }
                && waited == run_id && attempt == run.run_attempt)
            &&& run_matches(run, job.head_sha) && run.status != "completed"@ && job.mode
                is Recheck ==> step.action is Fail
        }),
{
}

/// A review never sleeps past the end of its time.
pub proof fn law_reviews_end_in_time(
    job: ReviewJobView,
    state: ReviewStateView,
    event: ReviewEventView,
)
    requires
        review_answers(state, event),
        job.mode is Wait,
    ensures
        match (state, event, review_step(job, state, event).action) {
            (
                ReviewStateView::Listing,
                ReviewEventView::Runs { elapsed, .. },
                ReviewActionView::Sleep { nanos },
            ) => elapsed + nanos <= job.mode->Wait_timeout,
            (
                ReviewStateView::Waiting { began, limit, .. },
                ReviewEventView::Run { elapsed, .. },
                ReviewActionView::Sleep { nanos },
            ) => began <= elapsed ==> elapsed + nanos <= began + limit,
            (_, _, ReviewActionView::Sleep { .. }) => false,
            _ => true,
        },
{
}

// ---------------------------------------------------------------------------
// What holds of it
// ---------------------------------------------------------------------------

/// The pull request is the one whose number was told; without a number there is none, and
/// without an address it has an empty one.
pub proof fn law_pull_requests_are_told(reply: JsonView, number: u64, url: Seq<char>)
    ensures
        pull_request_in(reply) is Ok <==> (reply.get("number"@) matches Some(
            JsonView::Number(Some(_)),
        )),
        reply.get("number"@) == Some(JsonView::Number(Some(number))) ==> (pull_request_in(
            reply,
        ) matches Ok(target) && target.pull_request_number == number && (reply.get("url"@) == Some(
            JsonView::Text(url),
        ) ==> target.url == url) && (reply.get("url"@) is None ==> target.url.len() == 0)),
{
}

/// A review that is waited for is waited for from when its run is under way, and for the
/// time that is left; any other is left to itself.
pub proof fn law_time_left_is_waited(
    job: ReviewJobView,
    run_id: u64,
    run_url: Seq<char>,
    attempt: u64,
    rerun: bool,
    elapsed: u64,
)
    ensures
        job.mode matches ReviewMode::Wait { timeout, poll_interval } ==> (under_way(
            job,
            run_id,
            run_url,
            attempt,
            rerun,
            elapsed,
        ).state matches ReviewStateView::Waiting { run_id: of, attempt: a, began, limit } && of
            == run_id && a == attempt && began == elapsed && (elapsed <= timeout ==> began + limit
            == timeout) && (elapsed > timeout ==> limit == 0)),
        !(job.mode is Wait) ==> under_way(
            job,
            run_id,
            run_url,
            attempt,
            rerun,
            elapsed,
        ).action is Leave,
        under_way(job, run_id, run_url, attempt, rerun, elapsed).notices.len() == if job.mode
            is Wait || run_url.len() == 0 {
            1nat
        } else {
            2nat
        },
        !(job.mode is Wait) && run_url.len() > 0 ==> run_url.is_suffix_of(
            under_way(job, run_id, run_url, attempt, rerun, elapsed).notices[1],
        ),
{
    if !(job.mode is Wait) && run_url.len() > 0 {
        let notice = under_way(job, run_id, run_url, attempt, rerun, elapsed).notices[1];
        assert(notice.subrange(notice.len() - run_url.len(), notice.len() as int) =~= run_url);
    }
}

/// What is said of a start tells whether the run was triggered or joined.
pub proof fn law_starts_are_told(job: ReviewJobView, rerun: bool)
    ensures
        job.mode is Recheck ==> "Triggered ReviewGate recheck for PR #"@.is_prefix_of(
            start_notice(job, rerun),
        ) && job.pull_request.url.is_suffix_of(start_notice(job, rerun)),
        !(job.mode is Recheck) && rerun ==> "Triggered"@.is_prefix_of(start_notice(job, rerun)),
        !(job.mode is Recheck) && !rerun ==> "Joined"@.is_prefix_of(start_notice(job, rerun)),
        !(job.mode is Recheck) ==> job.head_sha.is_suffix_of(start_notice(job, rerun)),
        crate::text::has_text(
            start_notice(job, rerun),
            decimal_of(job.pull_request.pull_request_number as nat),
        ),
{
    let notice = start_notice(job, rerun);
    let number = decimal_of(job.pull_request.pull_request_number as nat);
    let url = job.pull_request.url;
    if job.mode is Recheck {
        let head = "Triggered ReviewGate recheck for PR #"@;
        assert(notice.subrange(0, head.len() as int) =~= head);
        assert(notice.subrange(notice.len() - url.len(), notice.len() as int) =~= url);
        assert(notice.subrange(head.len() as int, (head.len() + number.len()) as int) =~= number);
        assert(crate::text::occurs_at(notice, number, head.len() as int));
    } else {
        let word = if rerun {
            "Triggered"@
        } else {
            "Joined"@
        };
        let head = word + " ReviewGate for PR #"@;
        assert(notice.subrange(0, word.len() as int) =~= word);
        assert(notice.subrange(notice.len() - job.head_sha.len(), notice.len() as int)
            =~= job.head_sha);
        assert(notice.subrange(head.len() as int, (head.len() + number.len()) as int) =~= number);
        assert(crate::text::occurs_at(notice, number, head.len() as int));
    }
}

/// Runs are looked for again exactly while a result is waited for and time is left.
pub proof fn law_runs_are_looked_for_again(job: ReviewJobView, elapsed: u64)
    ensures
        no_run(job, elapsed).action is Sleep <==> (job.mode matches ReviewMode::Wait {
            timeout,
            ..
        } && elapsed < timeout),
        no_run(job, elapsed).action is Sleep <==> no_run(job, elapsed).state is Resting,
        !(no_run(job, elapsed).action is Sleep) ==> no_run(job, elapsed).action is NoRun,
        no_run(job, elapsed).action matches ReviewActionView::Sleep { nanos } ==> (
        job.mode matches ReviewMode::Wait { timeout, poll_interval } && (nanos == poll_interval
            || elapsed + nanos == timeout) && nanos <= poll_interval),
        review_step(job, ReviewStateView::Resting, ReviewEventView::Slept).state is Listing,
{
}

/// A run that was found is looked at, and a run that is of another head fails the review.
pub proof fn law_found_runs_are_looked_at(
    job: ReviewJobView,
    run_id: u64,
    run_url: Seq<char>,
    run: RunStateView,
    elapsed: u64,
)
    ensures
        review_step(
            job,
            ReviewStateView::Listing,
            ReviewEventView::Runs { run: Some((run_id, run_url)), elapsed },
        ).state == (ReviewStateView::ReadingRun { run_id, run_url }),
        run.head_sha != job.head_sha || run.event != "pull_request"@ ==> after_run(
            job,
            run_id,
            run_url,
            run,
            elapsed,
        ).action is Fail,
        run.head_sha == job.head_sha && run.event == "pull_request"@ && run.status == "completed"@
            && run.run_attempt < u64::MAX ==> after_run(job, run_id, run_url, run, elapsed).state
            == (ReviewStateView::Rerunning {
            run_id,
            run_url,
            attempt: (run.run_attempt + 1) as u64,
        }),
{
}

/// A run that was waited for is downloaded when its attempt is complete, is asked for again
/// while time is left, and a wait that is over fails.
pub proof fn law_waits_end_with_the_attempt(
    job: ReviewJobView,
    run_id: u64,
    attempt: u64,
    began: u64,
    limit: u64,
    run: RunStateView,
    elapsed: u64,
)
    requires
        run.head_sha == job.head_sha,
        run.event == "pull_request"@,
        began <= elapsed,
    ensures
        ({
            let step = after_wait(job, run_id, attempt, began, limit, run, elapsed);
            &&& run.run_attempt == attempt && run.status == "completed"@ ==> step.action == (
            ReviewActionView::Download { run_id, attempt }) && step.state is Downloading
            &&& run.run_attempt > attempt ==> step.action is Fail
            &&& run.run_attempt <= attempt && !(run.run_attempt == attempt && run.status
                == "completed"@) && elapsed - began < limit ==> step.state == (
            ReviewStateView::Pausing { run_id, attempt, began, limit })
            &&& run.run_attempt <= attempt && !(run.run_attempt == attempt && run.status
                == "completed"@) && elapsed - began >= limit ==> step.action is Fail
        }),
        review_step(
            job,
            ReviewStateView::Pausing { run_id, attempt, began, limit },
            ReviewEventView::Slept,
        ).state == (ReviewStateView::Waiting { run_id, attempt, began, limit }),
{
}

/// A result is reported once its threads are reconciled, and only for the head that was
/// reviewed; a head that changed fails the review, and the error tells both heads.
pub proof fn law_heads_are_checked(job: ReviewJobView, head_sha: Seq<char>, actions: u64)
    ensures
        review_step(job, ReviewStateView::Downloading, ReviewEventView::Downloaded).state
            is CheckingHead,
        head_sha == job.head_sha ==> review_step(
            job,
            ReviewStateView::CheckingHead,
            ReviewEventView::Head { head_sha },
        ).action is Reconcile,
        review_step(
            job,
            ReviewStateView::Reconciling,
            ReviewEventView::Reconciled { actions },
        ).state is CheckingHeadAgain,
        review_step(
            job,
            ReviewStateView::Reconciling,
            ReviewEventView::Reconciled { actions },
        ).notices.len() == if actions > 0 {
            1nat
        } else {
            0nat
        },
        head_sha == job.head_sha ==> review_step(
            job,
            ReviewStateView::CheckingHeadAgain,
            ReviewEventView::Head { head_sha },
        ).action is Report,
        head_sha != job.head_sha ==> (review_step(
            job,
            ReviewStateView::CheckingHead,
            ReviewEventView::Head { head_sha },
        ).action matches ReviewActionView::Fail { error } && head_sha.is_suffix_of(error)),
        head_sha != job.head_sha ==> (review_step(
            job,
            ReviewStateView::CheckingHeadAgain,
            ReviewEventView::Head { head_sha },
        ).action matches ReviewActionView::Fail { error } && head_sha.is_suffix_of(error)),
{
    let error = "pull request head changed while reading ReviewGate state: expected "@
        + job.head_sha + ", current "@ + head_sha;
    assert(error.subrange(error.len() - head_sha.len(), error.len() as int) =~= head_sha);
}

/// The runs that are looked for are those of the head; those that a recheck looks for are
/// completed.
pub proof fn law_runs_are_those_of_the_head(job: ReviewJobView)
    ensures
        (job.head_sha + "&per_page=100"@).is_suffix_of(runs_endpoint(job)),
        ("repos/"@ + job.repository + "/actions/workflows/"@ + decimal_of(
            job.workflow_id as nat,
        )).is_prefix_of(runs_endpoint(job)),
        job.mode is Recheck ==> ("status=completed&head_sha="@ + job.head_sha
            + "&per_page=100"@).is_suffix_of(runs_endpoint(job)),
        !(job.mode is Recheck) ==> ("/runs?event=pull_request&head_sha="@ + job.head_sha
            + "&per_page=100"@).is_suffix_of(runs_endpoint(job)),
{
    let endpoint = runs_endpoint(job);
    let tail = job.head_sha + "&per_page=100"@;
    let head = "repos/"@ + job.repository + "/actions/workflows/"@ + decimal_of(
        job.workflow_id as nat,
    );
    assert(endpoint.subrange(endpoint.len() - tail.len(), endpoint.len() as int) =~= tail);
    assert(endpoint.subrange(0, head.len() as int) =~= head);
    if job.mode is Recheck {
        reveal_strlit("/runs?event=pull_request&status=completed&head_sha=");
        reveal_strlit("status=completed&head_sha=");
        let part = "status=completed&head_sha="@;
        let whole = "/runs?event=pull_request&status=completed&head_sha="@;
        assert(whole.subrange(whole.len() - part.len(), whole.len() as int) =~= part);
        assert forall|i: int| 0 <= i < part.len() implies whole[whole.len() - part.len() + i]
            == part[i] by {
            assert(whole.subrange(whole.len() - part.len(), whole.len() as int)[i] == part[i]);
        }
        let end = part + job.head_sha + "&per_page=100"@;
        assert(endpoint =~= head + whole + tail);
        assert(endpoint.subrange(endpoint.len() - end.len(), endpoint.len() as int) =~= end);
    } else {
        let end = "/runs?event=pull_request&head_sha="@ + job.head_sha + "&per_page=100"@;
        assert(endpoint.subrange(endpoint.len() - end.len(), endpoint.len() as int) =~= end);
    }
}

} // verus!
