//! How the result of a review is found and read.
use vstd::prelude::*;

use crate::agent_result::{
    agent_result_artifact_name, agent_result_run, artifact_name, law_results_are_of_trusted_runs,
    result_run, result_scope, validate_agent_result_scope,
};
use crate::json::{json_view, Json, JsonView};
use crate::number::{decimal, decimal_of};
use crate::pull_request::{ReviewScope, ScopeView};
use crate::text::concat3;
use crate::workflow::{
    completed_runs_endpoint, fetch_workflow_run_state, run_endpoint, workflow_runs_endpoint,
};

verus! {

/// The result that is looked for.
#[derive(Debug, PartialEq, Eq)]
pub struct DownloadJob {
    pub repository: String,
    pub pr_number: u64,
    pub head_sha: String,
    /// The run and the attempt that the result is of, where they are known.
    pub expected_run: Option<(u64, u64)>,
    /// The bytes that a result may have.
    pub max_bytes: u64,
}

/// The result that is looked for.
pub struct DownloadJobView {
    pub repository: Seq<char>,
    pub pr_number: u64,
    pub head_sha: Seq<char>,
    pub expected_run: Option<(u64, u64)>,
    pub max_bytes: u64,
}

impl View for DownloadJob {
    type V = DownloadJobView;

    open spec fn view(&self) -> DownloadJobView {
        DownloadJobView {
            repository: self.repository@,
            pr_number: self.pr_number,
            head_sha: self.head_sha@,
            expected_run: self.expected_run,
            max_bytes: self.max_bytes,
        }
    }
}

/// Where the search is.
#[derive(Debug, Clone, Copy, PartialEq, Eq, Structural)]
pub enum DownloadState {
    /// The workflow is looked up.
    FindingWorkflow,
    /// The run is looked for.
    FindingRun,
    /// The attempt of the run is looked up.
    FindingAttempt { run_id: u64 },
    /// The artifact of the attempt is looked for.
    FindingArtifact { run_id: u64, attempt: u64 },
    /// The result is read.
    Reading,
    /// The search is over.
    Finished,
}

/// What is done next.
#[derive(Debug, PartialEq, Eq)]
pub enum DownloadAction {
    /// List the runs.
    ListRuns { endpoint: String },
    /// Look at a run.
    ReadRun { endpoint: String },
    /// List the artifacts.
    ListArtifacts { endpoint: String },
    /// Download an artifact, and read the result in it.
    Download { run_id: u64, artifact_name: String },
    /// The result is accepted.
    Accept,
    /// No run was found.
    NoRun,
    /// The search failed.
    Fail { error: String },
}

/// What is done next.
pub enum DownloadActionView {
    ListRuns { endpoint: Seq<char> },
    ReadRun { endpoint: Seq<char> },
    ListArtifacts { endpoint: Seq<char> },
    Download { run_id: u64, artifact_name: Seq<char> },
    Accept,
    NoRun,
    Fail { error: Seq<char> },
}

impl View for DownloadAction {
    type V = DownloadActionView;

    open spec fn view(&self) -> DownloadActionView {
        match self {
            DownloadAction::ListRuns { endpoint } => DownloadActionView::ListRuns {
                endpoint: endpoint@,
            },
            DownloadAction::ReadRun { endpoint } => DownloadActionView::ReadRun {
                endpoint: endpoint@,
            },
            DownloadAction::ListArtifacts { endpoint } => DownloadActionView::ListArtifacts {
                endpoint: endpoint@,
            },
            DownloadAction::Download { run_id, artifact_name } => DownloadActionView::Download {
                run_id: *run_id,
                artifact_name: artifact_name@,
            },
            DownloadAction::Accept => DownloadActionView::Accept,
            DownloadAction::NoRun => DownloadActionView::NoRun,
            DownloadAction::Fail { error } => DownloadActionView::Fail { error: error@ },
        }
    }
}

/// What was found.
#[derive(Debug, PartialEq, Eq)]
pub enum DownloadEvent {
    /// The number of the workflow.
    Workflow { id: u64 },
    /// The run, if there is one that is completed.
    Run { run_id: Option<u64> },
    /// The attempt of the run.
    Attempt { attempt: u64 },
    /// The artifacts that there are.
    Artifacts { reply: Json },
    /// A result of so many bytes, of this head and of this scope.
    Result { bytes: u64, reviewed_sha: String, scope: ReviewScope },
}

/// What was found.
pub enum DownloadEventView {
    Workflow { id: u64 },
    Run { run_id: Option<u64> },
    Attempt { attempt: u64 },
    Artifacts { reply: JsonView },
    Result { bytes: u64, reviewed_sha: Seq<char>, scope: ScopeView },
}

impl View for DownloadEvent {
    type V = DownloadEventView;

    open spec fn view(&self) -> DownloadEventView {
        match self {
            DownloadEvent::Workflow { id } => DownloadEventView::Workflow { id: *id },
            DownloadEvent::Run { run_id } => DownloadEventView::Run { run_id: *run_id },
            DownloadEvent::Attempt { attempt } => DownloadEventView::Attempt { attempt: *attempt },
            DownloadEvent::Artifacts { reply } => DownloadEventView::Artifacts {
                reply: json_view(*reply),
            },
            DownloadEvent::Result { bytes, reviewed_sha, scope } => DownloadEventView::Result {
                bytes: *bytes,
                reviewed_sha: reviewed_sha@,
                scope: scope@,
            },
        }
    }
}

/// The answer is to what was asked.
pub open spec fn download_answers(state: DownloadState, event: DownloadEventView) -> bool {
    match state {
        DownloadState::FindingWorkflow => event is Workflow,
        DownloadState::FindingRun => event is Run,
        DownloadState::FindingAttempt { .. } => event is Attempt,
        DownloadState::FindingArtifact { .. } => event is Artifacts,
        DownloadState::Reading => event is Result,
        DownloadState::Finished => false,
    }
}

/// Where the artifacts of a name are listed.
pub open spec fn artifacts_endpoint(repository: Seq<char>, name: Seq<char>) -> Seq<char> {
    "repos/"@ + repository + "/actions/artifacts?name="@ + name + "&per_page=100"@
}

/// The artifact of an attempt is looked for.
pub open spec fn find_artifact(job: DownloadJobView, run_id: u64, attempt: u64) -> (
    DownloadState,
    DownloadActionView,
) {
    (
        DownloadState::FindingArtifact { run_id, attempt },
        DownloadActionView::ListArtifacts {
            endpoint: artifacts_endpoint(job.repository, artifact_name(job.head_sha, attempt)),
        },
    )
}

/// The search is over.
pub open spec fn stop(action: DownloadActionView) -> (DownloadState, DownloadActionView) {
    (DownloadState::Finished, action)
}

/// What follows an answer.
pub open spec fn download_step(
    job: DownloadJobView,
    state: DownloadState,
    event: DownloadEventView,
) -> (DownloadState, DownloadActionView) {
    match (state, event) {
        (DownloadState::FindingWorkflow, DownloadEventView::Workflow { id }) => {
            match job.expected_run {
                Some((run_id, attempt)) => find_artifact(job, run_id, attempt),
                None => (
                    DownloadState::FindingRun,
                    DownloadActionView::ListRuns {
                        endpoint: completed_runs_endpoint(
                            job.repository,
                            decimal_of(id as nat),
                            job.head_sha,
                        ),
                    },
                ),
            }
        },
        (DownloadState::FindingRun, DownloadEventView::Run { run_id }) => match run_id {
            Some(run_id) => (
                DownloadState::FindingAttempt { run_id },
                DownloadActionView::ReadRun { endpoint: run_endpoint(job.repository, run_id) },
            ),
            None => stop(DownloadActionView::NoRun),
        },
        (
            DownloadState::FindingAttempt { run_id },
            DownloadEventView::Attempt { attempt },
        ) => find_artifact(job, run_id, attempt),
        (
            DownloadState::FindingArtifact { run_id, attempt },
            DownloadEventView::Artifacts { reply },
        ) => match result_run(reply, job.head_sha, attempt, seq![run_id]) {
            Ok(run_id) => (
                DownloadState::Reading,
                DownloadActionView::Download {
                    run_id,
                    artifact_name: artifact_name(job.head_sha, attempt),
                },
            ),
            Err(error) => stop(DownloadActionView::Fail { error }),
        },
        (
            DownloadState::Reading,
            DownloadEventView::Result { bytes, reviewed_sha, scope },
        ) => if bytes > job.max_bytes {
            stop(
                DownloadActionView::Fail {
                    error: "ReviewGate agent result exceeds "@ + decimal_of(job.max_bytes as nat)
                        + " bytes"@,
                },
            )
        } else {
            match result_scope(reviewed_sha, scope, job.repository, job.pr_number, job.head_sha) {
                Ok(_) => stop(DownloadActionView::Accept),
                Err(error) => stop(DownloadActionView::Fail { error }),
            }
        },
        _ => stop(DownloadActionView::NoRun),
    }
}

fn look_for_artifact(job: &DownloadJob, run_id: u64, attempt: u64) -> (r: (
    DownloadState,
    DownloadAction,
))
    ensures
        (r.0, r.1@) == find_artifact(job@, run_id, attempt),
{
    let name = agent_result_artifact_name(job.head_sha.as_str(), attempt);
    let head = concat3("repos/", job.repository.as_str(), "/actions/artifacts?name=");
    (
        DownloadState::FindingArtifact { run_id, attempt },
        DownloadAction::ListArtifacts {
            endpoint: concat3(head.as_str(), name.as_str(), "&per_page=100"),
        },
    )
}

fn look_for_run(job: &DownloadJob, workflow_id: u64) -> (r: (DownloadState, DownloadAction))
    ensures
        (r.0, r.1@) == download_step(
            job@,
            DownloadState::FindingWorkflow,
            DownloadEventView::Workflow { id: workflow_id },
        ),
{
    match job.expected_run {
        Some((run_id, attempt)) => look_for_artifact(job, run_id, attempt),
        None => {
            let workflow = decimal(workflow_id);
            (
                DownloadState::FindingRun,
                DownloadAction::ListRuns {
                    endpoint: workflow_runs_endpoint(
                        job.repository.as_str(),
                        workflow.as_str(),
                        job.head_sha.as_str(),
                    ),
                },
            )
        },
    }
}

fn choose_artifact(job: &DownloadJob, run_id: u64, attempt: u64, reply: &Json) -> (r: (
    DownloadState,
    DownloadAction,
))
    ensures
        (r.0, r.1@) == download_step(
            job@,
            DownloadState::FindingArtifact { run_id, attempt },
            DownloadEventView::Artifacts { reply: json_view(*reply) },
        ),
{
    let mut trusted: Vec<u64> = Vec::new();
    trusted.push(run_id);
    proof {
        assert(trusted@ =~= seq![run_id]);
    }
    match agent_result_run(reply, job.head_sha.as_str(), attempt, &trusted) {
        Ok(run_id) => (
            DownloadState::Reading,
            DownloadAction::Download {
                run_id,
                artifact_name: agent_result_artifact_name(job.head_sha.as_str(), attempt),
            },
        ),
        Err(error) => (DownloadState::Finished, DownloadAction::Fail { error }),
    }
}

fn accept_result(job: &DownloadJob, bytes: u64, reviewed_sha: &str, scope: &ReviewScope) -> (r: (
    DownloadState,
    DownloadAction,
))
    ensures
        (r.0, r.1@) == download_step(
            job@,
            DownloadState::Reading,
            DownloadEventView::Result { bytes, reviewed_sha: reviewed_sha@, scope: scope@ },
        ),
{
    if bytes > job.max_bytes {
        let most = decimal(job.max_bytes);
        return (
            DownloadState::Finished,
            DownloadAction::Fail {
                error: concat3("ReviewGate agent result exceeds ", most.as_str(), " bytes"),
            },
        );
    }
    match validate_agent_result_scope(
        reviewed_sha,
        scope,
        job.repository.as_str(),
        job.pr_number,
        job.head_sha.as_str(),
    ) {
        Ok(_) => (DownloadState::Finished, DownloadAction::Accept),
        Err(error) => (DownloadState::Finished, DownloadAction::Fail { error }),
    }
}

/// What follows an answer.
pub fn download_agent_result(job: &DownloadJob, state: DownloadState, event: DownloadEvent) -> (r: (
    DownloadState,
    DownloadAction,
))
    requires
        download_answers(state, event@),
    ensures
        (r.0, r.1@) == download_step(job@, state, event@),
{
    match (state, event) {
        (DownloadState::FindingWorkflow, DownloadEvent::Workflow { id }) => look_for_run(job, id),
        (DownloadState::FindingRun, DownloadEvent::Run { run_id }) => match run_id {
            Some(run_id) => (
                DownloadState::FindingAttempt { run_id },
                DownloadAction::ReadRun {
                    endpoint: fetch_workflow_run_state(job.repository.as_str(), run_id),
                },
            ),
            None => (DownloadState::Finished, DownloadAction::NoRun),
        },
        (
            DownloadState::FindingAttempt { run_id },
            DownloadEvent::Attempt { attempt },
        ) => look_for_artifact(job, run_id, attempt),
        (
            DownloadState::FindingArtifact { run_id, attempt },
            DownloadEvent::Artifacts { reply },
        ) => choose_artifact(job, run_id, attempt, &reply),
        (
            DownloadState::Reading,
            DownloadEvent::Result { bytes, reviewed_sha, scope },
        ) => accept_result(job, bytes, reviewed_sha.as_str(), &scope),
        _ => (DownloadState::Finished, DownloadAction::NoRun),
    }
}

/// How far the search is from its end.
pub open spec fn download_rank(state: DownloadState) -> nat {
    match state {
        DownloadState::FindingWorkflow => 5,
        DownloadState::FindingRun => 4,
        DownloadState::FindingAttempt { .. } => 3,
        DownloadState::FindingArtifact { .. } => 2,
        DownloadState::Reading => 1,
        DownloadState::Finished => 0,
    }
}

/// The search comes to an end.
pub proof fn law_downloads_end(job: DownloadJobView, state: DownloadState, event: DownloadEventView)
    requires
        download_answers(state, event),
    ensures
        download_rank(download_step(job, state, event).0) < download_rank(state),
{
}

/// Nothing is downloaded but from the run that was found or expected.
pub proof fn law_downloads_are_of_the_run(
    job: DownloadJobView,
    run_id: u64,
    attempt: u64,
    reply: JsonView,
)
    ensures
        download_step(
            job,
            DownloadState::FindingArtifact { run_id, attempt },
            DownloadEventView::Artifacts { reply },
        ).1 matches DownloadActionView::Download { run_id: of, artifact_name: name } ==> of
            == run_id && name == artifact_name(job.head_sha, attempt),
{
    law_results_are_of_trusted_runs(reply, job.head_sha, attempt, seq![run_id]);
}

/// A result is accepted only for the head and the pull request that were asked for.
pub proof fn law_accepted_results_are_current(
    job: DownloadJobView,
    bytes: u64,
    reviewed_sha: Seq<char>,
    scope: ScopeView,
)
    ensures
        download_step(
            job,
            DownloadState::Reading,
            DownloadEventView::Result { bytes, reviewed_sha, scope },
        ).1 is Accept <==> bytes <= job.max_bytes && reviewed_sha == job.head_sha && scope == (
        ScopeView::PullRequest { repository: job.repository, pull_request_number: job.pr_number }),
{
}

// ---------------------------------------------------------------------------
// What holds of it
// ---------------------------------------------------------------------------

/// Where the run is known, its artifact is looked for at once; where it is not, the runs of
/// the head are listed first, and a run that was found is looked at before its artifact.
pub proof fn law_known_runs_are_not_looked_for(
    job: DownloadJobView,
    id: u64,
    run_id: u64,
    attempt: u64,
)
    ensures
        job.expected_run == Some((run_id, attempt)) ==> download_step(
            job,
            DownloadState::FindingWorkflow,
            DownloadEventView::Workflow { id },
        ).0 == (DownloadState::FindingArtifact { run_id, attempt }),
        job.expected_run is None ==> download_step(
            job,
            DownloadState::FindingWorkflow,
            DownloadEventView::Workflow { id },
        ).1 is ListRuns,
        download_step(
            job,
            DownloadState::FindingRun,
            DownloadEventView::Run { run_id: Some(run_id) },
        ).0 == (DownloadState::FindingAttempt { run_id }),
        download_step(
            job,
            DownloadState::FindingRun,
            DownloadEventView::Run { run_id: None },
        ).1 is NoRun,
        download_step(
            job,
            DownloadState::FindingAttempt { run_id },
            DownloadEventView::Attempt { attempt },
        ).0 == (DownloadState::FindingArtifact { run_id, attempt }),
{
}

/// The artifacts that are listed are those of the repository that have the name of the head
/// and the attempt.
pub proof fn law_artifacts_are_listed_by_name(
    job: DownloadJobView,
    run_id: u64,
    attempt: u64,
    endpoint: Seq<char>,
)
    requires
        find_artifact(job, run_id, attempt).1 == (DownloadActionView::ListArtifacts { endpoint }),
    ensures
        ("repos/"@ + job.repository + "/actions/artifacts?name="@).is_prefix_of(endpoint),
        endpoint.len() == ("repos/"@ + job.repository + "/actions/artifacts?name="@).len()
            + artifact_name(job.head_sha, attempt).len() + "&per_page=100"@.len(),
        endpoint.subrange(
            ("repos/"@ + job.repository + "/actions/artifacts?name="@).len() as int,
            (endpoint.len() - "&per_page=100"@.len()) as int,
        ) == artifact_name(job.head_sha, attempt),
{
    let head = "repos/"@ + job.repository + "/actions/artifacts?name="@;
    let name = artifact_name(job.head_sha, attempt);
    assert(endpoint == head + name + "&per_page=100"@);
    assert(endpoint.subrange(0, head.len() as int) =~= head);
    assert(endpoint.subrange(
        head.len() as int,
        (endpoint.len() - "&per_page=100"@.len()) as int,
    ) =~= name);
}

/// What an artifact is called tells its head and its attempt.
pub proof fn law_artifact_names(head_sha: Seq<char>, attempt: u64)
    ensures
        crate::text::has_text(artifact_name(head_sha, attempt), head_sha),
        decimal_of(attempt as nat).is_suffix_of(artifact_name(head_sha, attempt)),
{
    let name = artifact_name(head_sha, attempt);
    let digits = decimal_of(attempt as nat);
    assert(name.subrange(name.len() - digits.len(), name.len() as int) =~= digits);
    let head = "reviewgate-agent-result-"@;
    assert(name.subrange(head.len() as int, (head.len() + head_sha.len()) as int) =~= head_sha);
    assert(crate::text::occurs_at(name, head_sha, head.len() as int));
}

/// A result that is too large is not accepted, and its error tells the limit.
pub proof fn law_large_results_fail(
    job: DownloadJobView,
    bytes: u64,
    reviewed_sha: Seq<char>,
    scope: ScopeView,
)
    requires
        bytes > job.max_bytes,
    ensures
        download_step(
            job,
            DownloadState::Reading,
            DownloadEventView::Result { bytes, reviewed_sha, scope },
        ).1 matches DownloadActionView::Fail { error } && crate::text::has_text(
            error,
            decimal_of(job.max_bytes as nat),
        ),
{
    let head = "ReviewGate agent result exceeds "@;
    let digits = decimal_of(job.max_bytes as nat);
    let error = head + digits + " bytes"@;
    assert(error.subrange(head.len() as int, (head.len() + digits.len()) as int) =~= digits);
    assert(crate::text::occurs_at(error, digits, head.len() as int));
}

} // verus!
