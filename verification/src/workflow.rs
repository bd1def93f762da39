//! Workflow runs: which there are, which one to join or to rerun, and waiting for it.
use vstd::prelude::*;

use crate::json::{items_at, json_document, read_json, text_at, unsigned_at, Json, JsonView};
use crate::number::{decimal, decimal_of, parse_unsigned, parse_up_to};
use crate::paths::{file_name, file_name_of};
use crate::reading::{
    collect_numbers, numbers_at, outs, paged_records, read_pages, result_view, ReadJson,
};
use crate::text::{
    ascii_alphanumeric, chars_of, concat3, is_ascii_alphanumeric, opt_view, same_text,
};

verus! {

// ---------------------------------------------------------------------------
// Names of workflows
// ---------------------------------------------------------------------------

/// A character of the name of a workflow file.
pub open spec fn workflow_char(c: char) -> bool {
    ascii_alphanumeric(c) || c == '.' || c == '_' || c == '-'
}

/// A workflow file name or numeric id.
pub open spec fn workflow_identifier(workflow: Seq<char>) -> bool {
    workflow.len() > 0 && forall|i: int|
        0 <= i < workflow.len() ==> workflow_char(#[trigger] workflow[i])
}

/// Whether the name is a workflow file name or numeric id.
pub fn is_workflow_identifier(workflow: &str) -> (r: bool)
    ensures
        r == workflow_identifier(workflow@),
{
    let v = chars_of(workflow);
    if v.len() == 0 {
        return false;
    }
    let mut i: usize = 0;
    while i < v.len()
        invariant
            i <= v@.len(),
            v@ == workflow@,
            forall|k: int| 0 <= k < i ==> workflow_char(#[trigger] v@[k]),
        decreases v@.len() - i,
    {
        let c = v[i];
        if !(is_ascii_alphanumeric(c) || c == '.' || c == '_' || c == '-') {
            return false;
        }
        i += 1;
    }
    true
}

/// Accepts a workflow file name or numeric id, and says what is wrong with anything else.
pub fn validate_workflow_identifier(workflow: &str) -> (r: Result<(), String>)
    ensures
        match r {
            Ok(_) => workflow_identifier(workflow@),
            Err(e) => !workflow_identifier(workflow@) && e@
                == "workflow must be a workflow file name or numeric id containing only letters, numbers, '.', '_', or '-'"@,
        },
{
    if is_workflow_identifier(workflow) {
        Ok(())
    } else {
        Err(
            "workflow must be a workflow file name or numeric id containing only letters, numbers, '.', '_', or '-'"
                .to_owned(),
        )
    }
}

/// A workflow identifier holds nothing that would change the endpoint that it stands in.
pub proof fn law_workflow_identifiers_are_plain(workflow: Seq<char>)
    requires
        workflow_identifier(workflow),
    ensures
        !workflow.contains('/'),
        !workflow.contains('?'),
        !workflow.contains('&'),
        !workflow.contains('='),
        !workflow.contains(' '),
{
    assert forall|i: int| 0 <= i < workflow.len() implies workflow_char(#[trigger] workflow[i]) by {
    }
}

// ---------------------------------------------------------------------------
// Workflows of a repository
// ---------------------------------------------------------------------------

/// A workflow of a repository.
#[derive(Debug, PartialEq, Eq)]
pub struct RepositoryWorkflow {
    pub id: u64,
    pub name: String,
    pub path: String,
}

/// What a workflow of a repository says.
pub struct WorkflowView {
    pub id: u64,
    pub name: Seq<char>,
    pub path: Seq<char>,
}

impl View for RepositoryWorkflow {
    type V = WorkflowView;

    open spec fn view(&self) -> WorkflowView {
        WorkflowView { id: self.id, name: self.name@, path: self.path@ }
    }
}

/// What the workflow in a value says, or what it lacks.
pub open spec fn workflow_in(v: JsonView) -> Result<WorkflowView, Seq<char>> {
    match unsigned_at(v, "id"@) {
        None => Err("repository workflow did not include id"@),
        Some(id) => match text_at(v, "name"@) {
            None => Err("repository workflow did not include name"@),
            Some(name) => match text_at(v, "path"@) {
                None => Err("repository workflow did not include path"@),
                Some(path) => Ok(WorkflowView { id, name, path }),
            },
        },
    }
}

impl ReadJson for RepositoryWorkflow {
    type Out = WorkflowView;

    open spec fn out(self) -> WorkflowView {
        self@
    }

    open spec fn read(v: JsonView) -> Result<WorkflowView, Seq<char>> {
        workflow_in(v)
    }

    fn read_record(v: &Json) -> (r: Result<Self, String>) {
        let id = match v.u64_at("id") {
            Some(n) => n,
            None => {
                return Err("repository workflow did not include id".to_owned());
            },
        };
        let name = match v.text_at("name") {
            Some(t) => t.to_owned(),
            None => {
                return Err("repository workflow did not include name".to_owned());
            },
        };
        match v.text_at("path") {
            Some(t) => Ok(RepositoryWorkflow { id, name, path: t.to_owned() }),
            None => Err("repository workflow did not include path".to_owned()),
        }
    }
}

/// What a reply with the workflows of a repository says.
pub open spec fn workflows_in(reply: Option<JsonView>) -> Result<Seq<WorkflowView>, Seq<char>> {
    paged_records::<RepositoryWorkflow>(
        reply,
        "workflows"@,
        "failed to parse repository workflows JSON"@,
        "repository workflows response did not include workflows"@,
    )
}

/// What lists of workflows say.
pub open spec fn workflow_views(s: Seq<RepositoryWorkflow>) -> Seq<WorkflowView> {
    s.map_values(|w: RepositoryWorkflow| w@)
}

/// The workflows that a reply lists.
pub fn repository_workflows(reply: &Json) -> (r: Result<Vec<RepositoryWorkflow>, String>)
    ensures
        match r {
            Ok(v) => workflows_in(Some(reply@)) == Ok::<Seq<WorkflowView>, Seq<char>>(
                workflow_views(v@),
            ),
            Err(e) => workflows_in(Some(reply@)) == Err::<Seq<WorkflowView>, Seq<char>>(e@),
        },
{
    let r = read_pages::<RepositoryWorkflow>(
        reply,
        "workflows",
        "failed to parse repository workflows JSON",
        "repository workflows response did not include workflows",
    );
    proof {
        if r is Ok {
            assert(outs(r->Ok_0@) =~= workflow_views(r->Ok_0@));
        }
    }
    r
}

/// The workflows that the text of a reply lists.
pub fn parse_repository_workflows(raw: &str) -> (r: Result<Vec<RepositoryWorkflow>, String>)
    ensures
        match r {
            Ok(v) => workflows_in(json_document(raw@)) == Ok::<Seq<WorkflowView>, Seq<char>>(
                workflow_views(v@),
            ),
            Err(e) => workflows_in(json_document(raw@)) == Err::<Seq<WorkflowView>, Seq<char>>(e@),
        },
{
    match read_json(raw) {
        Some(reply) => repository_workflows(&reply),
        None => Err("failed to parse repository workflows JSON".to_owned()),
    }
}

/// A workflow answers to a selector: by path, by name or by file name.
pub open spec fn selected_by(w: WorkflowView, selector: Seq<char>) -> bool {
    w.path == selector || w.name == selector || file_name_of(w.path) == Some(selector)
}

/// The workflow with this id answers to the selector.
pub open spec fn selectable(s: Seq<WorkflowView>, selector: Seq<char>, id: u64) -> bool {
    exists|k: int|
        0 <= k < s.len() && (#[trigger] s[k]).id == id && selected_by(s[k], selector)
}

/// How a selector resolves: a number stands for itself, and a name for the one workflow
/// that answers to it.
pub open spec fn resolves_to(s: Seq<WorkflowView>, selector: Seq<char>, id: u64) -> bool {
    match parse_unsigned(selector, u64::MAX as nat) {
        Some(n) => id == n,
        None => selectable(s, selector, id) && forall|other: u64|
            selectable(s, selector, other) ==> other == id,
    }
}

/// Two workflows answer to the selector.
pub open spec fn ambiguous(s: Seq<WorkflowView>, selector: Seq<char>) -> bool {
    exists|a: u64, b: u64|
        a != b && #[trigger] selectable(s, selector, a) && #[trigger] selectable(s, selector, b)
}

/// Why a workflow could not be told from its selector.
#[derive(Debug, Clone, Copy, PartialEq, Eq, Structural)]
pub enum WorkflowSelectorError {
    Ambiguous,
    Unmatched,
}

fn is_selected(w: &RepositoryWorkflow, selector: &str) -> (r: bool)
    ensures
        r == selected_by(w@, selector@),
{
    if same_text(w.path.as_str(), selector) || same_text(w.name.as_str(), selector) {
        return true;
    }
    match file_name(w.path.as_str()) {
        Some(name) => same_text(name.as_str(), selector),
        None => false,
    }
}

/// The id of the workflow that a selector stands for.
pub fn resolve_workflow_id(selector: &str, workflows: &Vec<RepositoryWorkflow>) -> (r: Result<
    u64,
    WorkflowSelectorError,
>)
    ensures
        match r {
            Ok(id) => resolves_to(workflow_views(workflows@), selector@, id),
            Err(WorkflowSelectorError::Ambiguous) => parse_unsigned(selector@, u64::MAX as nat)
                is None && ambiguous(workflow_views(workflows@), selector@),
            Err(WorkflowSelectorError::Unmatched) => parse_unsigned(selector@, u64::MAX as nat)
                is None && forall|id: u64|
                !selectable(workflow_views(workflows@), selector@, id),
        },
{
    if let Some(id) = parse_up_to(selector, u64::MAX) {
        return Ok(id);
    }
    let ghost all = workflow_views(workflows@);
    let mut found: Option<u64> = None;
    let mut i: usize = 0;
    while i < workflows.len()
        invariant
            i <= workflows@.len(),
            all == workflow_views(workflows@),
            parse_unsigned(selector@, u64::MAX as nat) is None,
            match found {
                Some(id) => selectable(all, selector@, id) && forall|k: int|
                    0 <= k < i && selected_by(#[trigger] all[k], selector@) ==> all[k].id == id,
                None => forall|k: int| 0 <= k < i ==> !selected_by(#[trigger] all[k], selector@),
            },
        decreases workflows@.len() - i,
    {
        let w = &workflows[i];
        proof {
            assert(all[i as int] == w@);
        }
        if is_selected(w, selector) {
            proof {
                assert(selectable(all, selector@, w.id));
            }
            match found {
                Some(id) => if id != w.id {
                    return Err(WorkflowSelectorError::Ambiguous);
                },
                None => {
                    found = Some(w.id);
                },
            }
        }
        i += 1;
    }
    match found {
        Some(id) => Ok(id),
        None => Err(WorkflowSelectorError::Unmatched),
    }
}

/// A selector resolves to at most one workflow.
pub proof fn law_selectors_resolve_once(s: Seq<WorkflowView>, selector: Seq<char>, a: u64, b: u64)
    requires
        resolves_to(s, selector, a),
        resolves_to(s, selector, b),
    ensures
        a == b,
{
}

/// How a selector is resolved: a number at once, a name by the workflows of the
/// repository.
#[derive(Debug, PartialEq, Eq)]
pub enum WorkflowLookup {
    Known(u64),
    Fetch(String),
}

/// How a selector is resolved: a number at once, a name by the workflows that the reply
/// of an endpoint lists.
pub fn resolve_recheck_workflow_id(repository: &str, selector: &str) -> (r: WorkflowLookup)
    ensures
        match r {
            WorkflowLookup::Known(id) => parse_unsigned(selector@, u64::MAX as nat) == Some(
                id as nat,
            ),
            WorkflowLookup::Fetch(endpoint) => parse_unsigned(selector@, u64::MAX as nat) is None
                && endpoint@ == workflows_endpoint(repository@),
        },
{
    match parse_up_to(selector, u64::MAX) {
        Some(id) => WorkflowLookup::Known(id),
        None => WorkflowLookup::Fetch(fetch_repository_workflows(repository)),
    }
}

// ---------------------------------------------------------------------------
// Endpoints
// ---------------------------------------------------------------------------

/// Where the workflows of a repository are listed.
pub open spec fn workflows_endpoint(repository: Seq<char>) -> Seq<char> {
    "repos/"@ + repository + "/actions/workflows?per_page=100"@
}

/// Where the workflows of a repository are listed.
pub fn fetch_repository_workflows(repository: &str) -> (r: String)
    ensures
        r@ == workflows_endpoint(repository@),
{
    concat3("repos/", repository, "/actions/workflows?per_page=100")
}

/// Where the completed runs of a workflow for a head are listed.
pub open spec fn completed_runs_endpoint(
    repository: Seq<char>,
    workflow: Seq<char>,
    head_sha: Seq<char>,
) -> Seq<char> {
    "repos/"@ + repository + "/actions/workflows/"@ + workflow
        + "/runs?event=pull_request&status=completed&head_sha="@ + head_sha + "&per_page=100"@
}

/// Where the completed runs of a workflow for a head are listed.
pub fn workflow_runs_endpoint(repository: &str, workflow: &str, head_sha: &str) -> (r: String)
    ensures
        r@ == completed_runs_endpoint(repository@, workflow@, head_sha@),
{
    let mut r = concat3("repos/", repository, "/actions/workflows/");
    r.append(workflow);
    r.append("/runs?event=pull_request&status=completed&head_sha=");
    r.append(head_sha);
    r.append("&per_page=100");
    r
}

/// Where the runs of a workflow for a head are listed, whatever their status.
pub open spec fn current_runs_endpoint(
    repository: Seq<char>,
    workflow: Seq<char>,
    head_sha: Seq<char>,
) -> Seq<char> {
    "repos/"@ + repository + "/actions/workflows/"@ + workflow
        + "/runs?event=pull_request&head_sha="@ + head_sha + "&per_page=100"@
}

/// Where the runs of a workflow for a head are listed, whatever their status.
pub fn current_workflow_runs_endpoint(
    repository: &str,
    workflow: &str,
    head_sha: &str,
) -> (r: String)
    ensures
        r@ == current_runs_endpoint(repository@, workflow@, head_sha@),
{
    let mut r = concat3("repos/", repository, "/actions/workflows/");
    r.append(workflow);
    r.append("/runs?event=pull_request&head_sha=");
    r.append(head_sha);
    r.append("&per_page=100");
    r
}

/// Where a run is described.
pub open spec fn run_endpoint(repository: Seq<char>, run_id: u64) -> Seq<char> {
    "repos/"@ + repository + "/actions/runs/"@ + decimal_of(run_id as nat)
}

/// Where a run is described.
pub fn fetch_workflow_run_state(repository: &str, run_id: u64) -> (r: String)
    ensures
        r@ == run_endpoint(repository@, run_id),
{
    let id = decimal(run_id);
    let mut r = concat3("repos/", repository, "/actions/runs/");
    r.append(id.as_str());
    r
}

/// Where a rerun is asked for.
pub fn rerun_workflow(repository: &str, run_id: u64) -> (r: String)
    ensures
        r@ == run_endpoint(repository@, run_id) + "/rerun"@,
{
    let mut r = fetch_workflow_run_state(repository, run_id);
    r.append("/rerun");
    r
}

/// Where the permission of a user is told.
pub fn fetch_actor_write_permission(repository: &str, actor_login: &str) -> (r: String)
    ensures
        r@ == "repos/"@ + repository@ + "/collaborators/"@ + actor_login@ + "/permission"@,
{
    let mut r = concat3("repos/", repository, "/collaborators/");
    r.append(actor_login);
    r.append("/permission");
    r
}

// ---------------------------------------------------------------------------
// Runs
// ---------------------------------------------------------------------------

/// A workflow run.
#[derive(Debug, PartialEq, Eq)]
pub struct WorkflowRunCandidate {
    pub id: u64,
    pub url: String,
    pub repository: String,
    pub event: String,
    pub status: String,
    pub head_sha: String,
    pub pull_request_numbers: Vec<u64>,
    pub created_at: String,
}

/// What a workflow run says.
pub struct RunView {
    pub id: u64,
    pub url: Seq<char>,
    pub repository: Seq<char>,
    pub event: Seq<char>,
    pub status: Seq<char>,
    pub head_sha: Seq<char>,
    pub pull_request_numbers: Seq<u64>,
    pub created_at: Seq<char>,
}

impl View for WorkflowRunCandidate {
    type V = RunView;

    open spec fn view(&self) -> RunView {
        RunView {
            id: self.id,
            url: self.url@,
            repository: self.repository@,
            event: self.event@,
            status: self.status@,
            head_sha: self.head_sha@,
            pull_request_numbers: self.pull_request_numbers@,
            created_at: self.created_at@,
        }
    }
}

/// The numbers of the pull requests of a run.
pub open spec fn run_pull_requests(v: JsonView) -> Seq<u64> {
    match items_at(v, "pull_requests"@) {
        Some(items) => numbers_at(items, "number"@),
        None => Seq::empty(),
    }
}

/// What the run in a value says, or what it lacks.
pub open spec fn run_in(v: JsonView) -> Result<RunView, Seq<char>> {
    match unsigned_at(v, "id"@) {
        None => Err("workflow run did not include id"@),
        Some(id) => match (
            text_at(v, "html_url"@),
            text_at(v, "repository.full_name"@),
            text_at(v, "event"@),
            text_at(v, "status"@),
            text_at(v, "head_sha"@),
            text_at(v, "created_at"@),
        ) {
            (None, _, _, _, _, _) => Err("workflow run did not include html_url"@),
            (_, None, _, _, _, _) => Err("workflow run did not include repository"@),
            (_, _, None, _, _, _) => Err("workflow run did not include event"@),
            (_, _, _, None, _, _) => Err("workflow run did not include status"@),
            (_, _, _, _, None, _) => Err("workflow run did not include head_sha"@),
            (_, _, _, _, _, None) => Err("workflow run did not include created_at"@),
            (
                Some(url),
                Some(repository),
                Some(event),
                Some(status),
                Some(head_sha),
                Some(created_at),
            ) => Ok(
                RunView {
                    id,
                    url,
                    repository,
                    event,
                    status,
                    head_sha,
                    pull_request_numbers: run_pull_requests(v),
                    created_at,
                },
            ),
        },
    }
}

impl ReadJson for WorkflowRunCandidate {
    type Out = RunView;

    open spec fn out(self) -> RunView {
        self@
    }

    open spec fn read(v: JsonView) -> Result<RunView, Seq<char>> {
        run_in(v)
    }

    fn read_record(v: &Json) -> (r: Result<Self, String>) {
        let id = match v.u64_at("id") {
            Some(n) => n,
            None => {
                return Err("workflow run did not include id".to_owned());
            },
        };
        let pull_request_numbers: Vec<u64> = match v.list_at("pull_requests") {
            Some(items) => collect_numbers(items, "number"),
            None => Vec::new(),
        };
        let url = match v.text_at("html_url") {
            Some(t) => t.to_owned(),
            None => {
                return Err("workflow run did not include html_url".to_owned());
            },
        };
        let repository = match v.text_at("repository.full_name") {
            Some(t) => t.to_owned(),
            None => {
                return Err("workflow run did not include repository".to_owned());
            },
        };
        let event = match v.text_at("event") {
            Some(t) => t.to_owned(),
            None => {
                return Err("workflow run did not include event".to_owned());
            },
        };
        let status = match v.text_at("status") {
            Some(t) => t.to_owned(),
            None => {
                return Err("workflow run did not include status".to_owned());
            },
        };
        let head_sha = match v.text_at("head_sha") {
            Some(t) => t.to_owned(),
            None => {
                return Err("workflow run did not include head_sha".to_owned());
            },
        };
        match v.text_at("created_at") {
            Some(t) => Ok(
                WorkflowRunCandidate {
                    id,
                    url,
                    repository,
                    event,
                    status,
                    head_sha,
                    pull_request_numbers,
                    created_at: t.to_owned(),
                },
            ),
            None => Err("workflow run did not include created_at".to_owned()),
        }
    }
}

/// What a reply with workflow runs says.
pub open spec fn runs_in(reply: Option<JsonView>) -> Result<Seq<RunView>, Seq<char>> {
    paged_records::<WorkflowRunCandidate>(
        reply,
        "workflow_runs"@,
        "failed to parse workflow runs JSON"@,
        "workflow runs response did not include workflow_runs"@,
    )
}

/// What lists of runs say.
pub open spec fn run_views(s: Seq<WorkflowRunCandidate>) -> Seq<RunView> {
    s.map_values(|w: WorkflowRunCandidate| w@)
}

/// The runs that a reply lists.
pub fn workflow_run_candidates(reply: &Json) -> (r: Result<Vec<WorkflowRunCandidate>, String>)
    ensures
        match r {
            Ok(v) => runs_in(Some(reply@)) == Ok::<Seq<RunView>, Seq<char>>(run_views(v@)),
            Err(e) => runs_in(Some(reply@)) == Err::<Seq<RunView>, Seq<char>>(e@),
        },
{
    let r = read_pages::<WorkflowRunCandidate>(
        reply,
        "workflow_runs",
        "failed to parse workflow runs JSON",
        "workflow runs response did not include workflow_runs",
    );
    proof {
        if r is Ok {
            assert(outs(r->Ok_0@) =~= run_views(r->Ok_0@));
        }
    }
    r
}

/// The runs that the text of a reply lists.
pub fn parse_workflow_run_candidates(raw: &str) -> (r: Result<Vec<WorkflowRunCandidate>, String>)
    ensures
        match r {
            Ok(v) => runs_in(json_document(raw@)) == Ok::<Seq<RunView>, Seq<char>>(run_views(v@)),
            Err(e) => runs_in(json_document(raw@)) == Err::<Seq<RunView>, Seq<char>>(e@),
        },
{
    match read_json(raw) {
        Some(reply) => workflow_run_candidates(&reply),
        None => Err("failed to parse workflow runs JSON".to_owned()),
    }
}

/// The state of a run.
#[derive(Debug, PartialEq, Eq)]
pub struct WorkflowRunState {
    pub run_attempt: u64,
    pub status: String,
    pub conclusion: Option<String>,
    pub event: String,
    pub head_sha: String,
}

/// What the state of a run says.
pub struct RunStateView {
    pub run_attempt: u64,
    pub status: Seq<char>,
    pub conclusion: Option<Seq<char>>,
    pub event: Seq<char>,
    pub head_sha: Seq<char>,
}

impl View for WorkflowRunState {
    type V = RunStateView;

    open spec fn view(&self) -> RunStateView {
        RunStateView {
            run_attempt: self.run_attempt,
            status: self.status@,
            conclusion: opt_view(self.conclusion),
            event: self.event@,
            head_sha: self.head_sha@,
        }
    }
}

/// What a reply with the state of a run says, or what it lacks.
pub open spec fn run_state_in(reply: Option<JsonView>) -> Result<RunStateView, Seq<char>> {
    match reply {
        None => Err("failed to parse workflow run JSON"@),
        Some(v) => match unsigned_at(v, "run_attempt"@) {
            None => Err("workflow run did not include run_attempt"@),
            Some(run_attempt) => match text_at(v, "status"@) {
                None => Err("workflow run did not include status"@),
                Some(status) => match text_at(v, "event"@) {
                    None => Err("workflow run did not include event"@),
                    Some(event) => match text_at(v, "head_sha"@) {
                        None => Err("workflow run did not include head_sha"@),
                        Some(head_sha) => Ok(
                            RunStateView {
                                run_attempt,
                                status,
                                conclusion: text_at(v, "conclusion"@),
                                event,
                                head_sha,
                            },
                        ),
                    },
                },
            },
        },
    }
}

/// The state that a reply tells of a run.
pub fn workflow_run_state(reply: &Json) -> (r: Result<WorkflowRunState, String>)
    ensures
        result_view(r) == run_state_in(Some(reply@)),
{
    let run_attempt = match reply.u64_at("run_attempt") {
        Some(n) => n,
        None => {
            return Err("workflow run did not include run_attempt".to_owned());
        },
    };
    let status = match reply.text_at("status") {
        Some(t) => t.to_owned(),
        None => {
            return Err("workflow run did not include status".to_owned());
        },
    };
    let conclusion = match reply.text_at("conclusion") {
        Some(t) => Some(t.to_owned()),
        None => None,
    };
    let event = match reply.text_at("event") {
        Some(t) => t.to_owned(),
        None => {
            return Err("workflow run did not include event".to_owned());
        },
    };
    match reply.text_at("head_sha") {
        Some(t) => Ok(
            WorkflowRunState { run_attempt, status, conclusion, event, head_sha: t.to_owned() },
        ),
        None => Err("workflow run did not include head_sha".to_owned()),
    }
}

/// The state that the text of a reply tells of a run.
pub fn parse_workflow_run_state(raw: &str) -> (r: Result<WorkflowRunState, String>)
    ensures
        result_view(r) == run_state_in(json_document(raw@)),
{
    match read_json(raw) {
        Some(reply) => workflow_run_state(&reply),
        None => Err("failed to parse workflow run JSON".to_owned()),
    }
}

// ---------------------------------------------------------------------------
// Starting and waiting
// ---------------------------------------------------------------------------

/// How a review run is started.
#[derive(Debug, Clone, Copy, PartialEq, Eq, Structural)]
pub enum ReviewRunStart {
    Join { expected_attempt: u64 },
    Rerun { expected_attempt: u64 },
}

/// The attempt that follows, as far as it can be counted.
pub open spec fn attempt_after(n: u64) -> u64 {
    if n < u64::MAX {
        (n + 1) as u64
    } else {
        u64::MAX
    }
}

/// How a run in this state is started, if it can be.
pub open spec fn run_start(state: RunStateView, join_active: bool) -> Option<ReviewRunStart> {
    if state.status == "completed"@ {
        Some(ReviewRunStart::Rerun { expected_attempt: attempt_after(state.run_attempt) })
    } else if join_active {
        Some(ReviewRunStart::Join { expected_attempt: state.run_attempt })
    } else {
        None
    }
}

/// How a run in this state is started: a completed one is run again, an active one is
/// joined where that is asked for.
pub fn plan_review_run_start(state: &WorkflowRunState, join_active: bool) -> (r: Result<
    ReviewRunStart,
    String,
>)
    ensures
        match r {
            Ok(start) => run_start(state@, join_active) == Some(start),
            Err(e) => run_start(state@, join_active) is None && e@ == "workflow run became "@
                + state@.status + " before ReviewGate could request a rerun"@,
        },
{
    if same_text(state.status.as_str(), "completed") {
        return Ok(
            ReviewRunStart::Rerun { expected_attempt: state.run_attempt.saturating_add(1) },
        );
    }
    if join_active {
        return Ok(ReviewRunStart::Join { expected_attempt: state.run_attempt });
    }
    Err(
        concat3(
            "workflow run became ",
            state.status.as_str(),
            " before ReviewGate could request a rerun",
        ),
    )
}

/// The run is one of a pull request at this head.
pub open spec fn run_matches(state: RunStateView, head_sha: Seq<char>) -> bool {
    state.event == "pull_request"@ && state.head_sha == head_sha
}

/// Why a run is not the one that was looked for.
pub open spec fn mismatch_text(run_id: u64, head_sha: Seq<char>) -> Seq<char> {
    "workflow run "@ + decimal_of(run_id as nat)
        + " no longer matches the expected pull_request head "@ + head_sha
}

fn mismatch_message(run_id: u64, head_sha: &str) -> (r: String)
    ensures
        r@ == mismatch_text(run_id, head_sha@),
{
    let id = decimal(run_id);
    let mut r = concat3(
        "workflow run ",
        id.as_str(),
        " no longer matches the expected pull_request head ",
    );
    r.append(head_sha);
    r
}

/// Whether the run is one of a pull request at this head.
pub fn matches_head(state: &WorkflowRunState, head_sha: &str) -> (r: bool)
    ensures
        r == run_matches(state@, head_sha@),
{
    same_text(state.event.as_str(), "pull_request") && same_text(state.head_sha.as_str(), head_sha)
}

/// What is done with a run that was selected, once its state is known.
pub fn start_selected_run(
    run_id: u64,
    state: &WorkflowRunState,
    head_sha: &str,
    join_active: bool,
) -> (r: Result<ReviewRunStart, String>)
    ensures
        match r {
            Ok(start) => run_matches(state@, head_sha@) && run_start(state@, join_active) == Some(
                start,
            ),
            Err(e) => if !run_matches(state@, head_sha@) {
                e@ == mismatch_text(run_id, head_sha@)
            } else {
                run_start(state@, join_active) is None && e@ == "workflow run became "@
                    + state@.status + " before ReviewGate could request a rerun"@
            },
        },
{
    if !matches_head(state, head_sha) {
        return Err(mismatch_message(run_id, head_sha));
    }
    plan_review_run_start(state, join_active)
}

/// What is done while an attempt is waited for.
#[derive(Debug, PartialEq, Eq)]
pub enum WaitStep {
    /// The attempt is complete.
    Done,
    /// Sleep, and ask again.
    Sleep { nanos: u64 },
    /// Give up.
    Fail(String),
}

/// What is done while an attempt is waited for.
pub enum WaitView {
    Done,
    Sleep { nanos: u64 },
    Fail(Seq<char>),
}

impl View for WaitStep {
    type V = WaitView;

    open spec fn view(&self) -> WaitView {
        match self {
            WaitStep::Done => WaitView::Done,
            WaitStep::Sleep { nanos } => WaitView::Sleep { nanos: *nanos },
            WaitStep::Fail(e) => WaitView::Fail(e@),
        }
    }
}

/// How many nanoseconds a second has.
pub const NANOS_PER_SECOND: u64 = 1_000_000_000;

/// What is done once the state of the run is known: it is over when the expected attempt
/// is complete; it has failed when the run is another, the attempt is passed or the time
/// is up.
pub open spec fn wait_view(
    state: RunStateView,
    run_id: u64,
    expected_attempt: u64,
    head_sha: Seq<char>,
    elapsed: u64,
    timeout: u64,
    poll_interval: u64,
) -> WaitView {
    let id = decimal_of(run_id as nat);
    if !run_matches(state, head_sha) {
        WaitView::Fail(mismatch_text(run_id, head_sha))
    } else if state.run_attempt > expected_attempt {
        WaitView::Fail(
            "ReviewGate run "@ + id + " advanced to attempt "@ + decimal_of(
                state.run_attempt as nat,
            ) + " while waiting for attempt "@ + decimal_of(expected_attempt as nat),
        )
    } else if state.run_attempt == expected_attempt && state.status == "completed"@ {
        WaitView::Done
    } else if elapsed >= timeout {
        WaitView::Fail(
            "timed out after "@ + decimal_of((timeout / NANOS_PER_SECOND) as nat)
                + "s waiting for ReviewGate run "@ + id + " attempt "@ + decimal_of(
                expected_attempt as nat,
            ),
        )
    } else {
        WaitView::Sleep {
            nanos: if poll_interval <= timeout - elapsed {
                poll_interval
            } else {
                (timeout - elapsed) as u64
            },
        }
    }
}

/// What is done next while an attempt of a run is waited for, once its state is known.
pub fn wait_for_workflow_attempt(
    state: &WorkflowRunState,
    run_id: u64,
    expected_attempt: u64,
    expected_head_sha: &str,
    elapsed_nanos: u64,
    timeout_nanos: u64,
    poll_interval_nanos: u64,
) -> (r: WaitStep)
    ensures
        r@ == wait_view(
            state@,
            run_id,
            expected_attempt,
            expected_head_sha@,
            elapsed_nanos,
            timeout_nanos,
            poll_interval_nanos,
        ),
{
    if !matches_head(state, expected_head_sha) {
        return WaitStep::Fail(mismatch_message(run_id, expected_head_sha));
    }
    let id = decimal(run_id);
    let expected = decimal(expected_attempt);
    if state.run_attempt > expected_attempt {
        let at = decimal(state.run_attempt);
        let mut e = concat3("ReviewGate run ", id.as_str(), " advanced to attempt ");
        e.append(at.as_str());
        e.append(" while waiting for attempt ");
        e.append(expected.as_str());
        return WaitStep::Fail(e);
    }
    if state.run_attempt == expected_attempt && same_text(state.status.as_str(), "completed") {
        return WaitStep::Done;
    }
    if elapsed_nanos >= timeout_nanos {
        let seconds = decimal(timeout_nanos / NANOS_PER_SECOND);
        let mut e = concat3("timed out after ", seconds.as_str(), "s waiting for ReviewGate run ");
        e.append(id.as_str());
        e.append(" attempt ");
        e.append(expected.as_str());
        return WaitStep::Fail(e);
    }
    let remaining: u64 = timeout_nanos - elapsed_nanos;
    let nanos: u64 = if poll_interval_nanos <= remaining {
        poll_interval_nanos
    } else {
        remaining
    };
    WaitStep::Sleep { nanos }
}

/// Waiting ends well only for the attempt that was expected, completed, of a pull request
/// at the expected head; and it never sleeps past the end of its time.
pub proof fn law_waiting(
    state: RunStateView,
    run_id: u64,
    expected_attempt: u64,
    head_sha: Seq<char>,
    elapsed: u64,
    timeout: u64,
    poll_interval: u64,
)
    ensures
        match wait_view(
            state,
            run_id,
            expected_attempt,
            head_sha,
            elapsed,
            timeout,
            poll_interval,
        ) {
            WaitView::Done => state.run_attempt == expected_attempt && state.status == "completed"@
                && state.event == "pull_request"@ && state.head_sha == head_sha,
            WaitView::Sleep { nanos } => elapsed + nanos <= timeout && nanos <= poll_interval,
            WaitView::Fail(_) => true,
        },
{
}

// ---------------------------------------------------------------------------
// What holds of it
// ---------------------------------------------------------------------------

/// A workflow is named by letters, digits, dots, underscores and hyphens alone.
pub proof fn law_workflow_identifiers(workflow: Seq<char>)
    ensures
        workflow_identifier(workflow) <==> workflow.len() > 0 && forall|i: int|
            0 <= i < workflow.len() ==> ('0' <= #[trigger] workflow[i] <= '9' || 'a' <= workflow[i]
                <= 'z' || 'A' <= workflow[i] <= 'Z' || workflow[i] == '.' || workflow[i] == '_'
                || workflow[i] == '-'),
{
    if workflow_identifier(workflow) {
        assert forall|i: int| 0 <= i < workflow.len() implies ('0' <= #[trigger] workflow[i] <= '9'
            || 'a' <= workflow[i] <= 'z' || 'A' <= workflow[i] <= 'Z' || workflow[i] == '.'
            || workflow[i] == '_' || workflow[i] == '-') by {
            assert(workflow_char(workflow[i]));
        }
    }
}

/// A selector selects a workflow by its path, its name or the name of its file; a number
/// selects by number alone.
pub proof fn law_selectors(s: Seq<WorkflowView>, selector: Seq<char>, k: int, n: u64)
    requires
        0 <= k < s.len(),
    ensures
        s[k].path == selector || s[k].name == selector || file_name_of(s[k].path) == Some(selector)
            ==> selectable(s, selector, s[k].id),
        (forall|j: int|
            0 <= j < s.len() ==> (#[trigger] s[j]).path != selector && s[j].name != selector
                && file_name_of(s[j].path) != Some(selector)) ==> forall|id: u64|
            !selectable(s, selector, id),
        resolves_to(s, decimal_of(n as nat), n),
        parse_unsigned(selector, u64::MAX as nat) is None && resolves_to(s, selector, n)
            ==> selectable(s, selector, n),
        ambiguous(s, selector) && parse_unsigned(selector, u64::MAX as nat) is None ==> !resolves_to(
            s,
            selector,
            n,
        ),
{
    crate::number::law_decimal_is_read_back(n as nat, u64::MAX as nat);
    if ambiguous(s, selector) {
        let (a, b) = choose|a: u64, b: u64|
            a != b && #[trigger] selectable(s, selector, a) && #[trigger] selectable(
                s,
                selector,
                b,
            );
        assert(a != n || b != n);
    }
}

/// A workflow is read exactly if it has a number, a name and a path.
pub proof fn law_workflows_are_read(v: JsonView)
    ensures
        workflow_in(v) is Ok <==> unsigned_at(v, "id"@) is Some && text_at(v, "name"@) is Some
            && text_at(v, "path"@) is Some,
        workflow_in(v) matches Ok(w) ==> unsigned_at(v, "id"@) == Some(w.id) && text_at(
            v,
            "name"@,
        ) == Some(w.name) && text_at(v, "path"@) == Some(w.path),
{
}

/// A run is read exactly if it says all that is asked of it.
pub proof fn law_runs_are_read(v: JsonView)
    ensures
        run_in(v) is Ok <==> unsigned_at(v, "id"@) is Some && text_at(v, "html_url"@) is Some
            && text_at(v, "repository.full_name"@) is Some && text_at(v, "event"@) is Some
            && text_at(v, "status"@) is Some && text_at(v, "head_sha"@) is Some && text_at(
            v,
            "created_at"@,
        ) is Some,
        run_in(v) matches Ok(r) ==> unsigned_at(v, "id"@) == Some(r.id) && text_at(v, "html_url"@)
            == Some(r.url) && text_at(v, "repository.full_name"@) == Some(r.repository) && text_at(
            v,
            "event"@,
        ) == Some(r.event) && text_at(v, "status"@) == Some(r.status) && text_at(v, "head_sha"@)
            == Some(r.head_sha) && text_at(v, "created_at"@) == Some(r.created_at),
        run_state_in(Some(v)) matches Ok(s) ==> unsigned_at(v, "run_attempt"@) == Some(
            s.run_attempt,
        ) && text_at(v, "status"@) == Some(s.status) && text_at(v, "event"@) == Some(s.event)
            && text_at(v, "head_sha"@) == Some(s.head_sha) && text_at(v, "conclusion"@)
            == s.conclusion,
        run_state_in(Some(v)) is Ok <==> unsigned_at(v, "run_attempt"@) is Some && text_at(
            v,
            "status"@,
        ) is Some && text_at(v, "event"@) is Some && text_at(v, "head_sha"@) is Some,
        run_state_in(None) is Err,
{
}

/// A run that is complete is started again as the next attempt; one that is active is
/// joined where that is allowed, and otherwise nothing is started.
pub proof fn law_runs_are_started_or_joined(state: RunStateView, join_active: bool)
    ensures
        state.status == "completed"@ && state.run_attempt < u64::MAX ==> run_start(
            state,
            join_active,
        ) == Some(ReviewRunStart::Rerun { expected_attempt: (state.run_attempt + 1) as u64 }),
        state.status != "completed"@ && join_active ==> run_start(state, join_active) == Some(
            ReviewRunStart::Join { expected_attempt: state.run_attempt },
        ),
        state.status != "completed"@ && !join_active ==> run_start(state, join_active) is None,
{
}

/// Waiting ends exactly if the attempt is complete or can no longer come in time; until
/// then it goes on, one interval at a time.
pub proof fn law_waiting_goes_on(
    state: RunStateView,
    run_id: u64,
    expected_attempt: u64,
    head_sha: Seq<char>,
    elapsed: u64,
    timeout: u64,
    poll_interval: u64,
)
    ensures
        ({
            let w = wait_view(
                state,
                run_id,
                expected_attempt,
                head_sha,
                elapsed,
                timeout,
                poll_interval,
            );
            let ours = state.event == "pull_request"@ && state.head_sha == head_sha;
            let done = state.run_attempt == expected_attempt && state.status == "completed"@;
            &&& !ours ==> w is Fail
            &&& state.run_attempt > expected_attempt ==> w is Fail
            &&& ours && done ==> w == WaitView::Done
            &&& ours && !done && state.run_attempt <= expected_attempt && elapsed >= timeout
                ==> w is Fail
            &&& ours && !done && state.run_attempt <= expected_attempt && elapsed < timeout
                && elapsed + poll_interval <= timeout ==> w == (WaitView::Sleep {
                nanos: poll_interval,
            })
            &&& ours && !done && state.run_attempt <= expected_attempt && elapsed < timeout
                && elapsed + poll_interval > timeout ==> w == (WaitView::Sleep {
                nanos: (timeout - elapsed) as u64,
            })
        }),
{
}

/// A run that no longer fits is told with its number and with the head that was expected.
pub proof fn law_mismatches_are_told(run_id: u64, head_sha: Seq<char>)
    ensures
        head_sha.is_suffix_of(mismatch_text(run_id, head_sha)),
        ("workflow run "@ + decimal_of(run_id as nat)).is_prefix_of(
            mismatch_text(run_id, head_sha),
        ),
{
    let text = mismatch_text(run_id, head_sha);
    let head = "workflow run "@ + decimal_of(run_id as nat);
    assert(text.subrange(text.len() - head_sha.len(), text.len() as int) =~= head_sha);
    assert(text.subrange(0, head.len() as int) =~= head);
}

} // verus!
