//! How an agent's disposition of a finding is put on record.
use vstd::prelude::*;

use crate::disposition::{
    attestation_value, body_digest, create_agent_disposition_attestation, created_status,
    parse_created_status,
};
use crate::json::{
    field, field_views, json_bool, json_document, json_number, json_object, json_text, json_view,
    Json, JsonView,
};
use crate::number::{decimal, decimal_of};
use crate::records::{delete_issue_comment, issue_comment_endpoint};
use crate::split::{trim, trimmed};
use crate::text::{concat2, concat3, opt_view, same_text, views};
use crate::workflow::fetch_actor_write_permission;

verus! {

/// The disposition that is to be recorded.
#[derive(Debug, PartialEq, Eq)]
pub struct SubmissionJob {
    pub repository: String,
    pub pr_number: u64,
    /// The fingerprint of the finding.
    pub finding: String,
    /// The word for the disposition.
    pub disposition: String,
}

/// The disposition that is to be recorded.
pub struct SubmissionJobView {
    pub repository: Seq<char>,
    pub pr_number: u64,
    pub finding: Seq<char>,
    pub disposition: Seq<char>,
}

impl View for SubmissionJob {
    type V = SubmissionJobView;

    open spec fn view(&self) -> SubmissionJobView {
        SubmissionJobView {
            repository: self.repository@,
            pr_number: self.pr_number,
            finding: self.finding@,
            disposition: self.disposition@,
        }
    }
}

/// Why a comment that was written does not stand.
#[derive(Debug, PartialEq, Eq)]
pub enum Rejection {
    /// The head could not be read again.
    HeadCheckFailed { error: String },
    /// The head is another one by now.
    StaleHead { current: String },
    /// The comment could not be attested.
    AttestationFailed { error: String },
}

/// Why a comment that was written does not stand.
pub enum RejectionView {
    HeadCheckFailed { error: Seq<char> },
    StaleHead { current: Seq<char> },
    AttestationFailed { error: Seq<char> },
}

impl View for Rejection {
    type V = RejectionView;

    open spec fn view(&self) -> RejectionView {
        match self {
            Rejection::HeadCheckFailed { error } => RejectionView::HeadCheckFailed {
                error: error@,
            },
            Rejection::StaleHead { current } => RejectionView::StaleHead { current: current@ },
            Rejection::AttestationFailed { error } => RejectionView::AttestationFailed {
                error: error@,
            },
        }
    }
}

/// Where the submission is.
#[derive(Debug, PartialEq, Eq)]
pub enum SubmissionState {
    /// The head of the pull request is read.
    ReadingHead,
    /// The result of the review of this head is downloaded.
    Downloading { head_sha: String },
    /// The login of the actor is read.
    ReadingActor { head_sha: String },
    /// The permission of the actor is read.
    ReadingPermission { head_sha: String, actor: String },
    /// The head is read once more before anything is written.
    CheckingHead { head_sha: String, actor: String },
    /// The comment is written.
    Recording { head_sha: String, actor: String },
    /// The head is read once more after the comment was written.
    RecheckingHead { head_sha: String, actor: String, comment_id: u64, body: String },
    /// The comment is attested.
    Attesting { head_sha: String, actor: String, comment_id: u64 },
    /// The comment is removed again.
    Removing { head_sha: String, comment_id: u64, rejection: Rejection },
    /// The submission is over.
    Finished,
}

/// Where the submission is.
pub enum SubmissionStateView {
    ReadingHead,
    Downloading { head_sha: Seq<char> },
    ReadingActor { head_sha: Seq<char> },
    ReadingPermission { head_sha: Seq<char>, actor: Seq<char> },
    CheckingHead { head_sha: Seq<char>, actor: Seq<char> },
    Recording { head_sha: Seq<char>, actor: Seq<char> },
    RecheckingHead { head_sha: Seq<char>, actor: Seq<char>, comment_id: u64, body: Seq<char> },
    Attesting { head_sha: Seq<char>, actor: Seq<char>, comment_id: u64 },
    Removing { head_sha: Seq<char>, comment_id: u64, rejection: RejectionView },
    Finished,
}

impl View for SubmissionState {
    type V = SubmissionStateView;

    open spec fn view(&self) -> SubmissionStateView {
        match self {
            SubmissionState::ReadingHead => SubmissionStateView::ReadingHead,
            SubmissionState::Downloading { head_sha } => SubmissionStateView::Downloading {
                head_sha: head_sha@,
            },
            SubmissionState::ReadingActor { head_sha } => SubmissionStateView::ReadingActor {
                head_sha: head_sha@,
            },
            SubmissionState::ReadingPermission { head_sha, actor } =>
                SubmissionStateView::ReadingPermission { head_sha: head_sha@, actor: actor@ },
            SubmissionState::CheckingHead { head_sha, actor } =>
                SubmissionStateView::CheckingHead { head_sha: head_sha@, actor: actor@ },
            SubmissionState::Recording { head_sha, actor } => SubmissionStateView::Recording {
                head_sha: head_sha@,
                actor: actor@,
            },
            SubmissionState::RecheckingHead { head_sha, actor, comment_id, body } =>
                SubmissionStateView::RecheckingHead {
                head_sha: head_sha@,
                actor: actor@,
                comment_id: *comment_id,
                body: body@,
            },
            SubmissionState::Attesting { head_sha, actor, comment_id } =>
                SubmissionStateView::Attesting {
                head_sha: head_sha@,
                actor: actor@,
                comment_id: *comment_id,
            },
            SubmissionState::Removing { head_sha, comment_id, rejection } =>
                SubmissionStateView::Removing {
                head_sha: head_sha@,
                comment_id: *comment_id,
                rejection: rejection@,
            },
            SubmissionState::Finished => SubmissionStateView::Finished,
        }
    }
}

/// What is done next.
#[derive(Debug, PartialEq, Eq)]
pub enum SubmissionAction {
    /// Download the result of the review of this head.
    Download { head_sha: String },
    /// Read the login of the actor.
    ReadActor,
    /// Read the permission of the actor.
    ReadPermission { endpoint: String },
    /// Read the head of the pull request.
    ReadHead,
    /// Write the comment.
    Record { head_sha: String, actor: String },
    /// Attest the comment.
    Attest { endpoint: String, payload: Json },
    /// Remove the comment.
    Remove { endpoint: String },
    /// Report that the disposition is recorded.
    Report { report: Json },
    /// Report that it was rejected, and fail.
    Reject { warning: Option<String>, report: Json, error: String, cause: Option<String> },
    /// Fail because the result has no such finding.
    NoFinding,
    /// Fail.
    Fail { error: String },
}

/// What is done next.
pub enum SubmissionActionView {
    Download { head_sha: Seq<char> },
    ReadActor,
    ReadPermission { endpoint: Seq<char> },
    ReadHead,
    Record { head_sha: Seq<char>, actor: Seq<char> },
    Attest { endpoint: Seq<char>, payload: JsonView },
    Remove { endpoint: Seq<char> },
    Report { report: JsonView },
    Reject {
        warning: Option<Seq<char>>,
        report: JsonView,
        error: Seq<char>,
        cause: Option<Seq<char>>,
    },
    NoFinding,
    Fail { error: Seq<char> },
}

impl View for SubmissionAction {
    type V = SubmissionActionView;

    open spec fn view(&self) -> SubmissionActionView {
        match self {
            SubmissionAction::Download { head_sha } => SubmissionActionView::Download {
                head_sha: head_sha@,
            },
            SubmissionAction::ReadActor => SubmissionActionView::ReadActor,
            SubmissionAction::ReadPermission { endpoint } => SubmissionActionView::ReadPermission {
                endpoint: endpoint@,
            },
            SubmissionAction::ReadHead => SubmissionActionView::ReadHead,
            SubmissionAction::Record { head_sha, actor } => SubmissionActionView::Record {
                head_sha: head_sha@,
                actor: actor@,
            },
            SubmissionAction::Attest { endpoint, payload } => SubmissionActionView::Attest {
                endpoint: endpoint@,
                payload: json_view(*payload),
            },
            SubmissionAction::Remove { endpoint } => SubmissionActionView::Remove {
                endpoint: endpoint@,
            },
            SubmissionAction::Report { report } => SubmissionActionView::Report {
                report: json_view(*report),
            },
            SubmissionAction::Reject { warning, report, error, cause } =>
                SubmissionActionView::Reject {
                warning: opt_view(*warning),
                report: json_view(*report),
                error: error@,
                cause: opt_view(*cause),
            },
            SubmissionAction::NoFinding => SubmissionActionView::NoFinding,
            SubmissionAction::Fail { error } => SubmissionActionView::Fail { error: error@ },
        }
    }
}

/// What came back.
#[derive(Debug, PartialEq, Eq)]
pub enum SubmissionEvent {
    /// The head of the pull request.
    Head { head_sha: String },
    /// The head could not be read.
    HeadFailed { error: String },
    /// The fingerprints of the findings of the result.
    Downloaded { findings: Vec<String> },
    /// The login of the actor, as it was printed.
    Actor { printed: String },
    /// Whether the actor may write.
    Permission { may_write: bool },
    /// The comment and its body.
    Recorded { comment_id: u64, body: String },
    /// The reply to the attestation.
    Attested { reply: String },
    /// The attestation could not be sent.
    AttestationFailed { error: String },
    /// The comment was removed.
    Removed,
    /// The comment could not be removed.
    RemovalFailed { error: String },
}

/// What came back.
pub enum SubmissionEventView {
    Head { head_sha: Seq<char> },
    HeadFailed { error: Seq<char> },
    Downloaded { findings: Seq<Seq<char>> },
    Actor { printed: Seq<char> },
    Permission { may_write: bool },
    Recorded { comment_id: u64, body: Seq<char> },
    Attested { reply: Seq<char> },
    AttestationFailed { error: Seq<char> },
    Removed,
    RemovalFailed { error: Seq<char> },
}

impl View for SubmissionEvent {
    type V = SubmissionEventView;

    open spec fn view(&self) -> SubmissionEventView {
        match self {
            SubmissionEvent::Head { head_sha } => SubmissionEventView::Head {
                head_sha: head_sha@,
            },
            SubmissionEvent::HeadFailed { error } => SubmissionEventView::HeadFailed {
                error: error@,
            },
            SubmissionEvent::Downloaded { findings } => SubmissionEventView::Downloaded {
                findings: views(findings@),
            },
            SubmissionEvent::Actor { printed } => SubmissionEventView::Actor {
                printed: printed@,
            },
            SubmissionEvent::Permission { may_write } => SubmissionEventView::Permission {
                may_write: *may_write,
            },
            SubmissionEvent::Recorded { comment_id, body } => SubmissionEventView::Recorded {
                comment_id: *comment_id,
                body: body@,
            },
            SubmissionEvent::Attested { reply } => SubmissionEventView::Attested {
                reply: reply@,
            },
            SubmissionEvent::AttestationFailed { error } =>
                SubmissionEventView::AttestationFailed { error: error@ },
            SubmissionEvent::Removed => SubmissionEventView::Removed,
            SubmissionEvent::RemovalFailed { error } => SubmissionEventView::RemovalFailed {
                error: error@,
            },
        }
    }
}

/// What came back answers what was asked.
pub open spec fn submission_answers(
    state: SubmissionStateView,
    event: SubmissionEventView,
) -> bool {
    match state {
        SubmissionStateView::ReadingHead => event is Head,
        SubmissionStateView::Downloading { .. } => event is Downloaded,
        SubmissionStateView::ReadingActor { .. } => event is Actor,
        SubmissionStateView::ReadingPermission { .. } => event is Permission,
        SubmissionStateView::CheckingHead { .. } => event is Head,
        SubmissionStateView::Recording { .. } => event is Recorded,
        SubmissionStateView::RecheckingHead { .. } => event is Head || event is HeadFailed,
        SubmissionStateView::Attesting { .. } => event is Attested || event is AttestationFailed,
        SubmissionStateView::Removing { .. } => event is Removed || event is RemovalFailed,
        SubmissionStateView::Finished => false,
    }
}

/// Why the actor may not submit dispositions.
pub open spec fn no_permission() -> SubmissionActionView {
    SubmissionActionView::Fail { error: "agent dispositions require repository write permission"@ }
}

/// The word for a rejection.
pub open spec fn rejection_reason(rejection: RejectionView) -> Seq<char> {
    match rejection {
        RejectionView::HeadCheckFailed { .. } => "head_check_failed"@,
        RejectionView::StaleHead { .. } => "stale_head"@,
        RejectionView::AttestationFailed { .. } => "attestation_failed"@,
    }
}

/// The report on a rejection.
pub open spec fn rejection_report(
    job: SubmissionJobView,
    head_sha: Seq<char>,
    comment_id: u64,
    rejection: RejectionView,
    removed: bool,
) -> JsonView {
    JsonView::Object(
        seq![
            ("status"@, JsonView::Text("rejected"@)),
            ("reason"@, JsonView::Text(rejection_reason(rejection))),
            ("repository"@, JsonView::Text(job.repository)),
            ("pull_request_number"@, JsonView::Number(Some(job.pr_number))),
            ("reviewed_sha"@, JsonView::Text(head_sha)),
            ("semantic_fingerprint"@, JsonView::Text(job.finding)),
            ("comment_id"@, JsonView::Number(Some(comment_id))),
            ("comment_removed"@, JsonView::Bool(removed)),
        ],
    )
}

/// The report on a disposition that is recorded.
pub open spec fn recorded_report(
    job: SubmissionJobView,
    head_sha: Seq<char>,
    comment_id: u64,
) -> JsonView {
    JsonView::Object(
        seq![
            ("status"@, JsonView::Text("recorded"@)),
            ("repository"@, JsonView::Text(job.repository)),
            ("pull_request_number"@, JsonView::Number(Some(job.pr_number))),
            ("reviewed_sha"@, JsonView::Text(head_sha)),
            ("semantic_fingerprint"@, JsonView::Text(job.finding)),
            ("disposition"@, JsonView::Text(job.disposition)),
            ("comment_id"@, JsonView::Number(Some(comment_id))),
        ],
    )
}

/// The error that a rejection ends in, and what caused it.
pub open spec fn rejection_error(head_sha: Seq<char>, rejection: RejectionView) -> (
    Seq<char>,
    Option<Seq<char>>,
) {
    match rejection {
        RejectionView::HeadCheckFailed { error } => (
            "agent disposition was not attested because its post-write head check failed"@,
            Some(error),
        ),
        RejectionView::StaleHead { current } => (
            "pull request head changed from "@ + head_sha + " to "@ + current
                + " while recording the agent disposition; retry on the current result"@,
            None,
        ),
        RejectionView::AttestationFailed { error } => (
            "agent disposition comment was created but could not be attested with a writer-only commit status"@,
            Some(error),
        ),
    }
}

/// What is said where a comment that is stale could not be removed.
pub open spec fn removal_warning(
    comment_id: u64,
    rejection: RejectionView,
    failure: Option<Seq<char>>,
) -> Option<Seq<char>> {
    match (rejection, failure) {
        (RejectionView::StaleHead { .. }, Some(error)) => Some(
            "ReviewGate warning: failed to remove stale disposition comment "@ + decimal_of(
                comment_id as nat,
            ) + ": "@ + error,
        ),
        _ => None,
    }
}

/// The submission ends in a rejection.
pub open spec fn rejected(
    job: SubmissionJobView,
    head_sha: Seq<char>,
    comment_id: u64,
    rejection: RejectionView,
    failure: Option<Seq<char>>,
) -> SubmissionActionView {
    SubmissionActionView::Reject {
        warning: removal_warning(comment_id, rejection, failure),
        report: rejection_report(job, head_sha, comment_id, rejection, failure is None),
        error: rejection_error(head_sha, rejection).0,
        cause: rejection_error(head_sha, rejection).1,
    }
}

/// The comment is removed again.
pub open spec fn remove_comment(
    job: SubmissionJobView,
    head_sha: Seq<char>,
    comment_id: u64,
    rejection: RejectionView,
) -> (SubmissionStateView, SubmissionActionView) {
    (
        SubmissionStateView::Removing { head_sha, comment_id, rejection },
        SubmissionActionView::Remove {
            endpoint: issue_comment_endpoint(job.repository, comment_id),
        },
    )
}

/// The submission is over.
pub open spec fn over(action: SubmissionActionView) -> (SubmissionStateView, SubmissionActionView) {
    (SubmissionStateView::Finished, action)
}

/// Where the statuses of a commit are made.
pub open spec fn statuses_endpoint(repository: Seq<char>, head_sha: Seq<char>) -> Seq<char> {
    "repos/"@ + repository + "/statuses/"@ + head_sha
}

/// Whether the attestation was made, and by the actor.
pub open spec fn attestation_made(reply: Seq<char>, actor: Seq<char>) -> Result<(), Seq<char>> {
    match json_document(reply) {
        Some(reply) => created_status(reply, actor),
        None => Err("failed to parse created commit status JSON"@),
    }
}

/// What follows once the head is read.
pub open spec fn after_head(
    job: SubmissionJobView,
    state: SubmissionStateView,
    current: Seq<char>,
) -> (SubmissionStateView, SubmissionActionView) {
    match state {
        SubmissionStateView::ReadingHead => (
            SubmissionStateView::Downloading { head_sha: current },
            SubmissionActionView::Download { head_sha: current },
        ),
        SubmissionStateView::CheckingHead { head_sha, actor } => if current == head_sha {
            (
                SubmissionStateView::Recording { head_sha, actor },
                SubmissionActionView::Record { head_sha, actor },
            )
        } else {
            over(
                SubmissionActionView::Fail {
                    error: "pull request head changed while reading ReviewGate state: expected "@
                        + head_sha + ", current "@ + current,
                },
            )
        },
        SubmissionStateView::RecheckingHead { head_sha, actor, comment_id, body } => if current
            == head_sha {
            (
                SubmissionStateView::Attesting { head_sha, actor, comment_id },
                SubmissionActionView::Attest {
                    endpoint: statuses_endpoint(job.repository, head_sha),
                    payload: attestation_value(
                        job.repository,
                        job.pr_number,
                        comment_id,
                        body_digest(body),
                    ),
                },
            )
        } else {
            remove_comment(job, head_sha, comment_id, RejectionView::StaleHead { current })
        },
        _ => over(no_permission()),
    }
}

/// What follows what came back.
pub open spec fn submission_step(
    job: SubmissionJobView,
    state: SubmissionStateView,
    event: SubmissionEventView,
) -> (SubmissionStateView, SubmissionActionView) {
    match (state, event) {
        (_, SubmissionEventView::Head { head_sha }) => after_head(job, state, head_sha),
        (
            SubmissionStateView::Downloading { head_sha },
            SubmissionEventView::Downloaded { findings },
        ) => if findings.contains(job.finding) {
            (SubmissionStateView::ReadingActor { head_sha }, SubmissionActionView::ReadActor)
        } else {
            over(SubmissionActionView::NoFinding)
        },
        (
            SubmissionStateView::ReadingActor { head_sha },
            SubmissionEventView::Actor { printed },
        ) => if trimmed(printed).len() == 0 {
            over(no_permission())
        } else {
            (
                SubmissionStateView::ReadingPermission { head_sha, actor: trimmed(printed) },
                SubmissionActionView::ReadPermission {
                    endpoint: "repos/"@ + job.repository + "/collaborators/"@ + trimmed(printed)
                        + "/permission"@,
                },
            )
        },
        (
            SubmissionStateView::ReadingPermission { head_sha, actor },
            SubmissionEventView::Permission { may_write },
        ) => if may_write {
            (
                SubmissionStateView::CheckingHead { head_sha, actor },
                SubmissionActionView::ReadHead,
            )
        } else {
            over(no_permission())
        },
        (
            SubmissionStateView::Recording { head_sha, actor },
            SubmissionEventView::Recorded { comment_id, body },
        ) => (
            SubmissionStateView::RecheckingHead { head_sha, actor, comment_id, body },
            SubmissionActionView::ReadHead,
        ),
        (
            SubmissionStateView::RecheckingHead { head_sha, actor, comment_id, body },
            SubmissionEventView::HeadFailed { error },
        ) => remove_comment(job, head_sha, comment_id, RejectionView::HeadCheckFailed { error }),
        (
            SubmissionStateView::Attesting { head_sha, actor, comment_id },
            SubmissionEventView::Attested { reply },
        ) => match attestation_made(reply, actor) {
            Ok(_) => over(
                SubmissionActionView::Report {
                    report: recorded_report(job, head_sha, comment_id),
                },
            ),
            Err(error) => remove_comment(
                job,
                head_sha,
                comment_id,
                RejectionView::AttestationFailed { error },
            ),
        },
        (
            SubmissionStateView::Attesting { head_sha, actor, comment_id },
            SubmissionEventView::AttestationFailed { error },
        ) => remove_comment(job, head_sha, comment_id, RejectionView::AttestationFailed { error }),
        (
            SubmissionStateView::Removing { head_sha, comment_id, rejection },
            SubmissionEventView::Removed,
        ) => over(rejected(job, head_sha, comment_id, rejection, None)),
        (
            SubmissionStateView::Removing { head_sha, comment_id, rejection },
            SubmissionEventView::RemovalFailed { error },
        ) => over(rejected(job, head_sha, comment_id, rejection, Some(error))),
        _ => over(no_permission()),
    }
}

fn refuse() -> (r: (SubmissionState, SubmissionAction))
    ensures
        (r.0@, r.1@) == over(no_permission()),
{
    (
        SubmissionState::Finished,
        SubmissionAction::Fail {
            error: "agent dispositions require repository write permission".to_owned(),
        },
    )
}

fn remove_rejected(
    job: &SubmissionJob,
    head_sha: String,
    comment_id: u64,
    rejection: Rejection,
) -> (r: (SubmissionState, SubmissionAction))
    ensures
        (r.0@, r.1@) == remove_comment(job@, head_sha@, comment_id, rejection@),
{
    let endpoint = delete_issue_comment(job.repository.as_str(), comment_id);
    (
        SubmissionState::Removing { head_sha, comment_id, rejection },
        SubmissionAction::Remove { endpoint },
    )
}

fn report_rejection(
    job: &SubmissionJob,
    head_sha: &str,
    comment_id: u64,
    reason: &str,
    removed: bool,
    Ghost(rejection): Ghost<RejectionView>,
) -> (r: Json)
    requires
        reason@ == rejection_reason(rejection),
    ensures
        r@ == rejection_report(job@, head_sha@, comment_id, rejection, removed),
{
    let mut fields: Vec<(String, Json)> = Vec::new();
    fields.push(field("status", json_text("rejected")));
    fields.push(field("reason", json_text(reason)));
    fields.push(field("repository", json_text(job.repository.as_str())));
    fields.push(field("pull_request_number", json_number(job.pr_number)));
    fields.push(field("reviewed_sha", json_text(head_sha)));
    fields.push(field("semantic_fingerprint", json_text(job.finding.as_str())));
    fields.push(field("comment_id", json_number(comment_id)));
    fields.push(field("comment_removed", json_bool(removed)));
    proof {
        assert(field_views(fields@) =~= rejection_report(
            job@,
            head_sha@,
            comment_id,
            rejection,
            removed,
        )->Object_0);
    }
    json_object(fields)
}

fn reject(
    job: &SubmissionJob,
    head_sha: String,
    comment_id: u64,
    rejection: Rejection,
    failure: Option<String>,
) -> (r: (SubmissionState, SubmissionAction))
    ensures
        (r.0@, r.1@) == over(
            rejected(job@, head_sha@, comment_id, rejection@, opt_view(failure)),
        ),
{
    let removed = failure.is_none();
    let ghost why = rejection@;
    match rejection {
        Rejection::HeadCheckFailed { error } => {
            let report = report_rejection(
                job,
                head_sha.as_str(),
                comment_id,
                "head_check_failed",
                removed,
                Ghost(why),
            );
            (
                SubmissionState::Finished,
                SubmissionAction::Reject {
                    warning: None,
                    report,
                    error:
                        "agent disposition was not attested because its post-write head check failed".to_owned(),
                    cause: Some(error),
                },
            )
        },
        Rejection::StaleHead { current } => {
            let report = report_rejection(
                job,
                head_sha.as_str(),
                comment_id,
                "stale_head",
                removed,
                Ghost(why),
            );
            let warning = match failure {
                Some(error) => {
                    let id = decimal(comment_id);
                    let head = concat3(
                        "ReviewGate warning: failed to remove stale disposition comment ",
                        id.as_str(),
                        ": ",
                    );
                    Some(concat2(head.as_str(), error.as_str()))
                },
                None => None,
            };
            let head = concat3("pull request head changed from ", head_sha.as_str(), " to ");
            (
                SubmissionState::Finished,
                SubmissionAction::Reject {
                    warning,
                    report,
                    error: concat3(
                        head.as_str(),
                        current.as_str(),
                        " while recording the agent disposition; retry on the current result",
                    ),
                    cause: None,
                },
            )
        },
        Rejection::AttestationFailed { error } => {
            let report = report_rejection(
                job,
                head_sha.as_str(),
                comment_id,
                "attestation_failed",
                removed,
                Ghost(why),
            );
            (
                SubmissionState::Finished,
                SubmissionAction::Reject {
                    warning: None,
                    report,
                    error:
                        "agent disposition comment was created but could not be attested with a writer-only commit status".to_owned(),
                    cause: Some(error),
                },
            )
        },
    }
}

fn report_recorded(job: &SubmissionJob, head_sha: &str, comment_id: u64) -> (r: Json)
    ensures
        r@ == recorded_report(job@, head_sha@, comment_id),
{
    let mut fields: Vec<(String, Json)> = Vec::new();
    fields.push(field("status", json_text("recorded")));
    fields.push(field("repository", json_text(job.repository.as_str())));
    fields.push(field("pull_request_number", json_number(job.pr_number)));
    fields.push(field("reviewed_sha", json_text(head_sha)));
    fields.push(field("semantic_fingerprint", json_text(job.finding.as_str())));
    fields.push(field("disposition", json_text(job.disposition.as_str())));
    fields.push(field("comment_id", json_number(comment_id)));
    proof {
        assert(field_views(fields@) =~= recorded_report(job@, head_sha@, comment_id)->Object_0);
    }
    json_object(fields)
}

fn has_finding(findings: &Vec<String>, finding: &str) -> (r: bool)
    ensures
        r == views(findings@).contains(finding@),
{
    let ghost all = views(findings@);
    let mut i: usize = 0;
    while i < findings.len()
        invariant
            i <= findings@.len(),
            all == views(findings@),
            forall|k: int| 0 <= k < i ==> (#[trigger] all[k]) != finding@,
        decreases findings@.len() - i,
    {
        if same_text(findings[i].as_str(), finding) {
            proof {
                assert(all[i as int] == finding@);
            }
            return true;
        }
        i += 1;
    }
    false
}

fn proceed_with_head(job: &SubmissionJob, state: SubmissionState, current: String) -> (r: (
    SubmissionState,
    SubmissionAction,
))
    ensures
        (r.0@, r.1@) == after_head(job@, state@, current@),
{
    match state {
        SubmissionState::ReadingHead => {
            let head_sha = current.clone();
            (
                SubmissionState::Downloading { head_sha: current },
                SubmissionAction::Download { head_sha },
            )
        },
        SubmissionState::CheckingHead { head_sha, actor } => {
            if same_text(current.as_str(), head_sha.as_str()) {
                let record = SubmissionAction::Record {
                    head_sha: head_sha.clone(),
                    actor: actor.clone(),
                };
                (SubmissionState::Recording { head_sha, actor }, record)
            } else {
                let head = concat3(
                    "pull request head changed while reading ReviewGate state: expected ",
                    head_sha.as_str(),
                    ", current ",
                );
                (
                    SubmissionState::Finished,
                    SubmissionAction::Fail { error: concat2(head.as_str(), current.as_str()) },
                )
            }
        },
        SubmissionState::RecheckingHead { head_sha, actor, comment_id, body } => {
            if same_text(current.as_str(), head_sha.as_str()) {
                let head = concat2("repos/", job.repository.as_str());
                let endpoint = concat3(head.as_str(), "/statuses/", head_sha.as_str());
                let payload = create_agent_disposition_attestation(
                    job.repository.as_str(),
                    job.pr_number,
                    comment_id,
                    body.as_str(),
                );
                (
                    SubmissionState::Attesting { head_sha, actor, comment_id },
                    SubmissionAction::Attest { endpoint, payload },
                )
            } else {
                remove_rejected(job, head_sha, comment_id, Rejection::StaleHead { current })
            }
        },
        _ => refuse(),
    }
}

/// What follows what came back.
pub fn submit_agent_disposition(
    job: &SubmissionJob,
    state: SubmissionState,
    event: SubmissionEvent,
) -> (r: (SubmissionState, SubmissionAction))
    requires
        submission_answers(state@, event@),
    ensures
        (r.0@, r.1@) == submission_step(job@, state@, event@),
{
    match (state, event) {
        (state, SubmissionEvent::Head { head_sha }) => proceed_with_head(job, state, head_sha),
        (
            SubmissionState::Downloading { head_sha },
            SubmissionEvent::Downloaded { findings },
        ) => {
            if has_finding(&findings, job.finding.as_str()) {
                (SubmissionState::ReadingActor { head_sha }, SubmissionAction::ReadActor)
            } else {
                (SubmissionState::Finished, SubmissionAction::NoFinding)
            }
        },
        (SubmissionState::ReadingActor { head_sha }, SubmissionEvent::Actor { printed }) => {
            let actor = trim(printed.as_str());
            if same_text(actor.as_str(), "") {
                proof {
                    reveal_strlit("");
                }
                return refuse();
            }
            proof {
                reveal_strlit("");
                assert(actor@.len() == 0 ==> actor@ =~= ""@);
            }
            let endpoint = fetch_actor_write_permission(job.repository.as_str(), actor.as_str());
            (
                SubmissionState::ReadingPermission { head_sha, actor },
                SubmissionAction::ReadPermission { endpoint },
            )
        },
        (
            SubmissionState::ReadingPermission { head_sha, actor },
            SubmissionEvent::Permission { may_write },
        ) => {
            if may_write {
                (SubmissionState::CheckingHead { head_sha, actor }, SubmissionAction::ReadHead)
            } else {
                refuse()
            }
        },
        (
            SubmissionState::Recording { head_sha, actor },
            SubmissionEvent::Recorded { comment_id, body },
        ) => (
            SubmissionState::RecheckingHead { head_sha, actor, comment_id, body },
            SubmissionAction::ReadHead,
        ),
        (
            SubmissionState::RecheckingHead { head_sha, actor: _, comment_id, body: _ },
            SubmissionEvent::HeadFailed { error },
        ) => remove_rejected(job, head_sha, comment_id, Rejection::HeadCheckFailed { error }),
        (
            SubmissionState::Attesting { head_sha, actor, comment_id },
            SubmissionEvent::Attested { reply },
        ) => match parse_created_status(reply.as_str(), actor.as_str()) {
            Ok(_) => {
                let report = report_recorded(job, head_sha.as_str(), comment_id);
                (SubmissionState::Finished, SubmissionAction::Report { report })
            },
            Err(error) => remove_rejected(
                job,
                head_sha,
                comment_id,
                Rejection::AttestationFailed { error },
            ),
        },
        (
            SubmissionState::Attesting { head_sha, actor: _, comment_id },
            SubmissionEvent::AttestationFailed { error },
        ) => remove_rejected(job, head_sha, comment_id, Rejection::AttestationFailed { error }),
        (
            SubmissionState::Removing { head_sha, comment_id, rejection },
            SubmissionEvent::Removed,
        ) => reject(job, head_sha, comment_id, rejection, None),
        (
            SubmissionState::Removing { head_sha, comment_id, rejection },
            SubmissionEvent::RemovalFailed { error },
        ) => reject(job, head_sha, comment_id, rejection, Some(error)),
        _ => refuse(),
    }
}

/// How far the submission is from its end.
pub open spec fn submission_rank(state: SubmissionStateView) -> nat {
    match state {
        SubmissionStateView::ReadingHead => 9,
        SubmissionStateView::Downloading { .. } => 8,
        SubmissionStateView::ReadingActor { .. } => 7,
        SubmissionStateView::ReadingPermission { .. } => 6,
        SubmissionStateView::CheckingHead { .. } => 5,
        SubmissionStateView::Recording { .. } => 4,
        SubmissionStateView::RecheckingHead { .. } => 3,
        SubmissionStateView::Attesting { .. } => 2,
        SubmissionStateView::Removing { .. } => 1,
        SubmissionStateView::Finished => 0,
    }
}

/// A submission comes to an end.
pub proof fn law_submissions_end(
    job: SubmissionJobView,
    state: SubmissionStateView,
    event: SubmissionEventView,
)
    requires
        submission_answers(state, event),
    ensures
        submission_rank(submission_step(job, state, event).0) < submission_rank(state),
{
}

/// A comment is written only right after the head was seen unchanged, and that is looked
/// at only for an actor that may write.
pub proof fn law_only_writers_record(
    job: SubmissionJobView,
    state: SubmissionStateView,
    event: SubmissionEventView,
)
    requires
        submission_answers(state, event),
    ensures
        submission_step(job, state, event).1 matches SubmissionActionView::Record {
            head_sha,
            actor,
        } ==> state == (SubmissionStateView::CheckingHead { head_sha, actor }) && event == (
        SubmissionEventView::Head { head_sha }),
        submission_step(job, state, event).0 matches SubmissionStateView::CheckingHead {
            head_sha,
            actor,
        } ==> state == (SubmissionStateView::ReadingPermission { head_sha, actor }) && event == (
        SubmissionEventView::Permission { may_write: true }),
{
}

/// A comment that was written is attested and reported only if the head is still the
/// same and the status is by the actor; in every other case it is removed, whatever
/// came back, and the submission fails.
pub proof fn law_written_comments_are_attested_or_removed(
    job: SubmissionJobView,
    state: SubmissionStateView,
    event: SubmissionEventView,
)
    requires
        submission_answers(state, event),
    ensures
        state matches SubmissionStateView::RecheckingHead { head_sha, comment_id, .. } ==> {
            let (next, action) = submission_step(job, state, event);
            if event == (SubmissionEventView::Head { head_sha }) {
                next is Attesting && action is Attest
            } else {
                action == (SubmissionActionView::Remove {
                    endpoint: issue_comment_endpoint(job.repository, comment_id),
                })
            }
        },
        state matches SubmissionStateView::Attesting { head_sha, actor, comment_id } ==> {
            let (next, action) = submission_step(job, state, event);
            if event matches SubmissionEventView::Attested { reply } && attestation_made(
                reply,
                actor,
            ) is Ok {
                action == (SubmissionActionView::Report {
                    report: recorded_report(job, head_sha, comment_id),
                })
            } else {
                action == (SubmissionActionView::Remove {
                    endpoint: issue_comment_endpoint(job.repository, comment_id),
                })
            }
        },
        state is Removing ==> submission_step(job, state, event).1 is Reject,
        submission_step(job, state, event).1 is Report ==> state is Attesting,
        submission_step(job, state, event).1 is Reject ==> state is Removing,
{
}

// ---------------------------------------------------------------------------
// What holds of it
// ---------------------------------------------------------------------------

/// A disposition is of a finding of the result; it is taken from an actor whose name is
/// known and who may write.
pub proof fn law_dispositions_are_of_known_findings(
    job: SubmissionJobView,
    head_sha: Seq<char>,
    findings: Seq<Seq<char>>,
    printed: Seq<char>,
    actor: Seq<char>,
    may_write: bool,
)
    ensures
        findings.contains(job.finding) ==> submission_step(
            job,
            SubmissionStateView::Downloading { head_sha },
            SubmissionEventView::Downloaded { findings },
        ).0 == (SubmissionStateView::ReadingActor { head_sha }),
        !findings.contains(job.finding) ==> submission_step(
            job,
            SubmissionStateView::Downloading { head_sha },
            SubmissionEventView::Downloaded { findings },
        ).1 is NoFinding,
        trimmed(printed).len() == 0 ==> submission_step(
            job,
            SubmissionStateView::ReadingActor { head_sha },
            SubmissionEventView::Actor { printed },
        ).1 is Fail,
        trimmed(printed).len() > 0 ==> submission_step(
            job,
            SubmissionStateView::ReadingActor { head_sha },
            SubmissionEventView::Actor { printed },
        ).0 == (SubmissionStateView::ReadingPermission { head_sha, actor: trimmed(printed) }),
        may_write ==> submission_step(
            job,
            SubmissionStateView::ReadingPermission { head_sha, actor },
            SubmissionEventView::Permission { may_write },
        ).0 == (SubmissionStateView::CheckingHead { head_sha, actor }),
        !may_write ==> submission_step(
            job,
            SubmissionStateView::ReadingPermission { head_sha, actor },
            SubmissionEventView::Permission { may_write },
        ).1 is Fail,
{
}

/// A disposition is recorded for the head of its result, and for no other.
pub proof fn law_dispositions_are_of_the_head(
    job: SubmissionJobView,
    head_sha: Seq<char>,
    current: Seq<char>,
    actor: Seq<char>,
    comment_id: u64,
    body: Seq<char>,
)
    ensures
        submission_step(
            job,
            SubmissionStateView::ReadingHead,
            SubmissionEventView::Head { head_sha },
        ).1 == (SubmissionActionView::Download { head_sha }),
        current == head_sha ==> submission_step(
            job,
            SubmissionStateView::CheckingHead { head_sha, actor },
            SubmissionEventView::Head { head_sha: current },
        ).1 == (SubmissionActionView::Record { head_sha, actor }),
        current != head_sha ==> (submission_step(
            job,
            SubmissionStateView::CheckingHead { head_sha, actor },
            SubmissionEventView::Head { head_sha: current },
        ).1 matches SubmissionActionView::Fail { error } && current.is_suffix_of(error)),
        submission_step(
            job,
            SubmissionStateView::Recording { head_sha, actor },
            SubmissionEventView::Recorded { comment_id, body },
        ).0 == (SubmissionStateView::RecheckingHead { head_sha, actor, comment_id, body }),
        current != head_sha ==> submission_step(
            job,
            SubmissionStateView::RecheckingHead { head_sha, actor, comment_id, body },
            SubmissionEventView::Head { head_sha: current },
        ).0 == (SubmissionStateView::Removing {
            head_sha,
            comment_id,
            rejection: RejectionView::StaleHead { current },
        }),
{
    let error = "pull request head changed while reading ReviewGate state: expected "@ + head_sha
        + ", current "@ + current;
    assert(error.subrange(error.len() - current.len(), error.len() as int) =~= current);
}

/// A comment is attested by a status of the head, made of the body that was written.
pub proof fn law_attestations_are_of_what_was_written(
    job: SubmissionJobView,
    head_sha: Seq<char>,
    actor: Seq<char>,
    comment_id: u64,
    body: Seq<char>,
)
    ensures
        submission_step(
            job,
            SubmissionStateView::RecheckingHead { head_sha, actor, comment_id, body },
            SubmissionEventView::Head { head_sha },
        ).1 matches SubmissionActionView::Attest { endpoint, payload } && head_sha.is_suffix_of(
            endpoint,
        ) && ("repos/"@ + job.repository).is_prefix_of(endpoint) && payload == attestation_value(
            job.repository,
            job.pr_number,
            comment_id,
            body_digest(body),
        ),
        submission_step(
            job,
            SubmissionStateView::RecheckingHead { head_sha, actor, comment_id, body },
            SubmissionEventView::Head { head_sha },
        ).0 == (SubmissionStateView::Attesting { head_sha, actor, comment_id }),
{
    let endpoint = statuses_endpoint(job.repository, head_sha);
    let head = "repos/"@ + job.repository;
    assert(endpoint.subrange(endpoint.len() - head_sha.len(), endpoint.len() as int) =~= head_sha);
    assert(endpoint.subrange(0, head.len() as int) =~= head);
}

/// A rejection tells why, for which finding, and whether the comment was removed; the cause
/// is told where something failed, and a comment that stays though it is stale is warned of.
pub proof fn law_rejections_tell_why(
    job: SubmissionJobView,
    head_sha: Seq<char>,
    comment_id: u64,
    rejection: RejectionView,
    failure: Option<Seq<char>>,
)
    ensures
        rejected(job, head_sha, comment_id, rejection, failure)
            matches SubmissionActionView::Reject { warning, report, error, cause } && {
            &&& warning is Some <==> rejection is StaleHead && failure is Some
            &&& failure matches Some(failed) ==> (warning matches Some(w) ==> failed.is_suffix_of(
                w,
            ))
            &&& cause is None <==> rejection is StaleHead
            &&& rejection matches RejectionView::HeadCheckFailed { error: e } ==> cause == Some(e)
            &&& rejection matches RejectionView::AttestationFailed { error: e } ==> cause == Some(
                e,
            )
            &&& report matches JsonView::Object(fields) && {
                &&& fields.contains(("status"@, JsonView::Text("rejected"@)))
                &&& fields.contains(("comment_removed"@, JsonView::Bool(failure is None)))
                &&& fields.contains(("comment_id"@, JsonView::Number(Some(comment_id))))
                &&& fields.contains(("semantic_fingerprint"@, JsonView::Text(job.finding)))
                &&& fields.contains(("reviewed_sha"@, JsonView::Text(head_sha)))
                &&& fields.contains(("repository"@, JsonView::Text(job.repository)))
                &&& fields.contains(
                    ("pull_request_number"@, JsonView::Number(Some(job.pr_number))),
                )
                &&& rejection is StaleHead ==> fields.contains(
                    ("reason"@, JsonView::Text("stale_head"@)),
                )
                &&& rejection is HeadCheckFailed ==> fields.contains(
                    ("reason"@, JsonView::Text("head_check_failed"@)),
                )
                &&& rejection is AttestationFailed ==> fields.contains(
                    ("reason"@, JsonView::Text("attestation_failed"@)),
                )
            }
        },
{
    let fields = rejection_report(job, head_sha, comment_id, rejection, failure is None)->Object_0;
    assert(fields[0] == ("status"@, JsonView::Text("rejected"@)));
    assert(fields[1] == ("reason"@, JsonView::Text(rejection_reason(rejection))));
    assert(fields[2] == ("repository"@, JsonView::Text(job.repository)));
    assert(fields[3] == ("pull_request_number"@, JsonView::Number(Some(job.pr_number))));
    assert(fields[4] == ("reviewed_sha"@, JsonView::Text(head_sha)));
    assert(fields[5] == ("semantic_fingerprint"@, JsonView::Text(job.finding)));
    assert(fields[6] == ("comment_id"@, JsonView::Number(Some(comment_id))));
    assert(fields[7] == ("comment_removed"@, JsonView::Bool(failure is None)));
    if let (Some(w), Some(failed)) = (removal_warning(comment_id, rejection, failure), failure) {
        assert(w.subrange(w.len() - failed.len(), w.len() as int) =~= failed);
    }
}

/// A report of a disposition tells what was recorded.
pub proof fn law_recorded_dispositions_are_told(
    job: SubmissionJobView,
    head_sha: Seq<char>,
    comment_id: u64,
)
    ensures
        recorded_report(job, head_sha, comment_id) matches JsonView::Object(fields) && {
            &&& fields.contains(("status"@, JsonView::Text("recorded"@)))
            &&& fields.contains(("disposition"@, JsonView::Text(job.disposition)))
            &&& fields.contains(("comment_id"@, JsonView::Number(Some(comment_id))))
            &&& fields.contains(("semantic_fingerprint"@, JsonView::Text(job.finding)))
            &&& fields.contains(("reviewed_sha"@, JsonView::Text(head_sha)))
            &&& fields.contains(("repository"@, JsonView::Text(job.repository)))
            &&& fields.contains(("pull_request_number"@, JsonView::Number(Some(job.pr_number))))
        },
{
    let fields = recorded_report(job, head_sha, comment_id)->Object_0;
    assert(fields[0] == ("status"@, JsonView::Text("recorded"@)));
    assert(fields[1] == ("repository"@, JsonView::Text(job.repository)));
    assert(fields[2] == ("pull_request_number"@, JsonView::Number(Some(job.pr_number))));
    assert(fields[3] == ("reviewed_sha"@, JsonView::Text(head_sha)));
    assert(fields[4] == ("semantic_fingerprint"@, JsonView::Text(job.finding)));
    assert(fields[5] == ("disposition"@, JsonView::Text(job.disposition)));
    assert(fields[6] == ("comment_id"@, JsonView::Number(Some(comment_id))));
}

/// A comment that was to be removed is told as removed exactly if it was.
pub proof fn law_removals_are_told(
    job: SubmissionJobView,
    head_sha: Seq<char>,
    comment_id: u64,
    rejection: RejectionView,
    error: Seq<char>,
)
    ensures
        submission_step(
            job,
            SubmissionStateView::Removing { head_sha, comment_id, rejection },
            SubmissionEventView::Removed,
        ).1 == rejected(job, head_sha, comment_id, rejection, None),
        submission_step(
            job,
            SubmissionStateView::Removing { head_sha, comment_id, rejection },
            SubmissionEventView::RemovalFailed { error },
        ).1 == rejected(job, head_sha, comment_id, rejection, Some(error)),
        submission_step(
            job,
            SubmissionStateView::Attesting { head_sha, actor: error, comment_id },
            SubmissionEventView::AttestationFailed { error },
        ).0 == (SubmissionStateView::Removing {
            head_sha,
            comment_id,
            rejection: RejectionView::AttestationFailed { error },
        }),
{
}

/// A head that changed is told with the head that was reviewed and the current one.
pub proof fn law_changed_heads_are_told(head_sha: Seq<char>, current: Seq<char>)
    ensures
        crate::text::has_text(
            rejection_error(head_sha, RejectionView::StaleHead { current }).0,
            head_sha,
        ),
        crate::text::has_text(
            rejection_error(head_sha, RejectionView::StaleHead { current }).0,
            " to "@ + current + " while recording"@,
        ),
{
    let error = rejection_error(head_sha, RejectionView::StaleHead { current }).0;
    let head = "pull request head changed from "@;
    assert(error.subrange(head.len() as int, (head.len() + head_sha.len()) as int) =~= head_sha);
    assert(crate::text::occurs_at(error, head_sha, head.len() as int));
    reveal_strlit(" while recording");
    reveal_strlit(" while recording the agent disposition; retry on the current result");
    let rest = " while recording the agent disposition; retry on the current result"@;
    assert(rest.subrange(0, " while recording"@.len() as int) =~= " while recording"@);
    assert forall|k: int| 0 <= k < " while recording"@.len() implies rest[k]
        == " while recording"@[k] by {
        assert(rest.subrange(0, " while recording"@.len() as int)[k] == rest[k]);
    }
    let part = " to "@ + current + " while recording"@;
    let at = head.len() + head_sha.len();
    assert(error =~= head + head_sha + (" to "@ + current + rest));
    assert(error.subrange(at as int, (at + part.len()) as int) =~= part);
    assert(crate::text::occurs_at(error, part, at as int));
}

} // verus!
