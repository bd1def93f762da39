//! Rereview requests: which comments ask for one, and how a request is carried out.
use vstd::prelude::*;

use crate::json::{
    at_dotted, field, field_views, json_document, json_number, json_object, json_text, read_json,
    text_at, unsigned_at, Json, JsonView,
};
use crate::number::{decimal, decimal_of};
use crate::reading::result_view;
use crate::text::{
    ascii_alphanumeric, chars_of, concat3, has_text, is_ascii_alphanumeric, same_text,
};

verus! {

// ---------------------------------------------------------------------------
// Which comments ask for a rereview
// ---------------------------------------------------------------------------

/// A comment that asks for a rereview.
#[derive(Debug, PartialEq, Eq)]
pub struct RereviewRequest {
    pub pull_request_number: u64,
    pub comment_id: u64,
    pub actor_login: String,
}

/// What a comment that asks for a rereview says.
pub struct RequestView {
    pub pull_request_number: u64,
    pub comment_id: u64,
    pub actor_login: Seq<char>,
}

impl View for RereviewRequest {
    type V = RequestView;

    open spec fn view(&self) -> RequestView {
        RequestView {
            pull_request_number: self.pull_request_number,
            comment_id: self.comment_id,
            actor_login: self.actor_login@,
        }
    }
}

/// Why an event asks for no rereview.
#[derive(Debug, Clone, Copy, PartialEq, Eq, Structural)]
pub enum RereviewIgnoreReason {
    UnsupportedEvent,
    UnsupportedAction,
    CommandMismatch,
    UnauthorizedActor,
    NotPullRequest,
    PullRequestNotOpen,
    InvalidPayload,
}

/// The word for a reason.
pub open spec fn ignore_code(reason: RereviewIgnoreReason) -> Seq<char> {
    match reason {
        RereviewIgnoreReason::UnsupportedEvent => "unsupported_event"@,
        RereviewIgnoreReason::UnsupportedAction => "unsupported_action"@,
        RereviewIgnoreReason::CommandMismatch => "command_mismatch"@,
        RereviewIgnoreReason::UnauthorizedActor => "unauthorized_actor"@,
        RereviewIgnoreReason::NotPullRequest => "not_pull_request"@,
        RereviewIgnoreReason::PullRequestNotOpen => "pull_request_not_open"@,
        RereviewIgnoreReason::InvalidPayload => "invalid_payload"@,
    }
}

impl RereviewIgnoreReason {
    /// The word for the reason.
    pub fn code(self) -> (r: &'static str)
        ensures
            r@ == ignore_code(self),
    {
        match self {
            RereviewIgnoreReason::UnsupportedEvent => "unsupported_event",
            RereviewIgnoreReason::UnsupportedAction => "unsupported_action",
            RereviewIgnoreReason::CommandMismatch => "command_mismatch",
            RereviewIgnoreReason::UnauthorizedActor => "unauthorized_actor",
            RereviewIgnoreReason::NotPullRequest => "not_pull_request",
            RereviewIgnoreReason::PullRequestNotOpen => "pull_request_not_open",
            RereviewIgnoreReason::InvalidPayload => "invalid_payload",
        }
    }
}

/// What is made of an event.
#[derive(Debug, PartialEq, Eq)]
pub enum RereviewEventDecision {
    Trigger(RereviewRequest),
    Ignore(RereviewIgnoreReason),
}

/// What is made of an event.
pub enum DecisionView {
    Trigger(RequestView),
    Ignore(RereviewIgnoreReason),
}

impl View for RereviewEventDecision {
    type V = DecisionView;

    open spec fn view(&self) -> DecisionView {
        match self {
            RereviewEventDecision::Trigger(r) => DecisionView::Trigger(r@),
            RereviewEventDecision::Ignore(reason) => DecisionView::Ignore(*reason),
        }
    }
}

/// An association of a maintainer with a repository.
pub open spec fn maintainer(association: Seq<char>) -> bool {
    association == "OWNER"@ || association == "MEMBER"@ || association == "COLLABORATOR"@
}

/// Whether the association is that of a maintainer.
pub fn is_maintainer_association(association: &str) -> (r: bool)
    ensures
        r == maintainer(association@),
{
    same_text(association, "OWNER") || same_text(association, "MEMBER") || same_text(
        association,
        "COLLABORATOR",
    )
}

/// A login: letters, digits and hyphens, at least one.
pub open spec fn login_name(login: Seq<char>) -> bool {
    login.len() > 0 && forall|i: int|
        0 <= i < login.len() ==> ascii_alphanumeric(#[trigger] login[i]) || login[i] == '-'
}

/// Whether the text is a login.
pub fn is_login_name(login: &str) -> (r: bool)
    ensures
        r == login_name(login@),
{
    let v = chars_of(login);
    if v.len() == 0 {
        return false;
    }
    let mut i: usize = 0;
    while i < v.len()
        invariant
            i <= v@.len(),
            v@ == login@,
            forall|k: int| 0 <= k < i ==> ascii_alphanumeric(#[trigger] v@[k]) || v@[k] == '-',
        decreases v@.len() - i,
    {
        if !is_ascii_alphanumeric(v[i]) && v[i] != '-' {
            return false;
        }
        i += 1;
    }
    true
}

/// The login of the author of a comment, where it is one.
pub open spec fn comment_login(comment: JsonView) -> Option<Seq<char>> {
    match text_at(comment, "user.login"@) {
        Some(login) => if login_name(login) {
            Some(login)
        } else {
            None
        },
        None => None,
    }
}

/// What is made of a comment on an issue.
pub open spec fn comment_decision(comment: JsonView, issue: Option<JsonView>) -> DecisionView {
    let association = text_at(comment, "author_association"@);
    if text_at(comment, "body"@) != Some("@reviewgate review"@) {
        DecisionView::Ignore(RereviewIgnoreReason::CommandMismatch)
    } else if !(association is Some && maintainer(association->0)) {
        DecisionView::Ignore(RereviewIgnoreReason::UnauthorizedActor)
    } else {
        match issue {
            None => DecisionView::Ignore(RereviewIgnoreReason::InvalidPayload),
            Some(i) => if at_dotted(i, "pull_request"@) is None {
                DecisionView::Ignore(RereviewIgnoreReason::NotPullRequest)
            } else if text_at(i, "state"@) != Some("open"@) {
                DecisionView::Ignore(RereviewIgnoreReason::PullRequestNotOpen)
            } else {
                match (
                    unsigned_at(i, "number"@),
                    unsigned_at(comment, "id"@),
                    comment_login(comment),
                ) {
                    (Some(pull_request_number), Some(comment_id), Some(actor_login)) =>
                        DecisionView::Trigger(
                        RequestView { pull_request_number, comment_id, actor_login },
                    ),
                    _ => DecisionView::Ignore(RereviewIgnoreReason::InvalidPayload),
                }
            },
        }
    }
}

/// What is made of an event.
pub open spec fn event_decision(event_name: Seq<char>, event: JsonView) -> DecisionView {
    if event_name != "issue_comment"@ {
        DecisionView::Ignore(RereviewIgnoreReason::UnsupportedEvent)
    } else if text_at(event, "action"@) != Some("created"@) {
        DecisionView::Ignore(RereviewIgnoreReason::UnsupportedAction)
    } else {
        match at_dotted(event, "comment"@) {
            None => DecisionView::Ignore(RereviewIgnoreReason::InvalidPayload),
            Some(comment) => comment_decision(comment, at_dotted(event, "issue"@)),
        }
    }
}

/// A rereview is asked for only by the exact command, in a new comment of a maintainer on
/// an open pull request.
pub proof fn law_only_exact_commands_trigger(event_name: Seq<char>, event: JsonView)
    requires
        event_decision(event_name, event) is Trigger,
    ensures
        event_name == "issue_comment"@,
        text_at(event, "action"@) == Some("created"@),
        ({
            let comment = at_dotted(event, "comment"@)->0;
            let issue = at_dotted(event, "issue"@)->0;
            &&& text_at(comment, "body"@) == Some("@reviewgate review"@)
            &&& text_at(comment, "author_association"@) is Some
            &&& maintainer(text_at(comment, "author_association"@)->0)
            &&& at_dotted(issue, "pull_request"@) is Some
            &&& text_at(issue, "state"@) == Some("open"@)
            &&& login_name(event_decision(event_name, event)->Trigger_0.actor_login)
        }),
{
}

fn text_is(v: &Json, path: &str, expected: &str) -> (r: bool)
    ensures
        r == (text_at(v@, path@) == Some(expected@)),
{
    match v.text_at(path) {
        Some(t) => same_text(t, expected),
        None => false,
    }
}

/// What is made of an event.
pub fn parse_rereview_request(event_name: &str, event: &Json) -> (r: RereviewEventDecision)
    ensures
        r@ == event_decision(event_name@, event@),
{
    if !same_text(event_name, "issue_comment") {
        return RereviewEventDecision::Ignore(RereviewIgnoreReason::UnsupportedEvent);
    }
    if !text_is(event, "action", "created") {
        return RereviewEventDecision::Ignore(RereviewIgnoreReason::UnsupportedAction);
    }
    let comment = match event.at("comment") {
        Some(c) => c,
        None => {
            return RereviewEventDecision::Ignore(RereviewIgnoreReason::InvalidPayload);
        },
    };
    if !text_is(comment, "body", "@reviewgate review") {
        return RereviewEventDecision::Ignore(RereviewIgnoreReason::CommandMismatch);
    }
    let authorized = match comment.text_at("author_association") {
        Some(a) => is_maintainer_association(a),
        None => false,
    };
    if !authorized {
        return RereviewEventDecision::Ignore(RereviewIgnoreReason::UnauthorizedActor);
    }
    let issue = match event.at("issue") {
        Some(i) => i,
        None => {
            return RereviewEventDecision::Ignore(RereviewIgnoreReason::InvalidPayload);
        },
    };
    if issue.at("pull_request").is_none() {
        return RereviewEventDecision::Ignore(RereviewIgnoreReason::NotPullRequest);
    }
    if !text_is(issue, "state", "open") {
        return RereviewEventDecision::Ignore(RereviewIgnoreReason::PullRequestNotOpen);
    }
    let pull_request_number = match issue.u64_at("number") {
        Some(n) => n,
        None => {
            return RereviewEventDecision::Ignore(RereviewIgnoreReason::InvalidPayload);
        },
    };
    let comment_id = match comment.u64_at("id") {
        Some(n) => n,
        None => {
            return RereviewEventDecision::Ignore(RereviewIgnoreReason::InvalidPayload);
        },
    };
    match comment.text_at("user.login") {
        Some(login) => if is_login_name(login) {
            RereviewEventDecision::Trigger(
                RereviewRequest {
                    pull_request_number,
                    comment_id,
                    actor_login: login.to_owned(),
                },
            )
        } else {
            RereviewEventDecision::Ignore(RereviewIgnoreReason::InvalidPayload)
        },
        None => RereviewEventDecision::Ignore(RereviewIgnoreReason::InvalidPayload),
    }
}

// ---------------------------------------------------------------------------
// What is reviewed
// ---------------------------------------------------------------------------

/// The head of a pull request.
#[derive(Debug, PartialEq, Eq)]
pub struct RereviewTarget {
    pub repository: String,
    pub pull_request_number: u64,
    pub head_sha: String,
}

/// The head of a pull request.
pub struct TargetView {
    pub repository: Seq<char>,
    pub pull_request_number: u64,
    pub head_sha: Seq<char>,
}

impl View for RereviewTarget {
    type V = TargetView;

    open spec fn view(&self) -> TargetView {
        TargetView {
            repository: self.repository@,
            pull_request_number: self.pull_request_number,
            head_sha: self.head_sha@,
        }
    }
}

impl Clone for RereviewTarget {
    fn clone(&self) -> (r: Self)
        ensures
            r@ == self@,
    {
        RereviewTarget {
            repository: self.repository.clone(),
            pull_request_number: self.pull_request_number,
            head_sha: self.head_sha.clone(),
        }
    }
}

/// What a reply with a pull request says of its head, or why it is not the open pull
/// request that was asked for.
pub open spec fn target_in(
    reply: Option<JsonView>,
    repository: Seq<char>,
    expected: u64,
) -> Result<TargetView, Seq<char>> {
    match reply {
        None => Err("failed to parse pull request JSON"@),
        Some(v) => match unsigned_at(v, "number"@) {
            None => Err("pull request response did not include number"@),
            Some(n) => {
                let number = decimal_of(n as nat);
                if n != expected {
                    Err(
                        "pull request response returned #"@ + number + ", expected #"@
                            + decimal_of(expected as nat),
                    )
                } else if text_at(v, "state"@) != Some("open"@) {
                    Err("pull request #"@ + number + " is not open"@)
                } else {
                    match text_at(v, "base.repo.full_name"@) {
                        None => Err("pull request response did not include base repository"@),
                        Some(base) => if base != repository {
                            Err(
                                "pull request #"@ + number + " belongs to "@ + base
                                    + ", expected "@ + repository,
                            )
                        } else {
                            match text_at(v, "head.sha"@) {
                                Some(sha) => if sha.len() > 0 {
                                    Ok(
                                        TargetView {
                                            repository,
                                            pull_request_number: n,
                                            head_sha: sha,
                                        },
                                    )
                                } else {
                                    Err(
                                        "pull request response did not include current head SHA"@,
                                    )
                                },
                                None => Err(
                                    "pull request response did not include current head SHA"@,
                                ),
                            }
                        },
                    }
                }
            },
        },
    }
}

/// The head of the open pull request that a reply describes.
pub fn rereview_target(
    reply: &Json,
    repository: &str,
    expected_pull_request_number: u64,
) -> (r: Result<RereviewTarget, String>)
    ensures
        result_view(r) == target_in(Some(reply@), repository@, expected_pull_request_number),
{
    let n = match reply.u64_at("number") {
        Some(n) => n,
        None => {
            return Err("pull request response did not include number".to_owned());
        },
    };
    let number = decimal(n);
    if n != expected_pull_request_number {
        let expected = decimal(expected_pull_request_number);
        let mut e = concat3("pull request response returned #", number.as_str(), ", expected #");
        e.append(expected.as_str());
        return Err(e);
    }
    if !text_is(reply, "state", "open") {
        return Err(concat3("pull request #", number.as_str(), " is not open"));
    }
    let base = match reply.text_at("base.repo.full_name") {
        Some(t) => t,
        None => {
            return Err("pull request response did not include base repository".to_owned());
        },
    };
    if !same_text(base, repository) {
        let mut e = concat3("pull request #", number.as_str(), " belongs to ");
        e.append(base);
        e.append(", expected ");
        e.append(repository);
        return Err(e);
    }
    match reply.text_at("head.sha") {
        Some(sha) => if !sha.is_empty() {
            Ok(
                RereviewTarget {
                    repository: repository.to_owned(),
                    pull_request_number: n,
                    head_sha: sha.to_owned(),
                },
            )
        } else {
            Err("pull request response did not include current head SHA".to_owned())
        },
        None => Err("pull request response did not include current head SHA".to_owned()),
    }
}

/// The head of the open pull request that the text of a reply describes.
pub fn parse_rereview_target(
    raw: &str,
    repository: &str,
    expected_pull_request_number: u64,
) -> (r: Result<RereviewTarget, String>)
    ensures
        result_view(r) == target_in(
            json_document(raw@),
            repository@,
            expected_pull_request_number,
        ),
{
    match read_json(raw) {
        Some(reply) => rereview_target(&reply, repository, expected_pull_request_number),
        None => Err("failed to parse pull request JSON".to_owned()),
    }
}

/// A permission that lets its holder write.
pub open spec fn write_permission(permission: Seq<char>) -> bool {
    permission == "write"@ || permission == "maintain"@ || permission == "admin"@
}

/// Whether a reply grants write access, or why it does not tell.
pub open spec fn permission_in(reply: Option<JsonView>) -> Result<bool, Seq<char>> {
    match reply {
        None => Err("failed to parse collaborator permission JSON"@),
        Some(v) => match text_at(v, "permission"@) {
            None => Err("collaborator permission response did not include permission"@),
            Some(p) => Ok(write_permission(p)),
        },
    }
}

/// Whether a reply grants write access, or why it does not tell.
pub fn repository_write_permission(reply: &Json) -> (r: Result<bool, String>)
    ensures
        result_view(r) == permission_in(Some(reply@)),
{
    match reply.text_at("permission") {
        Some(p) => Ok(
            same_text(p, "write") || same_text(p, "maintain") || same_text(p, "admin"),
        ),
        None => Err("collaborator permission response did not include permission".to_owned()),
    }
}

/// Whether the text of a reply grants write access, or why it does not tell.
pub fn parse_repository_write_permission(raw: &str) -> (r: Result<bool, String>)
    ensures
        result_view(r) == permission_in(json_document(raw@)),
{
    match read_json(raw) {
        Some(reply) => repository_write_permission(&reply),
        None => Err("failed to parse collaborator permission JSON".to_owned()),
    }
}

// ---------------------------------------------------------------------------
// Feedback
// ---------------------------------------------------------------------------

/// Why a rereview could not be queued.
#[derive(Debug, Clone, Copy, PartialEq, Eq, Structural)]
pub enum RereviewFailureReason {
    MissingToken,
    InvalidRepositoryContext,
    InvalidWorkflow,
    AuthorizationCheckFailed,
    CommentDiscoveryFailed,
    ReservationFailed,
    TargetValidationFailed,
    DiscoveryFailed,
    NoEligibleRun,
    RerunFailed,
}

/// The word for a failure.
pub open spec fn failure_code(reason: RereviewFailureReason) -> Seq<char> {
    match reason {
        RereviewFailureReason::MissingToken => "missing_token"@,
        RereviewFailureReason::InvalidRepositoryContext => "invalid_repository_context"@,
        RereviewFailureReason::InvalidWorkflow => "invalid_workflow"@,
        RereviewFailureReason::AuthorizationCheckFailed => "authorization_check_failed"@,
        RereviewFailureReason::CommentDiscoveryFailed => "comment_discovery_failed"@,
        RereviewFailureReason::ReservationFailed => "reservation_failed"@,
        RereviewFailureReason::TargetValidationFailed => "target_validation_failed"@,
        RereviewFailureReason::DiscoveryFailed => "discovery_failed"@,
        RereviewFailureReason::NoEligibleRun => "no_eligible_run"@,
        RereviewFailureReason::RerunFailed => "rerun_failed"@,
    }
}

/// What a failure means to the one who asked.
pub open spec fn failure_message(reason: RereviewFailureReason) -> Seq<char> {
    match reason {
        RereviewFailureReason::MissingToken => "The rereview job does not have a GitHub token."@,
        RereviewFailureReason::InvalidRepositoryContext =>
            "The base repository could not be read from the GitHub Actions context."@,
        RereviewFailureReason::InvalidWorkflow =>
            "The configured workflow identifier is invalid."@,
        RereviewFailureReason::AuthorizationCheckFailed =>
            "ReviewGate could not verify the comment author's repository permission."@,
        RereviewFailureReason::CommentDiscoveryFailed =>
            "ReviewGate could not check whether this command was already processed."@,
        RereviewFailureReason::ReservationFailed =>
            "ReviewGate could not reserve this rereview command for processing."@,
        RereviewFailureReason::TargetValidationFailed =>
            "The pull request is no longer open or its current head could not be verified."@,
        RereviewFailureReason::DiscoveryFailed =>
            "ReviewGate could not enumerate eligible workflow runs. Check the workflow name and `actions: write` permission."@,
        RereviewFailureReason::NoEligibleRun =>
            "No completed ReviewGate `pull_request` run matches this PR's current head. Push a commit or run the normal review first, then request a rereview."@,
        RereviewFailureReason::RerunFailed =>
            "The eligible current-head run was found, but GitHub rejected the rerun. Check `actions: write` permission."@,
    }
}

impl RereviewFailureReason {
    /// The word for the failure.
    pub fn code(self) -> (r: &'static str)
        ensures
            r@ == failure_code(self),
    {
        match self {
            RereviewFailureReason::MissingToken => "missing_token",
            RereviewFailureReason::InvalidRepositoryContext => "invalid_repository_context",
            RereviewFailureReason::InvalidWorkflow => "invalid_workflow",
            RereviewFailureReason::AuthorizationCheckFailed => "authorization_check_failed",
            RereviewFailureReason::CommentDiscoveryFailed => "comment_discovery_failed",
            RereviewFailureReason::ReservationFailed => "reservation_failed",
            RereviewFailureReason::TargetValidationFailed => "target_validation_failed",
            RereviewFailureReason::DiscoveryFailed => "discovery_failed",
            RereviewFailureReason::NoEligibleRun => "no_eligible_run",
            RereviewFailureReason::RerunFailed => "rerun_failed",
        }
    }

    /// What the failure means to the one who asked.
    pub fn message(self) -> (r: &'static str)
        ensures
            r@ == failure_message(self),
    {
        match self {
            RereviewFailureReason::MissingToken =>
                "The rereview job does not have a GitHub token.",
            RereviewFailureReason::InvalidRepositoryContext =>
                "The base repository could not be read from the GitHub Actions context.",
            RereviewFailureReason::InvalidWorkflow =>
                "The configured workflow identifier is invalid.",
            RereviewFailureReason::AuthorizationCheckFailed =>
                "ReviewGate could not verify the comment author's repository permission.",
            RereviewFailureReason::CommentDiscoveryFailed =>
                "ReviewGate could not check whether this command was already processed.",
            RereviewFailureReason::ReservationFailed =>
                "ReviewGate could not reserve this rereview command for processing.",
            RereviewFailureReason::TargetValidationFailed =>
                "The pull request is no longer open or its current head could not be verified.",
            RereviewFailureReason::DiscoveryFailed =>
                "ReviewGate could not enumerate eligible workflow runs. Check the workflow name and `actions: write` permission.",
            RereviewFailureReason::NoEligibleRun =>
                "No completed ReviewGate `pull_request` run matches this PR's current head. Push a commit or run the normal review first, then request a rereview.",
            RereviewFailureReason::RerunFailed =>
                "The eligible current-head run was found, but GitHub rejected the rerun. Check `actions: write` permission.",
        }
    }
}

/// The marker by which the comment on a request is found again.
pub open spec fn status_marker(comment_id: u64) -> Seq<char> {
    "<!-- reviewgate-rereview:"@ + decimal_of(comment_id as nat) + " -->"@
}

/// The marker by which the comment on a request is found again.
pub fn rereview_status_marker(comment_id: u64) -> (r: String)
    ensures
        r@ == status_marker(comment_id),
{
    let id = decimal(comment_id);
    concat3("<!-- reviewgate-rereview:", id.as_str(), " -->")
}

/// Requests are told apart by their markers.
pub proof fn law_markers_tell_requests_apart(a: u64, b: u64)
    requires
        status_marker(a) == status_marker(b),
    ensures
        a == b,
{
    let head = "<!-- reviewgate-rereview:"@;
    let tail = " -->"@;
    let x = decimal_of(a as nat);
    let y = decimal_of(b as nat);
    assert(status_marker(a).len() == head.len() + x.len() + tail.len());
    assert(x =~= status_marker(a).subrange(head.len() as int, (head.len() + x.len()) as int));
    assert(y =~= status_marker(b).subrange(head.len() as int, (head.len() + y.len()) as int));
    crate::number::law_decimal_tells_numbers_apart(a as nat, b as nat);
}

/// What is said while a request is looked at.
pub open spec fn pending_body(request: RequestView) -> Seq<char> {
    status_marker(request.comment_id)
        + "\nReviewGate is validating a rereview request for PR #"@ + decimal_of(
        request.pull_request_number as nat,
    ) + "."@
}

/// What is said where a rereview could not be queued.
pub open spec fn failure_body(
    comment_id: u64,
    pull_request_number: u64,
    reason: RereviewFailureReason,
) -> Seq<char> {
    status_marker(comment_id) + "\nReviewGate could not queue a rereview for PR #"@ + decimal_of(
        pull_request_number as nat,
    ) + " (`"@ + failure_code(reason) + "`). "@ + failure_message(reason)
}

/// What is said where the head is reviewed already.
pub open spec fn current_body(request: RequestView, head_sha: Seq<char>) -> Seq<char> {
    status_marker(request.comment_id)
        + "\nReviewGate already has a completed review for PR #"@ + decimal_of(
        request.pull_request_number as nat,
    ) + " at current head `"@ + head_sha + "`. No rerun was queued."@
}

/// What is said once a rereview is queued.
pub open spec fn queued_body(
    comment_id: u64,
    target: TargetView,
    run_url: Seq<char>,
) -> Seq<char> {
    status_marker(comment_id) + "\nReviewGate rereview queued for PR #"@ + decimal_of(
        target.pull_request_number as nat,
    ) + " at current head `"@ + target.head_sha + "`. [Workflow run]("@ + run_url + ")."@
}

/// What is said where a rereview could not be queued.
pub fn render_rereview_failure_body(
    source_comment_id: u64,
    pull_request_number: u64,
    reason: RereviewFailureReason,
) -> (r: String)
    ensures
        r@ == failure_body(source_comment_id, pull_request_number, reason),
{
    let number = decimal(pull_request_number);
    let mut r = rereview_status_marker(source_comment_id);
    r.append("\nReviewGate could not queue a rereview for PR #");
    r.append(number.as_str());
    r.append(" (`");
    r.append(reason.code());
    r.append("`). ");
    r.append(reason.message());
    r
}

/// What is said while a request is looked at.
pub fn render_pending_body(request: &RereviewRequest) -> (r: String)
    ensures
        r@ == pending_body(request@),
{
    let number = decimal(request.pull_request_number);
    let mut r = rereview_status_marker(request.comment_id);
    r.append("\nReviewGate is validating a rereview request for PR #");
    r.append(number.as_str());
    r.append(".");
    r
}

/// What is said where the head is reviewed already.
pub fn render_current_body(request: &RereviewRequest, head_sha: &str) -> (r: String)
    ensures
        r@ == current_body(request@, head_sha@),
{
    let number = decimal(request.pull_request_number);
    let mut r = rereview_status_marker(request.comment_id);
    r.append("\nReviewGate already has a completed review for PR #");
    r.append(number.as_str());
    r.append(" at current head `");
    r.append(head_sha);
    r.append("`. No rerun was queued.");
    r
}

/// What is said once a rereview is queued.
pub fn render_queued_body(comment_id: u64, target: &RereviewTarget, run_url: &str) -> (r: String)
    ensures
        r@ == queued_body(comment_id, target@, run_url@),
{
    let number = decimal(target.pull_request_number);
    let mut r = rereview_status_marker(comment_id);
    r.append("\nReviewGate rereview queued for PR #");
    r.append(number.as_str());
    r.append(" at current head `");
    r.append(target.head_sha.as_str());
    r.append("`. [Workflow run](");
    r.append(run_url);
    r.append(").");
    r
}

// ---------------------------------------------------------------------------
// How a request ends
// ---------------------------------------------------------------------------

/// How a request ended.
#[derive(Debug, PartialEq, Eq)]
pub enum RereviewOutcome {
    Ignored(RereviewIgnoreReason),
    Failed(RereviewFailureReason),
    Duplicate { pull_request: u64, source_comment_id: u64, status_comment_id: u64 },
    Current { pull_request: u64, reviewed_sha: String },
    Queued {
        pull_request: u64,
        head_sha: String,
        run_id: u64,
        run_url: String,
        source_comment_id: u64,
    },
}

/// How a request ended.
pub enum OutcomeView {
    Ignored(RereviewIgnoreReason),
    Failed(RereviewFailureReason),
    Duplicate { pull_request: u64, source_comment_id: u64, status_comment_id: u64 },
    Current { pull_request: u64, reviewed_sha: Seq<char> },
    Queued {
        pull_request: u64,
        head_sha: Seq<char>,
        run_id: u64,
        run_url: Seq<char>,
        source_comment_id: u64,
    },
}

impl View for RereviewOutcome {
    type V = OutcomeView;

    open spec fn view(&self) -> OutcomeView {
        match self {
            RereviewOutcome::Ignored(reason) => OutcomeView::Ignored(*reason),
            RereviewOutcome::Failed(reason) => OutcomeView::Failed(*reason),
            RereviewOutcome::Duplicate { pull_request, source_comment_id, status_comment_id } =>
                OutcomeView::Duplicate {
                pull_request: *pull_request,
                source_comment_id: *source_comment_id,
                status_comment_id: *status_comment_id,
            },
            RereviewOutcome::Current { pull_request, reviewed_sha } => OutcomeView::Current {
                pull_request: *pull_request,
                reviewed_sha: reviewed_sha@,
            },
            RereviewOutcome::Queued {
                pull_request,
                head_sha,
                run_id,
                run_url,
                source_comment_id,
            } => OutcomeView::Queued {
                pull_request: *pull_request,
                head_sha: head_sha@,
                run_id: *run_id,
                run_url: run_url@,
                source_comment_id: *source_comment_id,
            },
        }
    }
}

/// A JSON object with these fields.
pub open spec fn object(fields: Seq<(Seq<char>, JsonView)>) -> JsonView {
    JsonView::Object(fields)
}

/// The JSON report on how a request ended.
pub open spec fn outcome_json(outcome: OutcomeView) -> JsonView {
    match outcome {
        OutcomeView::Ignored(reason) => object(
            seq![
                ("status"@, JsonView::Text("ignored"@)),
                ("reason"@, JsonView::Text(ignore_code(reason))),
            ],
        ),
        OutcomeView::Failed(reason) => object(
            seq![
                ("status"@, JsonView::Text("failed"@)),
                ("reason"@, JsonView::Text(failure_code(reason))),
            ],
        ),
        OutcomeView::Duplicate { pull_request, source_comment_id, status_comment_id } => object(
            seq![
                ("status"@, JsonView::Text("duplicate"@)),
                ("reason"@, JsonView::Text("comment_already_processed"@)),
                ("pull_request"@, JsonView::Number(Some(pull_request))),
                ("source_comment_id"@, JsonView::Number(Some(source_comment_id))),
                ("status_comment_id"@, JsonView::Number(Some(status_comment_id))),
            ],
        ),
        OutcomeView::Current { pull_request, reviewed_sha } => object(
            seq![
                ("status"@, JsonView::Text("current"@)),
                ("reason"@, JsonView::Text("already_reviewed_current_head"@)),
                ("pull_request"@, JsonView::Number(Some(pull_request))),
                ("reviewed_sha"@, JsonView::Text(reviewed_sha)),
            ],
        ),
        OutcomeView::Queued { pull_request, head_sha, run_id, run_url, source_comment_id } =>
            object(
            seq![
                ("status"@, JsonView::Text("queued"@)),
                ("reason"@, JsonView::Text("eligible_current_head_run"@)),
                ("pull_request"@, JsonView::Number(Some(pull_request))),
                ("head_sha"@, JsonView::Text(head_sha)),
                ("run_id"@, JsonView::Number(Some(run_id))),
                ("run_url"@, JsonView::Text(run_url)),
                ("source_comment_id"@, JsonView::Number(Some(source_comment_id))),
            ],
        ),
    }
}

fn two_fields(status: &str, reason: &str) -> (r: Vec<(String, Json)>)
    ensures
        r@.len() == 2,
        r@[0].0@ == "status"@,
        r@[0].1@ == JsonView::Text(status@),
        r@[1].0@ == "reason"@,
        r@[1].1@ == JsonView::Text(reason@),
{
    let mut r: Vec<(String, Json)> = Vec::new();
    r.push(field("status", json_text(status)));
    r.push(field("reason", json_text(reason)));
    r
}

/// The JSON report on how a request ended.
pub fn outcome_report(outcome: &RereviewOutcome) -> (r: Json)
    ensures
        r@ == outcome_json(outcome@),
{
    let fields = match outcome {
        RereviewOutcome::Ignored(reason) => two_fields("ignored", reason.code()),
        RereviewOutcome::Failed(reason) => two_fields("failed", reason.code()),
        RereviewOutcome::Duplicate { pull_request, source_comment_id, status_comment_id } => {
            let mut f = two_fields("duplicate", "comment_already_processed");
            f.push(field("pull_request", json_number(*pull_request)));
            f.push(field("source_comment_id", json_number(*source_comment_id)));
            f.push(field("status_comment_id", json_number(*status_comment_id)));
            f
        },
        RereviewOutcome::Current { pull_request, reviewed_sha } => {
            let mut f = two_fields("current", "already_reviewed_current_head");
            f.push(field("pull_request", json_number(*pull_request)));
            f.push(field("reviewed_sha", json_text(reviewed_sha.as_str())));
            f
        },
        RereviewOutcome::Queued {
            pull_request,
            head_sha,
            run_id,
            run_url,
            source_comment_id,
        } => {
            let mut f = two_fields("queued", "eligible_current_head_run");
            f.push(field("pull_request", json_number(*pull_request)));
            f.push(field("head_sha", json_text(head_sha.as_str())));
            f.push(field("run_id", json_number(*run_id)));
            f.push(field("run_url", json_text(run_url.as_str())));
            f.push(field("source_comment_id", json_number(*source_comment_id)));
            f
        },
    };
    proof {
        assert(field_views(fields@) =~= outcome_json(outcome@)->Object_0);
    }
    json_object(fields)
}

/// The JSON report on a failure.
pub fn rereview_failure_result(reason: RereviewFailureReason) -> (r: Json)
    ensures
        r@ == outcome_json(OutcomeView::Failed(reason)),
{
    outcome_report(&RereviewOutcome::Failed(reason))
}

// ---------------------------------------------------------------------------
// What holds of it
// ---------------------------------------------------------------------------

/// A rereview is requested exactly by a new comment that is the command and nothing else,
/// of a maintainer, on a pull request that is open, where all of them can be named.
pub proof fn law_exact_commands_trigger(event: JsonView, comment: JsonView, issue: JsonView)
    requires
        at_dotted(event, "comment"@) == Some(comment),
        at_dotted(event, "issue"@) == Some(issue),
    ensures
        event_decision("issue_comment"@, event) is Trigger <==> ({
            &&& text_at(event, "action"@) == Some("created"@)
            &&& text_at(comment, "body"@) == Some("@reviewgate review"@)
            &&& text_at(comment, "author_association"@) == Some("OWNER"@) || text_at(
                comment,
                "author_association"@,
            ) == Some("MEMBER"@) || text_at(comment, "author_association"@) == Some(
                "COLLABORATOR"@,
            )
            &&& at_dotted(issue, "pull_request"@) is Some
            &&& text_at(issue, "state"@) == Some("open"@)
            &&& unsigned_at(issue, "number"@) is Some && unsigned_at(comment, "id"@) is Some
            &&& text_at(comment, "user.login"@) matches Some(login) && login.len() > 0 && forall|
                i: int,
            |
                0 <= i < login.len() ==> ('0' <= #[trigger] login[i] <= '9' || 'a' <= login[i]
                    <= 'z' || 'A' <= login[i] <= 'Z' || login[i] == '-')
        }),
        event_decision("issue_comment"@, event) matches DecisionView::Trigger(r) ==> unsigned_at(
            issue,
            "number"@,
        ) == Some(r.pull_request_number) && unsigned_at(comment, "id"@) == Some(r.comment_id)
            && text_at(comment, "user.login"@) == Some(r.actor_login),
{
    if let Some(login) = text_at(comment, "user.login"@) {
        if login.len() > 0 && forall|i: int|
            0 <= i < login.len() ==> ('0' <= #[trigger] login[i] <= '9' || 'a' <= login[i] <= 'z'
                || 'A' <= login[i] <= 'Z' || login[i] == '-') {
            assert(login_name(login));
        }
        if login_name(login) {
            assert forall|i: int| 0 <= i < login.len() implies ('0' <= #[trigger] login[i] <= '9'
                || 'a' <= login[i] <= 'z' || 'A' <= login[i] <= 'Z' || login[i] == '-') by {}
        }
    }
}

/// Why a request is ignored: the first of these that holds is told.
pub proof fn law_the_first_reason_is_told(event_name: Seq<char>, event: JsonView)
    ensures
        event_name != "issue_comment"@ <==> event_decision(event_name, event)
            == DecisionView::Ignore(RereviewIgnoreReason::UnsupportedEvent),
        event_name == "issue_comment"@ && text_at(event, "action"@) != Some("created"@)
            <==> event_decision(event_name, event) == DecisionView::Ignore(
            RereviewIgnoreReason::UnsupportedAction,
        ),
        at_dotted(event, "comment"@) matches Some(comment) ==> (event_name == "issue_comment"@
            && text_at(event, "action"@) == Some("created"@) && text_at(comment, "body"@) != Some(
            "@reviewgate review"@,
        ) ==> event_decision(event_name, event) == DecisionView::Ignore(
            RereviewIgnoreReason::CommandMismatch,
        )),
        at_dotted(event, "comment"@) matches Some(comment) ==> (event_name == "issue_comment"@
            && text_at(event, "action"@) == Some("created"@) && text_at(comment, "body"@) == Some(
            "@reviewgate review"@,
        ) && text_at(comment, "author_association"@) is None ==> event_decision(event_name, event)
            == DecisionView::Ignore(RereviewIgnoreReason::UnauthorizedActor)),
{
}

/// What is reviewed again: the pull request that was asked for, exactly if it is open, of
/// this repository, and has a head.
pub proof fn law_targets_are_what_was_asked_for(
    v: JsonView,
    repository: Seq<char>,
    expected: u64,
)
    ensures
        target_in(Some(v), repository, expected) is Ok <==> ({
            &&& unsigned_at(v, "number"@) == Some(expected)
            &&& text_at(v, "state"@) == Some("open"@)
            &&& text_at(v, "base.repo.full_name"@) == Some(repository)
            &&& text_at(v, "head.sha"@) matches Some(sha) && sha.len() > 0
        }),
        target_in(Some(v), repository, expected) matches Ok(t) ==> t.repository == repository
            && t.pull_request_number == expected && text_at(v, "head.sha"@) == Some(t.head_sha),
        target_in(None, repository, expected) is Err,
{
}

/// Who may write: those with one of three permissions, and nobody else.
pub proof fn law_who_may_write(v: JsonView, permission: Seq<char>)
    requires
        text_at(v, "permission"@) == Some(permission),
    ensures
        permission_in(Some(v)) == Ok::<bool, Seq<char>>(
            permission == "write"@ || permission == "maintain"@ || permission == "admin"@,
        ),
        permission_in(None) is Err,
{
}

/// Every comment on a request starts with its mark, and says of which pull request it is.
pub proof fn law_comments_start_with_their_mark(
    request: RequestView,
    reason: RereviewFailureReason,
    head_sha: Seq<char>,
    target: TargetView,
    run_url: Seq<char>,
)
    ensures
        status_marker(request.comment_id).is_prefix_of(pending_body(request)),
        status_marker(request.comment_id).is_prefix_of(current_body(request, head_sha)),
        status_marker(request.comment_id).is_prefix_of(
            failure_body(request.comment_id, request.pull_request_number, reason),
        ),
        status_marker(request.comment_id).is_prefix_of(
            queued_body(request.comment_id, target, run_url),
        ),
        has_text(current_body(request, head_sha), head_sha),
        has_text(queued_body(request.comment_id, target, run_url), run_url),
        has_text(queued_body(request.comment_id, target, run_url), target.head_sha),
        has_text(
            failure_body(request.comment_id, request.pull_request_number, reason),
            failure_code(reason),
        ),
{
    let m = status_marker(request.comment_id);
    let p = pending_body(request);
    assert(p.take(m.len() as int) =~= m);
    let c = current_body(request, head_sha);
    assert(c.take(m.len() as int) =~= m);
    let f = failure_body(request.comment_id, request.pull_request_number, reason);
    assert(f.take(m.len() as int) =~= m);
    let q = queued_body(request.comment_id, target, run_url);
    assert(q.take(m.len() as int) =~= m);
    let a = m + "\nReviewGate already has a completed review for PR #"@ + decimal_of(
        request.pull_request_number as nat,
    ) + " at current head `"@;
    assert(c.subrange(a.len() as int, (a.len() + head_sha.len()) as int) =~= head_sha);
    assert(crate::text::occurs_at(c, head_sha, a.len() as int));
    let b = m + "\nReviewGate rereview queued for PR #"@ + decimal_of(
        target.pull_request_number as nat,
    ) + " at current head `"@;
    assert(q.subrange(b.len() as int, (b.len() + target.head_sha.len()) as int) =~= target.head_sha);
    assert(crate::text::occurs_at(q, target.head_sha, b.len() as int));
    let d = b + target.head_sha + "`. [Workflow run]("@;
    assert(q.subrange(d.len() as int, (d.len() + run_url.len()) as int) =~= run_url);
    assert(crate::text::occurs_at(q, run_url, d.len() as int));
    let e = m + "\nReviewGate could not queue a rereview for PR #"@ + decimal_of(
        request.pull_request_number as nat,
    ) + " (`"@;
    let code = failure_code(reason);
    assert(f.subrange(e.len() as int, (e.len() + code.len()) as int) =~= code);
    assert(crate::text::occurs_at(f, code, e.len() as int));
}

/// Different reasons have different words.
pub proof fn law_reasons_are_told_apart(a: RereviewIgnoreReason, b: RereviewIgnoreReason)
    requires
        ignore_code(a) == ignore_code(b),
    ensures
        a == b,
{
    reveal_strlit("unsupported_event");
    reveal_strlit("unsupported_action");
    reveal_strlit("command_mismatch");
    reveal_strlit("unauthorized_actor");
    reveal_strlit("not_pull_request");
    reveal_strlit("pull_request_not_open");
    reveal_strlit("invalid_payload");
    assert("unsupported_event"@.len() == 17 && "unsupported_action"@.len() == 18
        && "unauthorized_actor"@.len() == 18 && "command_mismatch"@.len() == 16
        && "not_pull_request"@.len() == 16 && "pull_request_not_open"@.len() == 21
        && "invalid_payload"@.len() == 15);
    assert("unsupported_action"@[2] != "unauthorized_actor"@[2]);
    assert("command_mismatch"@[0] != "not_pull_request"@[0]);
}

/// What came of a request is told by its status first.
pub proof fn law_outcomes_tell_their_status(outcome: OutcomeView)
    ensures
        outcome_json(outcome) matches JsonView::Object(fields) && fields.len() >= 2 && fields[0].0
            == "status"@ && fields[1].0 == "reason"@ && fields[0].1 == JsonView::Text(
            match outcome {
                OutcomeView::Ignored(_) => "ignored"@,
                OutcomeView::Failed(_) => "failed"@,
                OutcomeView::Duplicate { .. } => "duplicate"@,
                OutcomeView::Current { .. } => "current"@,
                OutcomeView::Queued { .. } => "queued"@,
            },
        ),
        outcome matches OutcomeView::Queued {
            pull_request,
            head_sha,
            run_id,
            run_url,
            source_comment_id,
        } ==> (outcome_json(outcome) matches JsonView::Object(fields) && fields.len() == 7
            && fields[2] == ("pull_request"@, JsonView::Number(Some(pull_request))) && fields[3]
            == ("head_sha"@, JsonView::Text(head_sha)) && fields[4] == (
            "run_id"@,
            JsonView::Number(Some(run_id)),
        ) && fields[5] == ("run_url"@, JsonView::Text(run_url)) && fields[6] == (
            "source_comment_id"@,
            JsonView::Number(Some(source_comment_id)),
        )),
{
}

} // verus!
