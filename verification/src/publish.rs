//! What is published of a review.
use vstd::prelude::*;

use crate::aggregate::{angle_error_views, AngleErrorView, ReviewAngleError};
use crate::angles::ReviewErrorKind;
use crate::disposition::unit_result;
use crate::json::{
    field, field_views, json_bool, json_indented, json_list, json_number, json_object, json_text,
    json_views, opt_json_view, unsigned_at, write_indented_json, Json, JsonView,
};
use crate::list::holds;
use crate::number::{decimal, decimal_of};
use crate::order::{ordered_set, sort_unique};
use crate::pull_request::{opt_slice, pull_request_number};
use crate::reading::result_view;
use crate::records::{issue_comment_endpoint, issue_comments_endpoint};
use crate::split::{is_blank, lines, lines_of, blank};
use crate::status::{status_word, ReviewStatus};
use crate::text::{concat2, concat3, has_char, join, joined, opt_view, same_text, views};

verus! {

// ---------------------------------------------------------------------------
// Whether anything is published
// ---------------------------------------------------------------------------

/// What is to be published.
#[derive(Debug, Clone, Copy, PartialEq, Eq, Structural)]
pub enum Publication {
    StartSignal,
    Findings,
    Summary,
    Threads,
    AgentResult,
}

/// What is missing.
#[derive(Debug, Clone, Copy, PartialEq, Eq, Structural)]
pub enum Missing {
    PullRequestEvent,
    Input,
    Token,
    Event,
    Number,
}

/// Whether something is published.
#[derive(Debug, PartialEq, Eq)]
pub enum PublishGate {
    /// It is, for this pull request.
    Publish { pr_number: u64 },
    /// It is not, which is said.
    Skip { message: String },
    /// It is not, which is an error.
    Fail { error: String },
}

/// Whether something is published.
pub enum GateView {
    Publish { pr_number: u64 },
    Skip { message: Seq<char> },
    Fail { error: Seq<char> },
}

impl View for PublishGate {
    type V = GateView;

    open spec fn view(&self) -> GateView {
        match self {
            PublishGate::Publish { pr_number } => GateView::Publish { pr_number: *pr_number },
            PublishGate::Skip { message } => GateView::Skip { message: message@ },
            PublishGate::Fail { error } => GateView::Fail { error: error@ },
        }
    }
}

/// What is missing, looked for in this order: the right event, the input, a token, the
/// text of the event, and the number of the pull request in it.
pub open spec fn missing_for(
    publication: Publication,
    event_name: Seq<char>,
    has_input: bool,
    has_token: bool,
    event: Option<JsonView>,
) -> Result<u64, Missing> {
    if event_name != "pull_request"@ {
        Err(Missing::PullRequestEvent)
    } else if !has_input && publication != Publication::StartSignal && publication
        != Publication::AgentResult {
        Err(Missing::Input)
    } else if !has_token {
        Err(Missing::Token)
    } else {
        match event {
            None => Err(Missing::Event),
            Some(e) => match unsigned_at(e, "pull_request.number"@) {
                Some(number) => Ok(number),
                None => Err(Missing::Number),
            },
        }
    }
}

/// What is said of something that is not published.
pub open spec fn missing_text(
    publication: Publication,
    missing: Missing,
    input: Seq<char>,
) -> GateView {
    match publication {
        Publication::StartSignal => GateView::Skip {
            message: "ReviewGate start signal skipped: "@ + match missing {
                Missing::PullRequestEvent => "not a pull_request event."@,
                Missing::Input => "missing "@ + input + "."@,
                Missing::Token => "GitHub token is empty."@,
                Missing::Event => "missing GitHub event."@,
                Missing::Number => "no pull request number."@,
            },
        },
        Publication::Findings => GateView::Skip {
            message: "ReviewGate finding comments skipped: "@ + match missing {
                Missing::PullRequestEvent => "not a pull_request event."@,
                Missing::Input => "missing "@ + input + "."@,
                Missing::Token => "GitHub token is empty."@,
                Missing::Event => "missing GitHub event."@,
                Missing::Number => "missing PR number."@,
            },
        },
        Publication::Summary => if missing == Missing::Input {
            GateView::Fail {
                error: "::error title=ReviewGate summary missing::ReviewGate did not produce "@
                    + input + "."@,
            }
        } else {
            GateView::Skip {
                message: "ReviewGate summary comment skipped: "@ + match missing {
                    Missing::PullRequestEvent => "not a pull_request event."@,
                    Missing::Token => "GitHub token is empty."@,
                    Missing::Event => "missing GitHub event."@,
                    _ => "no pull request number."@,
                },
            }
        },
        Publication::Threads => match missing {
            Missing::PullRequestEvent => GateView::Skip {
                message: "ReviewGate thread reconciliation skipped: not a pull_request event."@,
            },
            Missing::Input => GateView::Fail {
                error: "ReviewGate thread reconciliation requires "@ + input,
            },
            Missing::Token => GateView::Fail {
                error: "ReviewGate thread reconciliation failed: GitHub token is empty"@,
            },
            Missing::Event => GateView::Fail {
                error: "thread reconciliation requires a GitHub event"@,
            },
            Missing::Number => GateView::Fail {
                error: "thread reconciliation requires a PR number"@,
            },
        },
        Publication::AgentResult => GateView::Fail {
            error: match missing {
                Missing::PullRequestEvent =>
                "ReviewGate agent result requires a pull_request event"@,
                Missing::Input => "ReviewGate agent result requires "@ + input,
                Missing::Token => "ReviewGate agent result failed: GitHub token is empty"@,
                Missing::Event => "ReviewGate agent result requires a GitHub event"@,
                Missing::Number => "ReviewGate agent result requires a PR number"@,
            },
        },
    }
}

/// Whether something is published.
pub open spec fn gate(
    publication: Publication,
    event_name: Seq<char>,
    input: Seq<char>,
    has_input: bool,
    has_token: bool,
    event: Option<JsonView>,
) -> GateView {
    match missing_for(publication, event_name, has_input, has_token, event) {
        Ok(pr_number) => GateView::Publish { pr_number },
        Err(missing) => missing_text(publication, missing, input),
    }
}

fn find_missing(
    publication: Publication,
    event_name: &str,
    has_input: bool,
    has_token: bool,
    event: Option<&Json>,
) -> (r: Result<u64, Missing>)
    ensures
        r == missing_for(publication, event_name@, has_input, has_token, opt_json_view(event)),
{
    if !same_text(event_name, "pull_request") {
        return Err(Missing::PullRequestEvent);
    }
    if !has_input && publication != Publication::StartSignal && publication
        != Publication::AgentResult {
        return Err(Missing::Input);
    }
    if !has_token {
        return Err(Missing::Token);
    }
    match event {
        None => Err(Missing::Event),
        Some(e) => match pull_request_number(e) {
            Some(number) => Ok(number),
            None => Err(Missing::Number),
        },
    }
}

fn skip(head: &str, tail: &str) -> (r: PublishGate)
    ensures
        r@ == (GateView::Skip { message: head@ + tail@ }),
{
    PublishGate::Skip { message: concat2(head, tail) }
}

fn say_missing(publication: Publication, missing: Missing, input: &str) -> (r: PublishGate)
    ensures
        r@ == missing_text(publication, missing, input@),
{
    let named = concat3("missing ", input, ".");
    match publication {
        Publication::StartSignal => {
            let tail = match missing {
                Missing::PullRequestEvent => "not a pull_request event.",
                Missing::Input => named.as_str(),
                Missing::Token => "GitHub token is empty.",
                Missing::Event => "missing GitHub event.",
                Missing::Number => "no pull request number.",
            };
            skip("ReviewGate start signal skipped: ", tail)
        },
        Publication::Findings => {
            let tail = match missing {
                Missing::PullRequestEvent => "not a pull_request event.",
                Missing::Input => named.as_str(),
                Missing::Token => "GitHub token is empty.",
                Missing::Event => "missing GitHub event.",
                Missing::Number => "missing PR number.",
            };
            skip("ReviewGate finding comments skipped: ", tail)
        },
        Publication::Summary => {
            if missing == Missing::Input {
                return PublishGate::Fail {
                    error: concat3(
                        "::error title=ReviewGate summary missing::ReviewGate did not produce ",
                        input,
                        ".",
                    ),
                };
            }
            let tail = match missing {
                Missing::PullRequestEvent => "not a pull_request event.",
                Missing::Token => "GitHub token is empty.",
                Missing::Event => "missing GitHub event.",
                _ => "no pull request number.",
            };
            skip("ReviewGate summary comment skipped: ", tail)
        },
        Publication::Threads => match missing {
            Missing::PullRequestEvent => PublishGate::Skip {
                message: "ReviewGate thread reconciliation skipped: not a pull_request event.".to_owned(),
            },
            Missing::Input => PublishGate::Fail {
                error: concat2("ReviewGate thread reconciliation requires ", input),
            },
            Missing::Token => PublishGate::Fail {
                error: "ReviewGate thread reconciliation failed: GitHub token is empty".to_owned(),
            },
            Missing::Event => PublishGate::Fail {
                error: "thread reconciliation requires a GitHub event".to_owned(),
            },
            Missing::Number => PublishGate::Fail {
                error: "thread reconciliation requires a PR number".to_owned(),
            },
        },
        Publication::AgentResult => PublishGate::Fail {
            error: match missing {
                Missing::PullRequestEvent =>
                "ReviewGate agent result requires a pull_request event".to_owned(),
                Missing::Input => concat2("ReviewGate agent result requires ", input),
                Missing::Token =>
                "ReviewGate agent result failed: GitHub token is empty".to_owned(),
                Missing::Event => "ReviewGate agent result requires a GitHub event".to_owned(),
                Missing::Number => "ReviewGate agent result requires a PR number".to_owned(),
            },
        },
    }
}

/// Whether something is published.
pub fn publish_gate(
    publication: Publication,
    event_name: &str,
    input: &str,
    has_input: bool,
    has_token: bool,
    event: Option<&Json>,
) -> (r: PublishGate)
    ensures
        r@ == gate(publication, event_name@, input@, has_input, has_token, opt_json_view(event)),
{
    match find_missing(publication, event_name, has_input, has_token, event) {
        Ok(pr_number) => PublishGate::Publish { pr_number },
        Err(missing) => say_missing(publication, missing, input),
    }
}

/// Nothing is published but for a pull request, and with a token.
pub proof fn law_nothing_is_published_unasked(
    publication: Publication,
    event_name: Seq<char>,
    input: Seq<char>,
    has_input: bool,
    has_token: bool,
    event: Option<JsonView>,
)
    ensures
        gate(publication, event_name, input, has_input, has_token, event) is Publish
            ==> event_name == "pull_request"@ && has_token && event is Some,
{
}

/// There is a token: the first variable that is set decides.
pub open spec fn has_token(gh_token: Option<Seq<char>>, github_token: Option<Seq<char>>) -> bool {
    match gh_token {
        Some(token) => !blank(token),
        None => match github_token {
            Some(token) => !blank(token),
            None => false,
        },
    }
}

/// Whether there is a token.
pub fn github_token_available(gh_token: Option<&str>, github_token: Option<&str>) -> (r: bool)
    ensures
        r == has_token(opt_slice(gh_token), opt_slice(github_token)),
{
    match gh_token {
        Some(token) => !is_blank(token),
        None => match github_token {
            Some(token) => !is_blank(token),
            None => false,
        },
    }
}

// ---------------------------------------------------------------------------
// Comments
// ---------------------------------------------------------------------------

/// What is to be done about the one comment of a kind.
#[derive(Debug, PartialEq, Eq)]
pub enum SummaryCommentAction {
    Create { body: String },
    Update { id: u64, body: String },
    Noop { id: u64 },
}

/// The request that does it, if any, and what is said of it.
#[derive(Debug, PartialEq, Eq)]
pub struct CommentStep {
    /// The method, the endpoint and the body.
    pub request: Option<(String, String, String)>,
    pub message: String,
}

/// What a comment is called.
pub open spec fn comment_name(start_signal: bool) -> Seq<char> {
    if start_signal {
        "ReviewGate start signal comment"@
    } else {
        "ReviewGate summary comment"@
    }
}

/// The view of a request.
pub open spec fn request_view(r: Option<(String, String, String)>) -> Option<
    (Seq<char>, Seq<char>, Seq<char>),
> {
    match r {
        Some((method, endpoint, body)) => Some((method@, endpoint@, body@)),
        None => None,
    }
}

/// The request that does what is to be done about a comment.
pub open spec fn comment_request(
    action: SummaryCommentAction,
    repository: Seq<char>,
    pr_number: u64,
) -> Option<(Seq<char>, Seq<char>, Seq<char>)> {
    match action {
        SummaryCommentAction::Create { body } => Some(
            ("POST"@, issue_comments_endpoint(repository, pr_number), body@),
        ),
        SummaryCommentAction::Update { id, body } => Some(
            ("PATCH"@, issue_comment_endpoint(repository, id), body@),
        ),
        SummaryCommentAction::Noop { .. } => None,
    }
}

/// What is said of what was done about a comment.
pub open spec fn comment_message(action: SummaryCommentAction, start_signal: bool) -> Seq<char> {
    let name = comment_name(start_signal);
    match action {
        SummaryCommentAction::Create { .. } => "Created "@ + name + "."@,
        SummaryCommentAction::Update { id, .. } => "Updated "@ + name + " "@ + decimal_of(
            id as nat,
        ) + "."@,
        SummaryCommentAction::Noop { id } => name + " "@ + decimal_of(id as nat)
            + " already up to date."@,
    }
}

/// What is to be done about a comment.
pub fn plan_comment_step(
    action: SummaryCommentAction,
    start_signal: bool,
    repository: &str,
    pr_number: u64,
) -> (r: CommentStep)
    ensures
        request_view(r.request) == comment_request(action, repository@, pr_number),
        r.message@ == comment_message(action, start_signal),
{
    let name = if start_signal {
        "ReviewGate start signal comment"
    } else {
        "ReviewGate summary comment"
    };
    match action {
        SummaryCommentAction::Create { body } => {
            let endpoint = crate::records::create_issue_comment(repository, pr_number);
            CommentStep {
                request: Some(("POST".to_owned(), endpoint, body)),
                message: concat3("Created ", name, "."),
            }
        },
        SummaryCommentAction::Update { id, body } => {
            let endpoint = crate::records::update_issue_comment(repository, id);
            let number = decimal(id);
            let head = concat3("Updated ", name, " ");
            CommentStep {
                request: Some(("PATCH".to_owned(), endpoint, body)),
                message: concat3(head.as_str(), number.as_str(), "."),
            }
        },
        SummaryCommentAction::Noop { id } => {
            let number = decimal(id);
            let head = concat3(name, " ", number.as_str());
            CommentStep {
                request: None,
                message: concat2(head.as_str(), " already up to date."),
            }
        },
    }
}

/// The body of the comment that says that a review is running. The state of an earlier
/// review is kept, with what it starts and ends with.
pub open spec fn start_signal_body(
    marker: Seq<char>,
    state: Option<(Seq<char>, Seq<char>, Seq<char>)>,
) -> Seq<char> {
    let head = marker + "\n\n"@;
    let kept = match state {
        Some((prefix, encoded, suffix)) => head + prefix + encoded + suffix + "\n\n"@,
        None => head,
    };
    kept + "# ReviewGate: running\n\n"@
        + "ReviewGate is reviewing this PR. The final score, concise summary, and finding comments will replace this message when the run completes.\n"@
}

/// The view of the state of an earlier review.
pub open spec fn state_view(state: Option<(&str, &str, &str)>) -> Option<
    (Seq<char>, Seq<char>, Seq<char>),
> {
    match state {
        Some((a, b, c)) => Some((a@, b@, c@)),
        None => None,
    }
}

/// The body of the comment that says that a review is running.
pub fn render_start_signal_body(marker: &str, state: Option<(&str, &str, &str)>) -> (r: String)
    ensures
        r@ == start_signal_body(marker@, state_view(state)),
{
    let mut body = concat2(marker, "\n\n");
    if let Some((prefix, encoded, suffix)) = state {
        body.append(prefix);
        body.append(encoded);
        body.append(suffix);
        body.append("\n\n");
    }
    body.append("# ReviewGate: running\n\n");
    body.append(
        "ReviewGate is reviewing this PR. The final score, concise summary, and finding comments will replace this message when the run completes.\n",
    );
    body
}

// ---------------------------------------------------------------------------
// Findings
// ---------------------------------------------------------------------------

/// How many identifiers are told.
pub const MAX_TOLD_IDS: usize = 20;

/// The first identifiers, and how many more there are.
pub open spec fn told_ids(ids: Seq<Seq<char>>) -> Seq<char> {
    if ids.len() == 0 {
        "none"@
    } else if ids.len() <= MAX_TOLD_IDS {
        joined(ids, ", "@)
    } else {
        joined(ids.take(MAX_TOLD_IDS as int), ", "@) + ", and "@ + decimal_of(
            (ids.len() - MAX_TOLD_IDS) as nat,
        ) + " more"@
    }
}

/// The first identifiers, and how many more there are.
pub fn summarize_finding_ids(ids: &Vec<String>) -> (r: String)
    ensures
        r@ == told_ids(views(ids@)),
{
    let ghost all = views(ids@);
    proof {
        assert(all.len() == ids@.len());
    }
    if ids.len() == 0 {
        return "none".to_owned();
    }
    if ids.len() <= MAX_TOLD_IDS {
        return join(ids, ", ");
    }
    let mut first: Vec<String> = Vec::new();
    let mut i: usize = 0;
    proof {
        assert(views(first@) =~= all.take(0));
    }
    while i < MAX_TOLD_IDS
        invariant
            i <= MAX_TOLD_IDS < ids@.len(),
            all == views(ids@),
            views(first@) == all.take(i as int),
        decreases MAX_TOLD_IDS - i,
    {
        let ghost before = views(first@);
        first.push(ids[i].clone());
        proof {
            assert(views(first@) =~= before.push(ids@[i as int]@));
            assert(views(first@) =~= all.take(i + 1));
        }
        i += 1;
    }
    let head = join(&first, ", ");
    let more = decimal((ids.len() - MAX_TOLD_IDS) as u64);
    let head = concat3(head.as_str(), ", and ", more.as_str());
    concat2(head.as_str(), " more")
}

/// A comment on a line of a pull request.
#[derive(Debug, PartialEq, Eq)]
pub struct InlineCommentDraft {
    pub finding_id: String,
    pub path: String,
    pub line: u32,
    pub body: String,
}

/// A comment on a new line of a commit, as it is asked for.
pub open spec fn inline_comment(draft: InlineCommentDraft, commit_id: Seq<char>) -> JsonView {
    JsonView::Object(
        seq![
            ("commit_id"@, JsonView::Text(commit_id)),
            ("path"@, JsonView::Text(draft.path@)),
            ("line"@, JsonView::Number(Some(draft.line as u64))),
            ("side"@, JsonView::Text("RIGHT"@)),
            ("body"@, JsonView::Text(draft.body@)),
        ],
    )
}

/// A comment on a new line of a commit, as it is asked for.
pub fn build_inline_comment_payload(draft: &InlineCommentDraft, commit_id: &str) -> (r: Json)
    ensures
        r@ == inline_comment(*draft, commit_id@),
{
    let mut fields: Vec<(String, Json)> = Vec::new();
    fields.push(field("commit_id", json_text(commit_id)));
    fields.push(field("path", json_text(draft.path.as_str())));
    fields.push(field("line", json_number(draft.line as u64)));
    fields.push(field("side", json_text("RIGHT")));
    fields.push(field("body", json_text(draft.body.as_str())));
    proof {
        assert(field_views(fields@) =~= inline_comment(*draft, commit_id@)->Object_0);
    }
    json_object(fields)
}

/// Where comments on findings were put.
#[derive(Debug, PartialEq, Eq)]
pub struct AnchorCounts {
    pub repaired: u32,
    pub fallback: u32,
    pub skipped: u32,
    pub skipped_finding_ids: Vec<String>,
}

/// What is said of where comments are put: a line each for what there is to say.
pub open spec fn anchor_messages(c: AnchorCounts) -> Seq<Seq<char>> {
    let repaired = if c.repaired > 0 {
        seq![
            "ReviewGate inline comments repaired "@ + decimal_of(c.repaired as nat)
                + " model-provided anchor(s) to changed lines in the PR diff."@,
        ]
    } else {
        Seq::empty()
    };
    let fallback = if c.fallback > 0 {
        repaired.push(
            "ReviewGate inline comments anchored "@ + decimal_of(c.fallback as nat)
                + " file-level, PR-level, or stale-line finding(s) to fallback right-side diff lines in the PR diff."@,
        )
    } else {
        repaired
    };
    if c.skipped > 0 {
        fallback.push(
            "ReviewGate inline comments skipped "@ + decimal_of(c.skipped as nat)
                + " finding(s) because no right-side diff anchor was available in the PR diff. Skipped finding IDs: "@
                + told_ids(views(c.skipped_finding_ids@)) + "."@,
        )
    } else {
        fallback
    }
}

fn push_message(messages: &mut Vec<String>, message: String)
    ensures
        views(final(messages)@) == views(old(messages)@).push(message@),
{
    let ghost before = views(messages@);
    messages.push(message);
    proof {
        assert(views(messages@) =~= before.push(message@));
    }
}

/// What is said of where comments are put.
pub fn describe_anchors(counts: &AnchorCounts) -> (r: Vec<String>)
    ensures
        views(r@) == anchor_messages(*counts),
{
    let mut r: Vec<String> = Vec::new();
    proof {
        assert(views(r@) =~= Seq::empty());
    }
    if counts.repaired > 0 {
        let n = decimal(counts.repaired as u64);
        push_message(
            &mut r,
            concat3(
                "ReviewGate inline comments repaired ",
                n.as_str(),
                " model-provided anchor(s) to changed lines in the PR diff.",
            ),
        );
        proof {
            assert(views(r@) =~= seq![views(r@)[0]]);
        }
    }
    if counts.fallback > 0 {
        let n = decimal(counts.fallback as u64);
        push_message(
            &mut r,
            concat3(
                "ReviewGate inline comments anchored ",
                n.as_str(),
                " file-level, PR-level, or stale-line finding(s) to fallback right-side diff lines in the PR diff.",
            ),
        );
    }
    if counts.skipped > 0 {
        let n = decimal(counts.skipped as u64);
        let ids = summarize_finding_ids(&counts.skipped_finding_ids);
        let head = concat3(
            "ReviewGate inline comments skipped ",
            n.as_str(),
            " finding(s) because no right-side diff anchor was available in the PR diff. Skipped finding IDs: ",
        );
        push_message(&mut r, concat3(head.as_str(), ids.as_str(), "."));
    }
    r
}

/// How many of the truth values are this one.
pub open spec fn count_of(values: Seq<bool>, value: bool) -> nat
    decreases values.len(),
{
    if values.len() == 0 {
        0
    } else {
        count_of(values.drop_last(), value) + if values.last() == value {
            1nat
        } else {
            0nat
        }
    }
}

fn count_values(values: &Vec<bool>, value: bool) -> (r: usize)
    ensures
        r == count_of(values@, value),
        r <= values@.len(),
{
    let mut n: usize = 0;
    let mut i: usize = 0;
    while i < values.len()
        invariant
            i <= values@.len(),
            n <= i,
            n == count_of(values@.take(i as int), value),
        decreases values@.len() - i,
    {
        proof {
            assert(values@.take(i + 1).drop_last() =~= values@.take(i as int));
            assert(values@.take(i + 1).last() == values@[i as int]);
        }
        if values[i] == value {
            n += 1;
        }
        i += 1;
    }
    proof {
        assert(values@.take(values@.len() as int) =~= values@);
    }
    n
}

/// What is said of the findings that were published.
pub open spec fn findings_report(c: AnchorCounts, posted: Seq<bool>, deleted: nat) -> Seq<
    Seq<char>,
> {
    let failed = count_of(posted, false);
    let first = "ReviewGate findings published: "@ + decimal_of(count_of(posted, true))
        + " inline; "@ + decimal_of(deleted) + " stale standalone deleted; repaired anchors: "@
        + decimal_of(c.repaired as nat) + "; fallback anchors: "@ + decimal_of(c.fallback as nat)
        + "; skipped: "@ + decimal_of(c.skipped as nat) + "; inline failed: "@ + decimal_of(failed)
        + "."@;
    if failed > 0 || c.skipped > 0 {
        seq![
            first,
            "::warning title=ReviewGate findings::Failed "@ + decimal_of(failed)
                + " inline comment(s) and skipped "@ + decimal_of(c.skipped as nat)
                + "; skipped finding IDs: "@ + told_ids(views(c.skipped_finding_ids@))
                + ". ReviewGate did not create standalone finding comments. The review JSON contains the full findings."@,
        ]
    } else {
        seq![first]
    }
}

fn add_number(text: &mut String, n: u64, label: &str)
    ensures
        final(text)@ == old(text)@ + decimal_of(n as nat) + label@,
{
    let number = decimal(n);
    text.append(number.as_str());
    text.append(label);
}

/// What is said of the findings that were published, given for each whether it could be
/// posted and how many comments that stood alone were deleted.
pub fn describe_published_findings(counts: &AnchorCounts, posted: &Vec<bool>, deleted: usize) -> (r:
    Vec<String>)
    ensures
        views(r@) == findings_report(*counts, posted@, deleted as nat),
{
    let good: usize = count_values(posted, true);
    let failed: usize = count_values(posted, false);
    let mut text = "ReviewGate findings published: ".to_owned();
    add_number(&mut text, good as u64, " inline; ");
    add_number(&mut text, deleted as u64, " stale standalone deleted; repaired anchors: ");
    add_number(&mut text, counts.repaired as u64, "; fallback anchors: ");
    add_number(&mut text, counts.fallback as u64, "; skipped: ");
    add_number(&mut text, counts.skipped as u64, "; inline failed: ");
    add_number(&mut text, failed as u64, ".");
    let mut r: Vec<String> = Vec::new();
    r.push(text);
    if failed > 0 || counts.skipped > 0 {
        let ids = summarize_finding_ids(&counts.skipped_finding_ids);
        let mut warning = "::warning title=ReviewGate findings::Failed ".to_owned();
        add_number(&mut warning, failed as u64, " inline comment(s) and skipped ");
        add_number(&mut warning, counts.skipped as u64, "; skipped finding IDs: ");
        warning.append(ids.as_str());
        warning.append(
            ". ReviewGate did not create standalone finding comments. The review JSON contains the full findings.",
        );
        r.push(warning);
    }
    proof {
        assert(views(r@) =~= findings_report(*counts, posted@, deleted as nat));
    }
    r
}

// ---------------------------------------------------------------------------
// Check runs
// ---------------------------------------------------------------------------

/// The title of a check run.
pub open spec fn title_of_check(score: Option<u8>, status: ReviewStatus) -> Seq<char> {
    match score {
        Some(score) => "ReviewGate: "@ + decimal_of(score as nat) + "/5 ("@ + status_word(status)
            + ", review completed)"@,
        None => "ReviewGate: review error (inconclusive)"@,
    }
}

/// The title of a check run.
pub fn check_run_title(score: Option<u8>, status: ReviewStatus) -> (r: String)
    ensures
        r@ == title_of_check(score, status),
{
    match score {
        Some(score) => {
            let number = decimal(score as u64);
            let head = concat3("ReviewGate: ", number.as_str(), "/5 (");
            concat3(head.as_str(), status.as_str(), ", review completed)")
        },
        None => "ReviewGate: review error (inconclusive)".to_owned(),
    }
}

/// The word for a kind of failure.
pub open spec fn kind_word(kind: ReviewErrorKind) -> Seq<char> {
    match kind {
        ReviewErrorKind::Timeout => "timeout"@,
        ReviewErrorKind::TransportError => "transport_error"@,
        ReviewErrorKind::EmptyResponse => "empty_response"@,
        ReviewErrorKind::MalformedResponse => "malformed_response"@,
        ReviewErrorKind::ProviderError => "provider_error"@,
    }
}

impl ReviewErrorKind {
    /// The word for the kind of failure.
    pub fn as_str(&self) -> (r: &'static str)
        ensures
            r@ == kind_word(*self),
    {
        match self {
            ReviewErrorKind::Timeout => "timeout",
            ReviewErrorKind::TransportError => "transport_error",
            ReviewErrorKind::EmptyResponse => "empty_response",
            ReviewErrorKind::MalformedResponse => "malformed_response",
            ReviewErrorKind::ProviderError => "provider_error",
        }
    }
}

/// What is told of an angle that failed. The model is not.
pub open spec fn public_error(e: AngleErrorView) -> JsonView {
    JsonView::Object(
        seq![
            ("angle_id"@, JsonView::Text(e.angle_id)),
            ("angle_name"@, JsonView::Text(e.angle_name)),
            ("kind"@, JsonView::Text(kind_word(e.kind))),
            ("retryable"@, JsonView::Bool(e.retryable)),
            ("message"@, JsonView::Text(e.message)),
        ],
    )
}

/// What is told of angles that failed.
pub open spec fn public_errors(errors: Seq<AngleErrorView>) -> JsonView {
    JsonView::List(errors.map_values(|e: AngleErrorView| public_error(e)))
}

/// Lines, each four blanks to the right.
pub open spec fn indented(lines: Seq<Seq<char>>) -> Seq<char> {
    joined(lines.map_values(|l: Seq<char>| "    "@ + l), "\n"@)
}

/// The summary of a check run.
pub open spec fn summary_of_check(
    verdict: Seq<char>,
    status: ReviewStatus,
    errors: Seq<char>,
) -> Seq<char> {
    if status != ReviewStatus::ReviewError {
        verdict
    } else {
        verdict + "\n\nOutcome: `review_error` (no numeric score).\n\nTyped angle errors:\n\n"@
            + indented(lines_of(errors))
    }
}

fn error_json(e: &ReviewAngleError) -> (r: Json)
    ensures
        r@ == public_error(e@),
{
    let mut fields: Vec<(String, Json)> = Vec::new();
    fields.push(field("angle_id", json_text(e.angle_id.as_str())));
    fields.push(field("angle_name", json_text(e.angle_name.as_str())));
    fields.push(field("kind", json_text(e.kind.as_str())));
    fields.push(field("retryable", json_bool(e.retryable)));
    fields.push(field("message", json_text(e.message.as_str())));
    proof {
        assert(field_views(fields@) =~= public_error(e@)->Object_0);
    }
    json_object(fields)
}

fn errors_json(errors: &Vec<ReviewAngleError>) -> (r: Json)
    ensures
        r@ == public_errors(angle_error_views(errors@)),
{
    let mut items: Vec<Json> = Vec::new();
    let mut i: usize = 0;
    while i < errors.len()
        invariant
            i <= errors@.len(),
            items@.len() == i,
            forall|k: int| 0 <= k < i ==> (#[trigger] items@[k])@ == public_error(errors@[k]@),
        decreases errors@.len() - i,
    {
        items.push(error_json(&errors[i]));
        i += 1;
    }
    proof {
        assert(json_views(items@) =~= angle_error_views(errors@).map_values(
            |e: AngleErrorView| public_error(e),
        ));
    }
    json_list(items)
}

fn indent(text: &str) -> (r: String)
    ensures
        r@ == indented(lines_of(text@)),
{
    let all = lines(text);
    let ghost wanted = views(all@).map_values(|l: Seq<char>| "    "@ + l);
    let mut moved: Vec<String> = Vec::new();
    let mut i: usize = 0;
    proof {
        assert(views(moved@) =~= wanted.take(0));
    }
    while i < all.len()
        invariant
            i <= all@.len(),
            wanted == views(all@).map_values(|l: Seq<char>| "    "@ + l),
            views(moved@) == wanted.take(i as int),
        decreases all@.len() - i,
    {
        let line = concat2("    ", all[i].as_str());
        let ghost before = views(moved@);
        moved.push(line);
        proof {
            assert(views(moved@) =~= before.push(line@));
            assert(wanted[i as int] == line@);
            assert(views(moved@) =~= wanted.take(i + 1));
        }
        i += 1;
    }
    proof {
        assert(wanted.take(wanted.len() as int) =~= wanted);
    }
    join(&moved, "\n")
}

/// The summary of a check run, given the text of the errors.
pub fn render_check_run_summary(verdict: &str, status: ReviewStatus, errors: &str) -> (r: String)
    ensures
        r@ == summary_of_check(verdict@, status, errors@),
{
    if status != ReviewStatus::ReviewError {
        return verdict.to_owned();
    }
    let errors = indent(errors);
    concat3(
        verdict,
        "\n\nOutcome: `review_error` (no numeric score).\n\nTyped angle errors:\n\n",
        errors.as_str(),
    )
}

/// The summary of a check run.
pub fn check_run_summary(
    verdict: &str,
    status: ReviewStatus,
    angle_errors: &Vec<ReviewAngleError>,
) -> (r: String)
    ensures
        r@ == summary_of_check(
            verdict@,
            status,
            json_indented(public_errors(angle_error_views(angle_errors@))),
        ),
{
    let value = errors_json(angle_errors);
    let errors = write_indented_json(&value);
    render_check_run_summary(verdict, status, errors.as_str())
}

/// A check run, as it is asked for.
pub open spec fn check_run(
    name: Seq<char>,
    head_sha: Seq<char>,
    conclusion: Seq<char>,
    title: Seq<char>,
    summary: Seq<char>,
    details_url: Option<Seq<char>>,
) -> JsonView {
    let fields = seq![
        ("name"@, JsonView::Text(name)),
        ("head_sha"@, JsonView::Text(head_sha)),
        ("status"@, JsonView::Text("completed"@)),
        ("conclusion"@, JsonView::Text(conclusion)),
        (
            "output"@,
            JsonView::Object(
                seq![("title"@, JsonView::Text(title)), ("summary"@, JsonView::Text(summary))],
            ),
        ),
    ];
    match details_url {
        Some(url) => JsonView::Object(fields.push(("details_url"@, JsonView::Text(url)))),
        None => JsonView::Object(fields),
    }
}

fn output_json(title: &str, summary: &str) -> (r: Json)
    ensures
        r@ == JsonView::Object(
            seq![("title"@, JsonView::Text(title@)), ("summary"@, JsonView::Text(summary@))],
        ),
{
    let mut fields: Vec<(String, Json)> = Vec::new();
    fields.push(field("title", json_text(title)));
    fields.push(field("summary", json_text(summary)));
    proof {
        assert(field_views(fields@) =~= seq![
            ("title"@, JsonView::Text(title@)),
            ("summary"@, JsonView::Text(summary@)),
        ]);
    }
    json_object(fields)
}

/// A check run, as it is asked for.
pub fn build_check_run_payload(
    name: &str,
    head_sha: &str,
    conclusion: &str,
    title: &str,
    summary: &str,
    details_url: Option<&str>,
) -> (r: Json)
    ensures
        r@ == check_run(
            name@,
            head_sha@,
            conclusion@,
            title@,
            summary@,
            opt_slice(details_url),
        ),
{
    let mut fields: Vec<(String, Json)> = Vec::new();
    fields.push(field("name", json_text(name)));
    fields.push(field("head_sha", json_text(head_sha)));
    fields.push(field("status", json_text("completed")));
    fields.push(field("conclusion", json_text(conclusion)));
    fields.push(field("output", output_json(title, summary)));
    if let Some(url) = details_url {
        fields.push(field("details_url", json_text(url)));
    }
    proof {
        assert(field_views(fields@) =~= check_run(
            name@,
            head_sha@,
            conclusion@,
            title@,
            summary@,
            opt_slice(details_url),
        )->Object_0);
    }
    json_object(fields)
}

/// The head that a check run is of, where there is a review: that of the pull request as
/// it is, or as the event has it, or what was reviewed.
pub fn check_run_head(live: Option<&str>, event_head: Option<&str>, reviewed_sha: &str) -> (r:
    String)
    ensures
        r@ == match (opt_slice(live), opt_slice(event_head)) {
            (Some(head), _) => head,
            (None, Some(head)) => head,
            (None, None) => reviewed_sha@,
        },
{
    match (live, event_head) {
        (Some(head), _) => head.to_owned(),
        (None, Some(head)) => head.to_owned(),
        (None, None) => reviewed_sha.to_owned(),
    }
}

/// The head that a check run is of, where there is no review.
pub fn check_run_head_without_review(
    live: Option<&str>,
    event_head: Option<&str>,
    checked_out: Option<&str>,
) -> (r: Result<String, String>)
    ensures
        result_view(r) == match (opt_slice(live), opt_slice(event_head), opt_slice(checked_out)) {
            (Some(head), _, _) => Ok(head),
            (None, Some(head), _) => Ok(head),
            (None, None, Some(head)) => Ok(head),
            (None, None, None) => Err(
                "ReviewGate check run failed: could not determine head SHA"@,
            ),
        },
{
    match (live, event_head, checked_out) {
        (Some(head), _, _) => Ok(head.to_owned()),
        (None, Some(head), _) => Ok(head.to_owned()),
        (None, None, Some(head)) => Ok(head.to_owned()),
        (None, None, None) => Err(
            "ReviewGate check run failed: could not determine head SHA".to_owned(),
        ),
    }
}

// ---------------------------------------------------------------------------
// Outputs
// ---------------------------------------------------------------------------

/// A line of output. A value of several lines is an error.
pub open spec fn output_line(name: Seq<char>, value: Seq<char>) -> Result<Seq<char>, Seq<char>> {
    if value.contains('\r') || value.contains('\n') {
        Err("GitHub output "@ + name + " must be a single line"@)
    } else {
        Ok(name + "="@ + value + "\n"@)
    }
}

/// A line of output.
pub fn append_github_output(name: &str, value: &str) -> (r: Result<String, String>)
    ensures
        result_view(r) == output_line(name@, value@),
{
    if has_char(value, '\r') || has_char(value, '\n') {
        return Err(concat3("GitHub output ", name, " must be a single line"));
    }
    let line = concat3(name, "=", value);
    Ok(concat2(line.as_str(), "\n"))
}

/// What is said of a score.
pub open spec fn score_text(score: Option<u8>, missing: Seq<char>) -> Seq<char> {
    match score {
        Some(n) => decimal_of(n as nat),
        None => missing,
    }
}

/// What is said of a score.
pub fn render_score(score: Option<u8>, missing: &str) -> (r: String)
    ensures
        r@ == score_text(score, missing@),
{
    match score {
        Some(n) => decimal(n as u64),
        None => missing.to_owned(),
    }
}

/// The address of a run.
pub open spec fn run_url(
    server: Option<Seq<char>>,
    repository: Option<Seq<char>>,
    run_id: Option<Seq<char>>,
) -> Option<Seq<char>> {
    match (repository, run_id) {
        (Some(repository), Some(run_id)) => Some(
            (match server {
                Some(s) => s,
                None => "https://github.com"@,
            }) + "/"@ + repository + "/actions/runs/"@ + run_id,
        ),
        _ => None,
    }
}

/// The address of a run.
pub fn github_actions_run_url(
    server_url: Option<&str>,
    repository: Option<&str>,
    run_id: Option<&str>,
) -> (r: Option<String>)
    ensures
        opt_view(r) == run_url(opt_slice(server_url), opt_slice(repository), opt_slice(run_id)),
{
    let server = match server_url {
        Some(s) => s,
        None => "https://github.com",
    };
    match (repository, run_id) {
        (Some(repository), Some(run_id)) => {
            let head = concat3(server, "/", repository);
            Some(concat3(head.as_str(), "/actions/runs/", run_id))
        },
        _ => None,
    }
}

/// The findings of which it is not known how their threads stand, in order, each once.
pub fn unknown_thread_findings(tracked_findings: Vec<String>, findings: Vec<String>) -> (r: Vec<
    String,
>)
    ensures
        views(r@) == ordered_set(views(tracked_findings@) + views(findings@)),
{
    let ghost a = views(tracked_findings@);
    let ghost b = views(findings@);
    let mut all = tracked_findings;
    let mut more = findings;
    all.append(&mut more);
    proof {
        assert(views(all@) =~= a + b);
    }
    sort_unique(all)
}

// ---------------------------------------------------------------------------
// Summaries
// ---------------------------------------------------------------------------

/// A finding that is tracked, with what became of it so far.
#[derive(Debug, PartialEq, Eq)]
pub struct TrackedHistory {
    pub semantic_fingerprint: String,
    pub history: Vec<String>,
}

/// A finding that is tracked, with what became of it so far.
pub struct HistoryView {
    pub semantic_fingerprint: Seq<char>,
    pub history: Seq<Seq<char>>,
}

impl View for TrackedHistory {
    type V = HistoryView;

    open spec fn view(&self) -> HistoryView {
        HistoryView {
            semantic_fingerprint: self.semantic_fingerprint@,
            history: views(self.history@),
        }
    }
}

/// What findings that are tracked are.
pub open spec fn history_views(s: Seq<TrackedHistory>) -> Seq<HistoryView> {
    s.map_values(|t: TrackedHistory| t@)
}

/// The first finding with this fingerprint among those from `from` on.
pub open spec fn history_from(s: Seq<HistoryView>, fingerprint: Seq<char>, from: int) -> Option<
    HistoryView,
>
    decreases s.len() - from,
{
    if from < 0 || from >= s.len() {
        None
    } else if s[from].semantic_fingerprint == fingerprint {
        Some(s[from])
    } else {
        history_from(s, fingerprint, from + 1)
    }
}

/// All that became of a finding is known.
pub open spec fn carried_over(prior: HistoryView, current: Seq<HistoryView>) -> bool {
    history_from(current, prior.semantic_fingerprint, 0) matches Some(now) && forall|i: int|
        0 <= i < prior.history.len() ==> now.history.contains(#[trigger] prior.history[i])
}

/// All findings of an earlier review are known, with all that became of them.
pub open spec fn base_reconciled(previous: Seq<HistoryView>, current: Seq<HistoryView>) -> bool {
    forall|i: int| 0 <= i < previous.len() ==> carried_over(#[trigger] previous[i], current)
}

fn find_history<'a>(s: &'a Vec<TrackedHistory>, fingerprint: &str) -> (r: Option<
    &'a TrackedHistory,
>)
    ensures
        match r {
            Some(t) => history_from(history_views(s@), fingerprint@, 0) == Some(t@),
            None => history_from(history_views(s@), fingerprint@, 0) is None,
        },
{
    let ghost all = history_views(s@);
    let mut i: usize = 0;
    while i < s.len()
        invariant
            i <= s@.len(),
            all == history_views(s@),
            all.len() == s@.len(),
            history_from(all, fingerprint@, 0) == history_from(all, fingerprint@, i as int),
        decreases s@.len() - i,
    {
        proof {
            assert(all[i as int] == s@[i as int]@);
        }
        if same_text(s[i].semantic_fingerprint.as_str(), fingerprint) {
            return Some(&s[i]);
        }
        i += 1;
    }
    None
}

fn holds_all(list: &Vec<String>, wanted: &Vec<String>) -> (r: bool)
    ensures
        r == forall|i: int|
            0 <= i < wanted@.len() ==> views(list@).contains(#[trigger] views(wanted@)[i]),
{
    let ghost all = views(wanted@);
    let mut i: usize = 0;
    while i < wanted.len()
        invariant
            i <= wanted@.len(),
            all == views(wanted@),
            forall|k: int| 0 <= k < i ==> views(list@).contains(#[trigger] all[k]),
        decreases wanted@.len() - i,
    {
        proof {
            assert(all[i as int] == wanted@[i as int]@);
        }
        if !holds(list, wanted[i].as_str()) {
            return false;
        }
        i += 1;
    }
    true
}

/// Whether all findings of an earlier review are known, with all that became of them.
pub fn publication_base_is_already_reconciled(
    previous: &Vec<TrackedHistory>,
    current: &Vec<TrackedHistory>,
) -> (r: bool)
    ensures
        r == base_reconciled(history_views(previous@), history_views(current@)),
{
    let ghost all = history_views(previous@);
    let ghost now = history_views(current@);
    let mut i: usize = 0;
    while i < previous.len()
        invariant
            i <= previous@.len(),
            all == history_views(previous@),
            now == history_views(current@),
            forall|k: int| 0 <= k < i ==> carried_over(#[trigger] all[k], now),
        decreases previous@.len() - i,
    {
        let prior = &previous[i];
        proof {
            assert(all[i as int] == prior@);
            assert(prior@.history.len() == prior.history@.len());
        }
        match find_history(current, prior.semantic_fingerprint.as_str()) {
            None => {
                return false;
            },
            Some(tracked_now) => {
                if !holds_all(&tracked_now.history, &prior.history) {
                    return false;
                }
            },
        }
        i += 1;
    }
    true
}

/// Whether the findings of a review that is published have to be held against those of an
/// earlier one.
pub fn prepare_summary_publication_artifact(
    previous: &Vec<TrackedHistory>,
    current: &Vec<TrackedHistory>,
) -> (r: bool)
    ensures
        r == (current@.len() == 0 || !base_reconciled(
            history_views(previous@),
            history_views(current@),
        )),
{
    current.len() == 0 || !publication_base_is_already_reconciled(previous, current)
}

/// Findings that were held against an earlier review need it no more: what was carried
/// over from a list to itself is all there.
pub proof fn law_a_review_is_reconciled_with_itself(s: Seq<HistoryView>)
    requires
        forall|i: int, j: int|
            0 <= i < j < s.len() ==> (#[trigger] s[i]).semantic_fingerprint != (
            #[trigger] s[j]).semantic_fingerprint,
    ensures
        base_reconciled(s, s),
{
    assert forall|i: int| 0 <= i < s.len() implies carried_over(#[trigger] s[i], s) by {
        lemma_history_found(s, i, 0);
    }
}

proof fn lemma_history_found(s: Seq<HistoryView>, i: int, from: int)
    requires
        0 <= from <= i < s.len(),
        forall|a: int, b: int|
            0 <= a < b < s.len() ==> (#[trigger] s[a]).semantic_fingerprint != (
            #[trigger] s[b]).semantic_fingerprint,
    ensures
        history_from(s, s[i].semantic_fingerprint, from) == Some(s[i]),
    decreases i - from,
{
    if from < i {
        lemma_history_found(s, i, from + 1);
    }
}

/// A disposition that was recorded with a review.
#[derive(Debug, PartialEq, Eq)]
pub struct UpdateRecord {
    pub semantic_fingerprint: String,
    pub disposition: String,
    pub evidence_summary: String,
    pub actor: String,
    pub reviewed_sha: String,
    pub code_fingerprint: String,
    /// The finding that resolves it, written out.
    pub resolution: String,
}

/// A disposition that was recorded with a review.
pub struct UpdateView {
    pub semantic_fingerprint: Seq<char>,
    pub disposition: Seq<char>,
    pub evidence_summary: Seq<char>,
    pub actor: Seq<char>,
    pub reviewed_sha: Seq<char>,
    pub code_fingerprint: Seq<char>,
    pub resolution: Seq<char>,
}

impl View for UpdateRecord {
    type V = UpdateView;

    open spec fn view(&self) -> UpdateView {
        UpdateView {
            semantic_fingerprint: self.semantic_fingerprint@,
            disposition: self.disposition@,
            evidence_summary: self.evidence_summary@,
            actor: self.actor@,
            reviewed_sha: self.reviewed_sha@,
            code_fingerprint: self.code_fingerprint@,
            resolution: self.resolution@,
        }
    }
}

/// What dispositions that were recorded are.
pub open spec fn update_views(s: Seq<UpdateRecord>) -> Seq<UpdateView> {
    s.map_values(|u: UpdateRecord| u@)
}

fn same_update(a: &UpdateRecord, b: &UpdateRecord) -> (r: bool)
    ensures
        r == (a@ == b@),
{
    same_text(a.semantic_fingerprint.as_str(), b.semantic_fingerprint.as_str()) && same_text(
        a.disposition.as_str(),
        b.disposition.as_str(),
    ) && same_text(a.evidence_summary.as_str(), b.evidence_summary.as_str()) && same_text(
        a.actor.as_str(),
        b.actor.as_str(),
    ) && same_text(a.reviewed_sha.as_str(), b.reviewed_sha.as_str()) && same_text(
        a.code_fingerprint.as_str(),
        b.code_fingerprint.as_str(),
    ) && same_text(a.resolution.as_str(), b.resolution.as_str())
}

fn same_updates(a: &Vec<UpdateRecord>, b: &Vec<UpdateRecord>) -> (r: bool)
    ensures
        r == (update_views(a@) == update_views(b@)),
{
    let ghost x = update_views(a@);
    let ghost y = update_views(b@);
    proof {
        assert(x.len() == a@.len());
        assert(y.len() == b@.len());
    }
    if a.len() != b.len() {
        return false;
    }
    let mut i: usize = 0;
    while i < a.len()
        invariant
            i <= a@.len(),
            a@.len() == b@.len(),
            x == update_views(a@),
            y == update_views(b@),
            forall|k: int| 0 <= k < i ==> x[k] == y[k],
        decreases a@.len() - i,
    {
        proof {
            assert(x[i as int] == a@[i as int]@);
            assert(y[i as int] == b@[i as int]@);
        }
        if !same_update(&a[i], &b[i]) {
            return false;
        }
        i += 1;
    }
    proof {
        assert(x =~= y);
    }
    true
}

/// Whether the dispositions that were recorded with a review are those that its evidence
/// gives.
pub fn validate_serialized_disposition_updates(
    given: &Vec<UpdateRecord>,
    derived: &Vec<UpdateRecord>,
) -> (r: Result<(), String>)
    ensures
        unit_result(r) == if given@.len() == 0 || update_views(given@) == update_views(derived@) {
            Ok(())
        } else {
            Err(
                "serialized disposition updates do not match repository-grounded resolution evidence"@,
            )
        },
{
    if given.len() == 0 || same_updates(given, derived) {
        Ok(())
    } else {
        Err(
            "serialized disposition updates do not match repository-grounded resolution evidence".to_owned(),
        )
    }
}

// ---------------------------------------------------------------------------
// What holds of it
// ---------------------------------------------------------------------------

/// Something is published exactly if all that it needs is there: the event of a pull
/// request with its number, a token, and what is to be published where it is read.
pub proof fn law_what_is_asked_for_is_published(
    publication: Publication,
    event_name: Seq<char>,
    input: Seq<char>,
    has_input: bool,
    has_token: bool,
    event: Option<JsonView>,
)
    ensures
        ({
            let reads = publication != Publication::StartSignal && publication
                != Publication::AgentResult;
            let g = gate(publication, event_name, input, has_input, has_token, event);
            &&& g is Publish <==> event_name == "pull_request"@ && (has_input || !reads)
                && has_token && (event matches Some(e) && unsigned_at(
                e,
                "pull_request.number"@,
            ) is Some)
            &&& g matches GateView::Publish { pr_number } ==> (event matches Some(e)
                && unsigned_at(e, "pull_request.number"@) == Some(pr_number))
            &&& publication == Publication::StartSignal || publication == Publication::Findings
                ==> !(g is Fail)
            &&& publication == Publication::AgentResult ==> !(g is Skip)
            &&& publication == Publication::Summary && g is Fail ==> !has_input
            &&& publication == Publication::Threads && event_name != "pull_request"@ ==> g is Skip
            &&& publication == Publication::Threads && event_name == "pull_request"@
                && !has_token ==> g is Fail
        }),
{
}

/// A token is there if the first variable that is set is not blank.
pub proof fn law_tokens(gh: Option<Seq<char>>, github: Option<Seq<char>>)
    ensures
        gh matches Some(t) ==> (has_token(gh, github) <==> !blank(t)),
        gh is None ==> (has_token(gh, github) <==> (github matches Some(t) && !blank(t))),
{
}

/// A comment is created where the pull request is, changed where it is, and left alone
/// otherwise.
pub proof fn law_comments_are_written_once(
    body: String,
    id: u64,
    repository: Seq<char>,
    pr_number: u64,
)
    ensures
        comment_request(SummaryCommentAction::Create { body }, repository, pr_number) == Some(
            (
                "POST"@,
                "repos/"@ + repository + "/issues/"@ + decimal_of(pr_number as nat) + "/comments"@,
                body@,
            ),
        ),
        comment_request(SummaryCommentAction::Update { id, body }, repository, pr_number) == Some(
            (
                "PATCH"@,
                "repos/"@ + repository + "/issues/comments/"@ + decimal_of(id as nat),
                body@,
            ),
        ),
        comment_request(SummaryCommentAction::Noop { id }, repository, pr_number) is None,
{
}

/// A start signal starts with the mark, and keeps the state of the comment that it
/// replaces.
pub proof fn law_start_signals_keep_the_state(
    marker: Seq<char>,
    prefix: Seq<char>,
    encoded: Seq<char>,
    suffix: Seq<char>,
)
    ensures
        marker.is_prefix_of(start_signal_body(marker, None)),
        (marker + "\n\n"@ + prefix + encoded + suffix).is_prefix_of(
            start_signal_body(marker, Some((prefix, encoded, suffix))),
        ),
{
    let a = start_signal_body(marker, None);
    assert(a.take(marker.len() as int) =~= marker);
    let b = start_signal_body(marker, Some((prefix, encoded, suffix)));
    let head = marker + "\n\n"@ + prefix + encoded + suffix;
    assert(b.take(head.len() as int) =~= head);
}

/// Up to twenty identifiers are told, and of more how many more there are.
pub proof fn law_told_ids(ids: Seq<Seq<char>>)
    ensures
        ids.len() == 0 ==> told_ids(ids) == "none"@,
        0 < ids.len() <= 20 ==> told_ids(ids) == joined(ids, ", "@),
        ids.len() > 20 ==> told_ids(ids) == joined(ids.take(20), ", "@) + ", and "@ + decimal_of(
            (ids.len() - 20) as nat,
        ) + " more"@,
{
}

/// A comment on a line names the commit, the file, the line on its new side and the text.
pub proof fn law_line_comments(draft: InlineCommentDraft, commit_id: Seq<char>)
    ensures
        inline_comment(draft, commit_id).get("commit_id"@) == Some(JsonView::Text(commit_id)),
        inline_comment(draft, commit_id) matches JsonView::Object(fields) && fields.len() == 5
            && fields.contains(("path"@, JsonView::Text(draft.path@))) && fields.contains(
            ("line"@, JsonView::Number(Some(draft.line as u64))),
        ) && fields.contains(("side"@, JsonView::Text("RIGHT"@))) && fields.contains(
            ("body"@, JsonView::Text(draft.body@)),
        ),
{
    let fields = inline_comment(draft, commit_id)->Object_0;
    assert(fields[0] == ("commit_id"@, JsonView::Text(commit_id)));
    assert(fields[1] == ("path"@, JsonView::Text(draft.path@)));
    assert(fields[2] == ("line"@, JsonView::Number(Some(draft.line as u64))));
    assert(fields[3] == ("side"@, JsonView::Text("RIGHT"@)));
    assert(fields[4] == ("body"@, JsonView::Text(draft.body@)));
}

/// It is told where comments were put, one message for each way that was used.
pub proof fn law_anchor_messages(c: AnchorCounts)
    ensures
        anchor_messages(c).len() == (if c.repaired > 0 {
            1int
        } else {
            0
        }) + (if c.fallback > 0 {
            1int
        } else {
            0
        }) + (if c.skipped > 0 {
            1int
        } else {
            0
        }),
        c.repaired > 0 ==> anchor_messages(c)[0] == "ReviewGate inline comments repaired "@
            + decimal_of(c.repaired as nat)
            + " model-provided anchor(s) to changed lines in the PR diff."@,
        c.skipped > 0 ==> ("Skipped finding IDs: "@ + told_ids(views(c.skipped_finding_ids@))
            + "."@).is_suffix_of(anchor_messages(c).last()),
{
    if c.skipped > 0 {
        let all = anchor_messages(c).last();
        let end = "Skipped finding IDs: "@ + told_ids(views(c.skipped_finding_ids@)) + "."@;
        reveal_strlit("Skipped finding IDs: ");
        reveal_strlit(
            " finding(s) because no right-side diff anchor was available in the PR diff. Skipped finding IDs: ",
        );
        assert(all.subrange(all.len() - end.len(), all.len() as int) =~= end);
    }
}

/// What was published is counted one by one, and a warning is given exactly if something
/// failed or was left out.
pub proof fn law_published_findings_are_counted(
    c: AnchorCounts,
    posted: Seq<bool>,
    next: bool,
    deleted: nat,
)
    ensures
        count_of(Seq::empty(), next) == 0,
        count_of(posted.push(next), next) == count_of(posted, next) + 1,
        count_of(posted.push(!next), next) == count_of(posted, next),
        findings_report(c, posted, deleted).len() == 2 <==> count_of(posted, false) > 0
            || c.skipped > 0,
        findings_report(c, posted, deleted).len() == 1 <==> count_of(posted, false) == 0
            && c.skipped == 0,
        ("ReviewGate findings published: "@ + decimal_of(count_of(posted, true)) + " inline; "@
            + decimal_of(deleted) + " stale standalone deleted; "@).is_prefix_of(
            findings_report(c, posted, deleted)[0],
        ),
        ("; inline failed: "@ + decimal_of(count_of(posted, false)) + "."@).is_suffix_of(
            findings_report(c, posted, deleted)[0],
        ),
{
    assert(posted.push(next).drop_last() =~= posted);
    assert(posted.push(!next).drop_last() =~= posted);
    let all = findings_report(c, posted, deleted)[0];
    let head = "ReviewGate findings published: "@ + decimal_of(count_of(posted, true))
        + " inline; "@ + decimal_of(deleted) + " stale standalone deleted; "@;
    reveal_strlit(" stale standalone deleted; ");
    reveal_strlit(" stale standalone deleted; repaired anchors: ");
    assert(all.take(head.len() as int) =~= head);
    let end = "; inline failed: "@ + decimal_of(count_of(posted, false)) + "."@;
    assert(all.subrange(all.len() - end.len(), all.len() as int) =~= end);
}

/// The title of a check tells the score and the status, or that there is none.
pub proof fn law_check_titles(score: u8, status: ReviewStatus)
    ensures
        title_of_check(Some(score), status) == "ReviewGate: "@ + decimal_of(score as nat) + "/5 ("@
            + status_word(status) + ", review completed)"@,
        title_of_check(None, status) == "ReviewGate: review error (inconclusive)"@,
{
}

/// The summary of a check is the verdict, and behind it what went wrong exactly where the
/// review failed.
pub proof fn law_check_summaries(verdict: Seq<char>, status: ReviewStatus, errors: Seq<char>)
    ensures
        verdict.is_prefix_of(summary_of_check(verdict, status, errors)),
        status != ReviewStatus::ReviewError ==> summary_of_check(verdict, status, errors)
            == verdict,
        status == ReviewStatus::ReviewError ==> indented(lines_of(errors)).is_suffix_of(
            summary_of_check(verdict, status, errors),
        ) && summary_of_check(verdict, status, errors).len() > verdict.len(),
{
    let all = summary_of_check(verdict, status, errors);
    assert(all.take(verdict.len() as int) =~= verdict);
    if status == ReviewStatus::ReviewError {
        let end = indented(lines_of(errors));
        assert(all.subrange(all.len() - end.len(), all.len() as int) =~= end);
        reveal_strlit(
            "\n\nOutcome: `review_error` (no numeric score).\n\nTyped angle errors:\n\n",
        );
    }
}

/// What went wrong with an angle is told without the model that was asked.
pub proof fn law_public_errors(errors: Seq<AngleErrorView>, i: int)
    requires
        0 <= i < errors.len(),
    ensures
        public_errors(errors) matches JsonView::List(told) && told.len() == errors.len()
            && told[i] == public_error(errors[i]),
        public_error(errors[i]) matches JsonView::Object(fields) && fields.len() == 5 && fields[0]
            == ("angle_id"@, JsonView::Text(errors[i].angle_id)) && fields[1] == (
            "angle_name"@,
            JsonView::Text(errors[i].angle_name),
        ) && fields[2] == ("kind"@, JsonView::Text(kind_word(errors[i].kind))) && fields[3] == (
            "retryable"@,
            JsonView::Bool(errors[i].retryable),
        ) && fields[4] == ("message"@, JsonView::Text(errors[i].message)),
{
}

/// A check names the head that it is of, its conclusion, and what is shown of it; a link
/// stands there exactly if there is one.
pub proof fn law_checks(
    name: Seq<char>,
    head_sha: Seq<char>,
    conclusion: Seq<char>,
    title: Seq<char>,
    summary: Seq<char>,
    url: Option<Seq<char>>,
)
    ensures
        check_run(name, head_sha, conclusion, title, summary, url) matches JsonView::Object(fields)
            && fields[0] == ("name"@, JsonView::Text(name)) && fields[1] == (
            "head_sha"@,
            JsonView::Text(head_sha),
        ) && fields[2] == ("status"@, JsonView::Text("completed"@)) && fields[3] == (
            "conclusion"@,
            JsonView::Text(conclusion),
        ) && fields[4] == (
            "output"@,
            JsonView::Object(
                seq![("title"@, JsonView::Text(title)), ("summary"@, JsonView::Text(summary))],
            ),
        ) && (url is None ==> fields.len() == 5) && (url matches Some(u) ==> fields.len() == 6
            && fields[5] == ("details_url"@, JsonView::Text(u))),
{
}

/// An output is one line, and a value of more than one is refused.
pub proof fn law_outputs_are_one_line(name: Seq<char>, value: Seq<char>)
    ensures
        output_line(name, value) is Ok <==> !value.contains('\n') && !value.contains('\r'),
        output_line(name, value) matches Ok(line) ==> line == name + "="@ + value + "\n"@,
{
}

/// The address of a run, where all of it is known.
pub proof fn law_run_addresses(
    server: Option<Seq<char>>,
    repository: Option<Seq<char>>,
    run_id: Option<Seq<char>>,
)
    ensures
        run_url(server, repository, run_id) is Some <==> repository is Some && run_id is Some,
        repository matches Some(r) ==> (run_id matches Some(id) ==> run_url(
            None,
            repository,
            run_id,
        ) == Some("https://github.com"@ + "/"@ + r + "/actions/runs/"@ + id)),
        repository matches Some(r) ==> (run_id matches Some(id) ==> (server matches Some(s)
            ==> run_url(server, repository, run_id) == Some(
            s + "/"@ + r + "/actions/runs/"@ + id,
        ))),
{
}

/// A review holds what was published before exactly if every finding of it is there with
/// all of its history.
pub proof fn law_reviews_hold_what_was_published(
    previous: Seq<HistoryView>,
    current: Seq<HistoryView>,
    i: int,
    entry: Seq<char>,
)
    requires
        0 <= i < previous.len(),
    ensures
        (forall|k: int|
            0 <= k < current.len() ==> (#[trigger] current[k]).semantic_fingerprint
                != previous[i].semantic_fingerprint) ==> !base_reconciled(previous, current),
        base_reconciled(previous, current) && previous[i].history.contains(entry) ==> exists|k: int|
            0 <= k < current.len() && (#[trigger] current[k]).semantic_fingerprint
                == previous[i].semantic_fingerprint && current[k].history.contains(entry),
        base_reconciled(Seq::empty(), current),
{
    let f = previous[i].semantic_fingerprint;
    lemma_history_is_first(current, f, 0);
    if base_reconciled(previous, current) {
        assert(carried_over(previous[i], current));
        let now = history_from(current, f, 0)->0;
        if previous[i].history.contains(entry) {
            let j = choose|j: int|
                0 <= j < previous[i].history.len() && previous[i].history[j] == entry;
            assert(now.history.contains(previous[i].history[j]));
        }
    }
}

proof fn lemma_history_is_first(s: Seq<HistoryView>, fingerprint: Seq<char>, from: int)
    requires
        0 <= from,
    ensures
        history_from(s, fingerprint, from) matches Some(h) ==> h.semantic_fingerprint == fingerprint
            && exists|k: int| from <= k < s.len() && #[trigger] s[k] == h,
        history_from(s, fingerprint, from) is None ==> forall|k: int|
            from <= k < s.len() ==> (#[trigger] s[k]).semantic_fingerprint != fingerprint,
    decreases s.len() - from,
{
    if from < s.len() {
        if s[from].semantic_fingerprint == fingerprint {
            assert(s[from] == history_from(s, fingerprint, from)->0);
        } else {
            lemma_history_is_first(s, fingerprint, from + 1);
        }
    }
}

/// What is missing is told in one order: the event, the input, the token, the text of the
/// event, and the number in it.
pub proof fn law_what_is_missing_is_told_in_order(
    publication: Publication,
    event_name: Seq<char>,
    has_input: bool,
    has_token: bool,
    event: Option<JsonView>,
)
    ensures
        ({
            let reads = publication != Publication::StartSignal && publication
                != Publication::AgentResult;
            let missing = missing_for(publication, event_name, has_input, has_token, event);
            &&& missing == Err::<u64, Missing>(Missing::PullRequestEvent) <==> event_name
                != "pull_request"@
            &&& missing == Err::<u64, Missing>(Missing::Input) <==> event_name == "pull_request"@
                && reads && !has_input
            &&& missing == Err::<u64, Missing>(Missing::Token) <==> event_name == "pull_request"@
                && (!reads || has_input) && !has_token
            &&& missing == Err::<u64, Missing>(Missing::Event) <==> event_name == "pull_request"@
                && (!reads || has_input) && has_token && event is None
        }),
{
}

} // verus!
