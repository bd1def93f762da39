//! How the findings of a review are published as comments on lines: every comment is tried
//! once, and only then are comments removed that stand alone.
use vstd::prelude::*;

use crate::json::{json_view, Json, JsonView};
use crate::number::{decimal, decimal_of};
use crate::publish::{
    anchor_messages, build_inline_comment_payload, describe_anchors, describe_published_findings,
    findings_report, inline_comment, AnchorCounts, InlineCommentDraft,
};
use crate::records::{delete_issue_comment, issue_comment_endpoint};
use crate::text::{concat2, concat3, views};

verus! {

/// The commit that findings are published on.
#[derive(Debug, PartialEq, Eq)]
pub struct FindingsJob {
    pub repository: String,
    pub pr_number: u64,
    pub commit_id: String,
}

/// The commit that findings are published on.
pub struct FindingsJobView {
    pub repository: Seq<char>,
    pub pr_number: u64,
    pub commit_id: Seq<char>,
}

impl View for FindingsJob {
    type V = FindingsJobView;

    open spec fn view(&self) -> FindingsJobView {
        FindingsJobView {
            repository: self.repository@,
            pr_number: self.pr_number,
            commit_id: self.commit_id@,
        }
    }
}

/// How far the publication has come. In a list of what is left, what is under way stands
/// first.
#[derive(Debug, PartialEq, Eq)]
pub enum FindingsState {
    Posting {
        counts: AnchorCounts,
        drafts: Vec<InlineCommentDraft>,
        posted: Vec<bool>,
        stale: Vec<u64>,
    },
    Deleting { counts: AnchorCounts, posted: Vec<bool>, stale: Vec<u64>, deleted: usize },
    Finished,
}

/// How far the publication has come.
pub enum FindingsStateView {
    Posting {
        counts: AnchorCounts,
        drafts: Seq<InlineCommentDraft>,
        posted: Seq<bool>,
        stale: Seq<u64>,
    },
    Deleting { counts: AnchorCounts, posted: Seq<bool>, stale: Seq<u64>, deleted: nat },
    Finished,
}

impl View for FindingsState {
    type V = FindingsStateView;

    open spec fn view(&self) -> FindingsStateView {
        match self {
            FindingsState::Posting { counts, drafts, posted, stale } =>
                FindingsStateView::Posting {
                counts: *counts,
                drafts: drafts@,
                posted: posted@,
                stale: stale@,
            },
            FindingsState::Deleting { counts, posted, stale, deleted } =>
                FindingsStateView::Deleting {
                counts: *counts,
                posted: posted@,
                stale: stale@,
                deleted: *deleted as nat,
            },
            FindingsState::Finished => FindingsStateView::Finished,
        }
    }
}

/// What is done next.
#[derive(Debug, PartialEq, Eq)]
pub enum FindingsAction {
    /// Write a comment on a line.
    Post { endpoint: String, payload: Json },
    /// Remove a comment.
    Delete { endpoint: String },
    /// The findings are published.
    Done,
}

/// What is done next.
pub enum FindingsActionView {
    Post { endpoint: Seq<char>, payload: JsonView },
    Delete { endpoint: Seq<char> },
    Done,
}

impl View for FindingsAction {
    type V = FindingsActionView;

    open spec fn view(&self) -> FindingsActionView {
        match self {
            FindingsAction::Post { endpoint, payload } => FindingsActionView::Post {
                endpoint: endpoint@,
                payload: json_view(*payload),
            },
            FindingsAction::Delete { endpoint } => FindingsActionView::Delete {
                endpoint: endpoint@,
            },
            FindingsAction::Done => FindingsActionView::Done,
        }
    }
}

/// What came back.
#[derive(Debug, Clone, Copy, PartialEq, Eq, Structural)]
pub enum FindingsEvent {
    /// Whether the comment could be written.
    Posted { done: bool },
    /// The comment was removed.
    Deleted,
}

/// The state that follows, what is said, what is warned of and what is done.
#[derive(Debug, PartialEq, Eq)]
pub struct FindingsStep {
    pub state: FindingsState,
    pub notices: Vec<String>,
    pub warnings: Vec<String>,
    pub action: FindingsAction,
}

/// The state that follows, what is said, what is warned of and what is done.
#[verifier::ext_equal]
pub struct FindingsStepView {
    pub state: FindingsStateView,
    pub notices: Seq<Seq<char>>,
    pub warnings: Seq<Seq<char>>,
    pub action: FindingsActionView,
}

impl View for FindingsStep {
    type V = FindingsStepView;

    open spec fn view(&self) -> FindingsStepView {
        FindingsStepView {
            state: self.state@,
            notices: views(self.notices@),
            warnings: views(self.warnings@),
            action: self.action@,
        }
    }
}

/// What may come back in a state.
pub open spec fn findings_answers(state: FindingsStateView, event: FindingsEvent) -> bool {
    match state {
        FindingsStateView::Posting { drafts, .. } => drafts.len() > 0 && event is Posted,
        FindingsStateView::Deleting { stale, deleted, .. } => stale.len() > 0 && deleted
            + stale.len() <= usize::MAX && event is Deleted,
        FindingsStateView::Finished => false,
    }
}

/// Where comments on lines are written.
pub open spec fn line_comments_endpoint(repository: Seq<char>, pr_number: u64) -> Seq<char> {
    "repos/"@ + repository + "/pulls/"@ + decimal_of(pr_number as nat) + "/comments"@
}

/// What is warned of where a comment could not be written.
pub open spec fn post_warning(draft: InlineCommentDraft) -> Seq<char> {
    "ReviewGate inline comment could not be posted for finding "@ + draft.finding_id@
        + ". The review JSON contains the full finding."@
}

/// The comments that stand alone are removed, one after the other. In the end it is told
/// what was published.
pub open spec fn remove_stale(
    job: FindingsJobView,
    counts: AnchorCounts,
    posted: Seq<bool>,
    stale: Seq<u64>,
    deleted: nat,
    notices: Seq<Seq<char>>,
    warnings: Seq<Seq<char>>,
) -> FindingsStepView {
    if stale.len() == 0 {
        FindingsStepView {
            state: FindingsStateView::Finished,
            notices: notices + findings_report(counts, posted, deleted),
            warnings,
            action: FindingsActionView::Done,
        }
    } else {
        FindingsStepView {
            state: FindingsStateView::Deleting { counts, posted, stale, deleted },
            notices,
            warnings,
            action: FindingsActionView::Delete {
                endpoint: issue_comment_endpoint(job.repository, stale[0]),
            },
        }
    }
}

/// The comments are written, one after the other.
pub open spec fn post_drafts(
    job: FindingsJobView,
    counts: AnchorCounts,
    drafts: Seq<InlineCommentDraft>,
    posted: Seq<bool>,
    stale: Seq<u64>,
    notices: Seq<Seq<char>>,
    warnings: Seq<Seq<char>>,
) -> FindingsStepView {
    if drafts.len() == 0 {
        remove_stale(job, counts, posted, stale, 0, notices, warnings)
    } else {
        FindingsStepView {
            state: FindingsStateView::Posting { counts, drafts, posted, stale },
            notices,
            warnings,
            action: FindingsActionView::Post {
                endpoint: line_comments_endpoint(job.repository, job.pr_number),
                payload: inline_comment(drafts[0], job.commit_id),
            },
        }
    }
}

/// What follows what came back. That a comment could not be written stops nothing.
pub open spec fn findings_step(
    job: FindingsJobView,
    state: FindingsStateView,
    event: FindingsEvent,
) -> FindingsStepView {
    match (state, event) {
        (
            FindingsStateView::Posting { counts, drafts, posted, stale },
            FindingsEvent::Posted { done },
        ) => post_drafts(
            job,
            counts,
            drafts.skip(1),
            posted.push(done),
            stale,
            Seq::empty(),
            if done {
                Seq::empty()
            } else {
                seq![post_warning(drafts[0])]
            },
        ),
        (
            FindingsStateView::Deleting { counts, posted, stale, deleted },
            FindingsEvent::Deleted,
        ) => remove_stale(
            job,
            counts,
            posted,
            stale.skip(1),
            deleted + 1,
            Seq::empty(),
            Seq::empty(),
        ),
        _ => FindingsStepView {
            state: FindingsStateView::Finished,
            notices: Seq::empty(),
            warnings: Seq::empty(),
            action: FindingsActionView::Done,
        },
    }
}

fn remove_next(
    job: &FindingsJob,
    counts: AnchorCounts,
    posted: Vec<bool>,
    stale: Vec<u64>,
    deleted: usize,
    notices: Vec<String>,
    warnings: Vec<String>,
) -> (r: FindingsStep)
    ensures
        r@ == remove_stale(
            job@,
            counts,
            posted@,
            stale@,
            deleted as nat,
            views(notices@),
            views(warnings@),
        ),
{
    if stale.len() == 0 {
        let ghost before = views(notices@);
        let mut notices = notices;
        let mut told = describe_published_findings(&counts, &posted, deleted);
        let ghost report = views(told@);
        notices.append(&mut told);
        proof {
            assert(views(notices@) =~= before + report);
        }
        return FindingsStep {
            state: FindingsState::Finished,
            notices,
            warnings,
            action: FindingsAction::Done,
        };
    }
    let endpoint = delete_issue_comment(job.repository.as_str(), stale[0]);
    FindingsStep {
        state: FindingsState::Deleting { counts, posted, stale, deleted },
        notices,
        warnings,
        action: FindingsAction::Delete { endpoint },
    }
}

fn post_next(
    job: &FindingsJob,
    counts: AnchorCounts,
    drafts: Vec<InlineCommentDraft>,
    posted: Vec<bool>,
    stale: Vec<u64>,
    notices: Vec<String>,
    warnings: Vec<String>,
) -> (r: FindingsStep)
    ensures
        r@ == post_drafts(
            job@,
            counts,
            drafts@,
            posted@,
            stale@,
            views(notices@),
            views(warnings@),
        ),
{
    if drafts.len() == 0 {
        return remove_next(job, counts, posted, stale, 0, notices, warnings);
    }
    let number = decimal(job.pr_number);
    let head = concat3("repos/", job.repository.as_str(), "/pulls/");
    let endpoint = concat3(head.as_str(), number.as_str(), "/comments");
    let payload = build_inline_comment_payload(&drafts[0], job.commit_id.as_str());
    FindingsStep {
        state: FindingsState::Posting { counts, drafts, posted, stale },
        notices,
        warnings,
        action: FindingsAction::Post { endpoint, payload },
    }
}

/// How the publication begins: it is told where comments are put.
pub fn begin_findings(
    job: &FindingsJob,
    counts: AnchorCounts,
    drafts: Vec<InlineCommentDraft>,
    stale: Vec<u64>,
) -> (r: FindingsStep)
    ensures
        r@ == post_drafts(
            job@,
            counts,
            drafts@,
            Seq::empty(),
            stale@,
            anchor_messages(counts),
            Seq::empty(),
        ),
{
    let notices = describe_anchors(&counts);
    let warnings: Vec<String> = Vec::new();
    let posted: Vec<bool> = Vec::new();
    proof {
        assert(views(warnings@) =~= Seq::empty());
        assert(posted@ =~= Seq::empty());
    }
    post_next(job, counts, drafts, posted, stale, notices, warnings)
}

/// What follows what came back.
pub fn publish_findings_inner(job: &FindingsJob, state: FindingsState, event: FindingsEvent) -> (r:
    FindingsStep)
    requires
        findings_answers(state@, event),
    ensures
        r@ == findings_step(job@, state@, event),
{
    let notices: Vec<String> = Vec::new();
    let mut warnings: Vec<String> = Vec::new();
    proof {
        assert(views(notices@) =~= Seq::empty());
        assert(views(warnings@) =~= Seq::empty());
    }
    match (state, event) {
        (
            FindingsState::Posting { counts, drafts, posted, stale },
            FindingsEvent::Posted { done },
        ) => {
            let ghost all = drafts@;
            let mut drafts = drafts;
            let mut posted = posted;
            let draft = drafts.remove(0);
            posted.push(done);
            if !done {
                let head = concat2(
                    "ReviewGate inline comment could not be posted for finding ",
                    draft.finding_id.as_str(),
                );
                warnings.push(
                    concat2(head.as_str(), ". The review JSON contains the full finding."),
                );
            }
            proof {
                assert(draft == all[0]);
                assert(drafts@ =~= all.skip(1));
                if !done {
                    assert(views(warnings@) =~= seq![post_warning(all[0])]);
                }
            }
            post_next(job, counts, drafts, posted, stale, notices, warnings)
        },
        (
            FindingsState::Deleting { counts, posted, stale, deleted },
            FindingsEvent::Deleted,
        ) => {
            let ghost all = stale@;
            let mut stale = stale;
            let _ = stale.remove(0);
            proof {
                assert(stale@ =~= all.skip(1));
            }
            remove_next(job, counts, posted, stale, deleted + 1, notices, warnings)
        },
        _ => FindingsStep {
            state: FindingsState::Finished,
            notices,
            warnings,
            action: FindingsAction::Done,
        },
    }
}

// ---------------------------------------------------------------------------
// Laws
// ---------------------------------------------------------------------------

/// How many comments are left to be written and removed.
pub open spec fn comments_left(state: FindingsStateView) -> nat {
    match state {
        FindingsStateView::Posting { drafts, stale, .. } => drafts.len() + stale.len(),
        FindingsStateView::Deleting { stale, .. } => stale.len(),
        FindingsStateView::Finished => 0,
    }
}

/// With every answer a comment less is left, whether it could be written or not, and the
/// publication ends once none is.
pub proof fn law_every_comment_is_tried_once(
    job: FindingsJobView,
    state: FindingsStateView,
    event: FindingsEvent,
)
    requires
        findings_answers(state, event),
    ensures
        comments_left(findings_step(job, state, event).state) == comments_left(state) - 1,
        findings_step(job, state, event).action is Done <==> comments_left(state) == 1,
        findings_step(job, state, event).state is Finished <==> comments_left(state) == 1,
{
}

/// Whether a state can be reached: where comments are written or removed, one is left.
pub open spec fn findings_state_valid(state: FindingsStateView) -> bool {
    match state {
        FindingsStateView::Posting { drafts, stale, .. } => drafts.len() > 0 && stale.len()
            <= usize::MAX,
        FindingsStateView::Deleting { stale, deleted, .. } => stale.len() > 0 && deleted
            + stale.len() <= usize::MAX,
        FindingsStateView::Finished => true,
    }
}

/// Every state but the last can be answered, and an answer leads to such a state again.
pub proof fn law_findings_states_stay_valid(
    job: FindingsJobView,
    state: FindingsStateView,
    event: FindingsEvent,
)
    requires
        findings_state_valid(state),
        findings_answers(state, event),
    ensures
        findings_state_valid(findings_step(job, state, event).state),
        match findings_step(job, state, event).state {
            FindingsStateView::Posting { .. } => forall|done: bool|
                #[trigger] findings_answers(
                    findings_step(job, state, event).state,
                    FindingsEvent::Posted { done },
                ),
            FindingsStateView::Deleting { .. } => findings_answers(
                findings_step(job, state, event).state,
                FindingsEvent::Deleted,
            ),
            FindingsStateView::Finished => true,
        },
{
}

/// No comment is removed before every comment was tried.
pub proof fn law_comments_are_written_before_any_is_removed(
    job: FindingsJobView,
    state: FindingsStateView,
    event: FindingsEvent,
)
    requires
        findings_answers(state, event),
    ensures
        findings_step(job, state, event).action is Delete ==> (
        state matches FindingsStateView::Posting { drafts, .. } ==> drafts.len() == 1),
        findings_step(job, state, event).action is Post ==> state is Posting,
{
}

// ---------------------------------------------------------------------------
// What holds of it
// ---------------------------------------------------------------------------

/// Comments are written in the order of their drafts, on the lines of the pull request, and
/// one that could not be written is warned of by the number of its finding.
pub proof fn law_drafts_are_posted_in_order(
    job: FindingsJobView,
    counts: AnchorCounts,
    drafts: Seq<InlineCommentDraft>,
    posted: Seq<bool>,
    stale: Seq<u64>,
    done: bool,
)
    requires
        drafts.len() > 0,
    ensures
        ({
            let step = findings_step(
                job,
                FindingsStateView::Posting { counts, drafts, posted, stale },
                FindingsEvent::Posted { done },
            );
            &&& done ==> step.warnings.len() == 0
            &&& !done ==> step.warnings.len() == 1 && crate::text::has_text(
                step.warnings[0],
                drafts[0].finding_id@,
            )
            &&& drafts.len() > 1 ==> (step.action matches FindingsActionView::Post {
                endpoint,
                payload,
            } && payload == inline_comment(drafts[1], job.commit_id) && "/comments"@.is_suffix_of(
                endpoint,
            ) && ("repos/"@ + job.repository + "/pulls/"@ + decimal_of(
                job.pr_number as nat,
            )).is_prefix_of(endpoint))
            &&& drafts.len() > 1 ==> step.state == (FindingsStateView::Posting {
                counts,
                drafts: drafts.skip(1),
                posted: posted.push(done),
                stale,
            }) && step.notices.len() == 0
            &&& drafts.len() == 1 && stale.len() > 0 ==> step.state == (
            FindingsStateView::Deleting { counts, posted: posted.push(done), stale, deleted: 0 })
        }),
{
    let head = "ReviewGate inline comment could not be posted for finding "@;
    let id = drafts[0].finding_id@;
    let warning = post_warning(drafts[0]);
    assert(warning.subrange(head.len() as int, (head.len() + id.len()) as int) =~= id);
    assert(crate::text::occurs_at(warning, id, head.len() as int));
    let endpoint = line_comments_endpoint(job.repository, job.pr_number);
    let start = "repos/"@ + job.repository + "/pulls/"@ + decimal_of(job.pr_number as nat);
    assert(endpoint.subrange(0, start.len() as int) =~= start);
    assert(endpoint.subrange(endpoint.len() - "/comments"@.len(), endpoint.len() as int)
        =~= "/comments"@);
}

/// Stale comments are removed in their order, each is counted, and what was done is told at
/// the end.
pub proof fn law_stale_comments_are_removed_in_order(
    job: FindingsJobView,
    counts: AnchorCounts,
    posted: Seq<bool>,
    stale: Seq<u64>,
    deleted: nat,
)
    requires
        stale.len() > 0,
    ensures
        ({
            let step = findings_step(
                job,
                FindingsStateView::Deleting { counts, posted, stale, deleted },
                FindingsEvent::Deleted,
            );
            &&& stale.len() > 1 ==> step.state == (FindingsStateView::Deleting {
                counts,
                posted,
                stale: stale.skip(1),
                deleted: deleted + 1,
            })
            &&& stale.len() > 1 ==> (step.action matches FindingsActionView::Delete { endpoint }
                && decimal_of(stale[1] as nat).is_suffix_of(endpoint))
            &&& stale.len() > 1 ==> step.notices.len() == 0
            &&& stale.len() == 1 ==> step.action is Done && step.notices == findings_report(
                counts,
                posted,
                deleted + 1,
            )
            &&& step.warnings.len() == 0
        }),
{
    if stale.len() > 1 {
        let endpoint = issue_comment_endpoint(job.repository, stale[1]);
        let digits = decimal_of(stale[1] as nat);
        assert(endpoint.subrange(endpoint.len() - digits.len(), endpoint.len() as int) =~= digits);
    } else {
        assert(Seq::<Seq<char>>::empty() + findings_report(counts, posted, deleted + 1)
            =~= findings_report(counts, posted, deleted + 1));
    }
}

/// A publication begins with the first draft, or with the first stale comment where there is
/// no draft; without either it is over at once.
pub proof fn law_publications_begin(
    job: FindingsJobView,
    counts: AnchorCounts,
    drafts: Seq<InlineCommentDraft>,
    stale: Seq<u64>,
    notices: Seq<Seq<char>>,
)
    ensures
        ({
            let step = post_drafts(
                job,
                counts,
                drafts,
                Seq::empty(),
                stale,
                notices,
                Seq::empty(),
            );
            &&& drafts.len() > 0 <==> step.action is Post
            &&& drafts.len() > 0 ==> (step.action matches FindingsActionView::Post {
                payload,
                ..
            } && payload == inline_comment(drafts[0], job.commit_id))
            &&& drafts.len() == 0 && stale.len() > 0 <==> step.action is Delete
            &&& drafts.len() == 0 && stale.len() > 0 ==> (
            step.action matches FindingsActionView::Delete { endpoint } && decimal_of(
                stale[0] as nat,
            ).is_suffix_of(endpoint))
            &&& drafts.len() == 0 && stale.len() == 0 <==> step.action is Done
            &&& notices.is_prefix_of(step.notices)
            &&& step.warnings.len() == 0
        }),
{
    let step = post_drafts(job, counts, drafts, Seq::empty(), stale, notices, Seq::empty());
    assert(step.notices.subrange(0, notices.len() as int) =~= notices);
    if drafts.len() == 0 && stale.len() > 0 {
        let endpoint = issue_comment_endpoint(job.repository, stale[0]);
        let digits = decimal_of(stale[0] as nat);
        assert(endpoint.subrange(endpoint.len() - digits.len(), endpoint.len() as int) =~= digits);
    }
}

} // verus!
