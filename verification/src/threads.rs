//! What is done about the threads of a pull request.
use vstd::prelude::*;

use crate::disposition::unit_result;
use crate::split::{split_once, split_once_at};
use crate::number::{decimal, decimal_of};
use crate::text::{concat2, views};

verus! {

/// What is to become of a thread.
#[derive(Debug, PartialEq, Eq)]
pub enum ReviewThreadLifecycleAction {
    ReplyAndResolve { thread_id: String, body: String },
    Resolve { thread_id: String },
    ReplyAndUnresolve { thread_id: String, body: String },
    Unresolve { thread_id: String },
}

/// What is to become of a thread.
pub enum LifecycleView {
    ReplyAndResolve { thread_id: Seq<char>, body: Seq<char> },
    Resolve { thread_id: Seq<char> },
    ReplyAndUnresolve { thread_id: Seq<char>, body: Seq<char> },
    Unresolve { thread_id: Seq<char> },
}

impl View for ReviewThreadLifecycleAction {
    type V = LifecycleView;

    open spec fn view(&self) -> LifecycleView {
        match self {
            ReviewThreadLifecycleAction::ReplyAndResolve { thread_id, body } => {
                LifecycleView::ReplyAndResolve { thread_id: thread_id@, body: body@ }
            },
            ReviewThreadLifecycleAction::Resolve { thread_id } => LifecycleView::Resolve {
                thread_id: thread_id@,
            },
            ReviewThreadLifecycleAction::ReplyAndUnresolve { thread_id, body } => {
                LifecycleView::ReplyAndUnresolve { thread_id: thread_id@, body: body@ }
            },
            ReviewThreadLifecycleAction::Unresolve { thread_id } => LifecycleView::Unresolve {
                thread_id: thread_id@,
            },
        }
    }
}

/// What is to become of threads.
pub open spec fn lifecycle_views(s: Seq<ReviewThreadLifecycleAction>) -> Seq<LifecycleView> {
    s.map_values(|a: ReviewThreadLifecycleAction| a@)
}

/// One change of a thread.
#[derive(Debug, PartialEq, Eq)]
pub enum ThreadMutation {
    Reply { thread_id: String, body: String },
    Resolve { thread_id: String },
    Unresolve { thread_id: String },
}

/// One change of a thread.
pub enum MutationView {
    Reply { thread_id: Seq<char>, body: Seq<char> },
    Resolve { thread_id: Seq<char> },
    Unresolve { thread_id: Seq<char> },
}

impl View for ThreadMutation {
    type V = MutationView;

    open spec fn view(&self) -> MutationView {
        match self {
            ThreadMutation::Reply { thread_id, body } => MutationView::Reply {
                thread_id: thread_id@,
                body: body@,
            },
            ThreadMutation::Resolve { thread_id } => MutationView::Resolve {
                thread_id: thread_id@,
            },
            ThreadMutation::Unresolve { thread_id } => MutationView::Unresolve {
                thread_id: thread_id@,
            },
        }
    }
}

/// One step of changing threads.
#[derive(Debug, PartialEq, Eq)]
pub enum ThreadStep {
    /// The head has to be the one that was reviewed.
    CheckHead,
    /// A thread is changed.
    Change { mutation: ThreadMutation },
}

/// One step of changing threads.
pub enum ThreadStepView {
    CheckHead,
    Change { mutation: MutationView },
}

impl View for ThreadStep {
    type V = ThreadStepView;

    open spec fn view(&self) -> ThreadStepView {
        match self {
            ThreadStep::CheckHead => ThreadStepView::CheckHead,
            ThreadStep::Change { mutation } => ThreadStepView::Change { mutation: mutation@ },
        }
    }
}

/// What steps are.
pub open spec fn step_views(s: Seq<ThreadStep>) -> Seq<ThreadStepView> {
    s.map_values(|x: ThreadStep| x@)
}

/// A change that is made between two looks at the head.
pub open spec fn head_bound(mutation: MutationView) -> Seq<ThreadStepView> {
    seq![
        ThreadStepView::CheckHead,
        ThreadStepView::Change { mutation },
        ThreadStepView::CheckHead,
    ]
}

/// The steps that make of a thread what it is to become.
pub open spec fn lifecycle_steps(action: LifecycleView) -> Seq<ThreadStepView> {
    match action {
        LifecycleView::ReplyAndResolve { thread_id, body } => head_bound(
            MutationView::Reply { thread_id, body },
        ) + head_bound(MutationView::Resolve { thread_id }),
        LifecycleView::Resolve { thread_id } => head_bound(MutationView::Resolve { thread_id }),
        LifecycleView::ReplyAndUnresolve { thread_id, body } => head_bound(
            MutationView::Reply { thread_id, body },
        ) + head_bound(MutationView::Unresolve { thread_id }),
        LifecycleView::Unresolve { thread_id } => head_bound(
            MutationView::Unresolve { thread_id },
        ),
    }
}

/// The steps that make of threads what they are to become.
pub open spec fn all_steps(actions: Seq<LifecycleView>) -> Seq<ThreadStepView>
    decreases actions.len(),
{
    if actions.len() == 0 {
        Seq::empty()
    } else {
        all_steps(actions.drop_last()) + lifecycle_steps(actions.last())
    }
}

/// Adds a change between two looks at the head.
pub fn apply_head_bound_mutation(steps: &mut Vec<ThreadStep>, mutation: ThreadMutation)
    ensures
        step_views(final(steps)@) == step_views(old(steps)@) + head_bound(mutation@),
{
    let ghost before = step_views(steps@);
    let ghost m = mutation@;
    steps.push(ThreadStep::CheckHead);
    steps.push(ThreadStep::Change { mutation });
    steps.push(ThreadStep::CheckHead);
    proof {
        assert(step_views(steps@) =~= before + head_bound(m));
    }
}

fn add_action(steps: &mut Vec<ThreadStep>, action: &ReviewThreadLifecycleAction)
    ensures
        step_views(final(steps)@) == step_views(old(steps)@) + lifecycle_steps(action@),
{
    let ghost before = step_views(steps@);
    match action {
        ReviewThreadLifecycleAction::ReplyAndResolve { thread_id, body } => {
            apply_head_bound_mutation(
                steps,
                ThreadMutation::Reply { thread_id: thread_id.clone(), body: body.clone() },
            );
            apply_head_bound_mutation(
                steps,
                ThreadMutation::Resolve { thread_id: thread_id.clone() },
            );
        },
        ReviewThreadLifecycleAction::Resolve { thread_id } => {
            apply_head_bound_mutation(
                steps,
                ThreadMutation::Resolve { thread_id: thread_id.clone() },
            );
        },
        ReviewThreadLifecycleAction::ReplyAndUnresolve { thread_id, body } => {
            apply_head_bound_mutation(
                steps,
                ThreadMutation::Reply { thread_id: thread_id.clone(), body: body.clone() },
            );
            apply_head_bound_mutation(
                steps,
                ThreadMutation::Unresolve { thread_id: thread_id.clone() },
            );
        },
        ReviewThreadLifecycleAction::Unresolve { thread_id } => {
            apply_head_bound_mutation(
                steps,
                ThreadMutation::Unresolve { thread_id: thread_id.clone() },
            );
        },
    }
    proof {
        assert(step_views(steps@) =~= before + lifecycle_steps(action@));
    }
}

/// The steps that make of threads what they are to become.
pub fn apply_review_thread_lifecycle_actions(actions: &Vec<ReviewThreadLifecycleAction>) -> (r:
    Vec<ThreadStep>)
    ensures
        step_views(r@) == all_steps(lifecycle_views(actions@)),
{
    let ghost all = lifecycle_views(actions@);
    let mut r: Vec<ThreadStep> = Vec::new();
    let mut i: usize = 0;
    proof {
        assert(step_views(r@) =~= all_steps(all.take(0)));
    }
    while i < actions.len()
        invariant
            i <= actions@.len(),
            all == lifecycle_views(actions@),
            step_views(r@) == all_steps(all.take(i as int)),
        decreases actions@.len() - i,
    {
        proof {
            assert(all.take(i + 1).drop_last() =~= all.take(i as int));
            assert(all.take(i + 1).last() == actions@[i as int]@);
        }
        add_action(&mut r, &actions[i]);
        i += 1;
    }
    proof {
        assert(all.take(all.len() as int) =~= all);
    }
    r
}

/// A change stands between two looks at the head.
pub open spec fn guarded(steps: Seq<ThreadStepView>) -> bool {
    forall|i: int|
        0 <= i < steps.len() && (#[trigger] steps[i]) is Change ==> 0 < i < steps.len() - 1
            && steps[i - 1] is CheckHead && steps[i + 1] is CheckHead
}

proof fn lemma_guarded_concat(a: Seq<ThreadStepView>, b: Seq<ThreadStepView>)
    requires
        guarded(a),
        guarded(b),
    ensures
        guarded(a + b),
{
    let all = a + b;
    assert forall|i: int| 0 <= i < all.len() && (#[trigger] all[i]) is Change implies 0 < i
        < all.len() - 1 && all[i - 1] is CheckHead && all[i + 1] is CheckHead by {
        if i < a.len() {
            assert(a[i] is Change);
        } else {
            assert(b[i - a.len()] is Change);
        }
    }
}

/// No thread is changed but between two looks at the head.
pub proof fn law_threads_change_between_looks_at_the_head(actions: Seq<LifecycleView>)
    ensures
        guarded(all_steps(actions)),
    decreases actions.len(),
{
    if actions.len() > 0 {
        law_threads_change_between_looks_at_the_head(actions.drop_last());
        match actions.last() {
            LifecycleView::ReplyAndResolve { thread_id, body } => {
                lemma_guarded_concat(
                    head_bound(MutationView::Reply { thread_id, body }),
                    head_bound(MutationView::Resolve { thread_id }),
                );
            },
            LifecycleView::ReplyAndUnresolve { thread_id, body } => {
                lemma_guarded_concat(
                    head_bound(MutationView::Reply { thread_id, body }),
                    head_bound(MutationView::Unresolve { thread_id }),
                );
            },
            _ => {},
        }
        lemma_guarded_concat(all_steps(actions.drop_last()), lifecycle_steps(actions.last()));
    }
}

// ---------------------------------------------------------------------------
// Queries
// ---------------------------------------------------------------------------

/// The fields of a query that replies in a thread.
pub open spec fn reply_fields(thread_id: Seq<char>, body: Seq<char>) -> Seq<Seq<char>> {
    seq![
        "query=mutation($threadId:ID!,$body:String!){addPullRequestReviewThreadReply(input:{pullRequestReviewThreadId:$threadId,body:$body}){comment{id}}}"@,
        "threadId="@ + thread_id,
        "body="@ + body,
    ]
}

/// The fields of a query that replies in a thread.
pub fn reply_to_review_thread(thread_id: &str, body: &str) -> (r: Vec<String>)
    ensures
        views(r@) == reply_fields(thread_id@, body@),
{
    let mut r: Vec<String> = Vec::new();
    r.push(
        "query=mutation($threadId:ID!,$body:String!){addPullRequestReviewThreadReply(input:{pullRequestReviewThreadId:$threadId,body:$body}){comment{id}}}".to_owned(),
    );
    r.push(concat2("threadId=", thread_id));
    r.push(concat2("body=", body));
    proof {
        assert(views(r@) =~= reply_fields(thread_id@, body@));
    }
    r
}

/// The fields of a query that resolves a thread.
pub open spec fn resolve_fields(thread_id: Seq<char>) -> Seq<Seq<char>> {
    seq![
        "query=mutation($threadId:ID!){resolveReviewThread(input:{threadId:$threadId}){thread{id isResolved}}}"@,
        "threadId="@ + thread_id,
    ]
}

/// The fields of a query that resolves a thread.
pub fn resolve_review_thread(thread_id: &str) -> (r: Vec<String>)
    ensures
        views(r@) == resolve_fields(thread_id@),
{
    let mut r: Vec<String> = Vec::new();
    r.push(
        "query=mutation($threadId:ID!){resolveReviewThread(input:{threadId:$threadId}){thread{id isResolved}}}".to_owned(),
    );
    r.push(concat2("threadId=", thread_id));
    proof {
        assert(views(r@) =~= resolve_fields(thread_id@));
    }
    r
}

/// The fields of a query that opens a thread again.
pub open spec fn unresolve_fields(thread_id: Seq<char>) -> Seq<Seq<char>> {
    seq![
        "query=mutation($threadId:ID!){unresolveReviewThread(input:{threadId:$threadId}){thread{id isResolved}}}"@,
        "threadId="@ + thread_id,
    ]
}

/// The fields of a query that opens a thread again.
pub fn unresolve_review_thread(thread_id: &str) -> (r: Vec<String>)
    ensures
        views(r@) == unresolve_fields(thread_id@),
{
    let mut r: Vec<String> = Vec::new();
    r.push(
        "query=mutation($threadId:ID!){unresolveReviewThread(input:{threadId:$threadId}){thread{id isResolved}}}".to_owned(),
    );
    r.push(concat2("threadId=", thread_id));
    proof {
        assert(views(r@) =~= unresolve_fields(thread_id@));
    }
    r
}

/// The query for threads.
pub const THREADS_QUERY: &'static str = "query=query($owner:String!,$name:String!,$number:Int!,$endCursor:String){repository(owner:$owner,name:$name){pullRequest(number:$number){reviewThreads(first:100,after:$endCursor){nodes{id isResolved isOutdated comments(first:100){nodes{body author{login}}}}pageInfo{hasNextPage endCursor}}}}}";

/// The fields of a query for the threads of a pull request.
pub open spec fn threads_fields(repository: Seq<char>, pr_number: u64) -> Result<
    Seq<Seq<char>>,
    Seq<char>,
> {
    match split_once_at(repository, '/') {
        Some((owner, name)) => Ok(
            seq![
                THREADS_QUERY@,
                "owner="@ + owner,
                "name="@ + name,
                "number="@ + decimal_of(pr_number as nat),
            ],
        ),
        None => Err("repository must use owner/name format"@),
    }
}

/// The fields of a query for the threads of a pull request.
pub fn fetch_review_threads(repository: &str, pr_number: u64) -> (r: Result<Vec<String>, String>)
    ensures
        crate::sources::texts_result(r) == threads_fields(repository@, pr_number),
{
    match split_once(repository, '/') {
        Some((owner, name)) => {
            let number = decimal(pr_number);
            let mut r: Vec<String> = Vec::new();
            r.push(THREADS_QUERY.to_owned());
            r.push(concat2("owner=", owner.as_str()));
            r.push(concat2("name=", name.as_str()));
            r.push(concat2("number=", number.as_str()));
            proof {
                assert(views(r@) =~= seq![
                    THREADS_QUERY@,
                    "owner="@ + owner@,
                    "name="@ + name@,
                    "number="@ + decimal_of(pr_number as nat),
                ]);
            }
            Ok(r)
        },
        None => Err("repository must use owner/name format".to_owned()),
    }
}

// ---------------------------------------------------------------------------
// Who may change threads
// ---------------------------------------------------------------------------

/// Whether threads may be changed: by someone who is known, and who may write where there
/// is anything to change.
pub open spec fn may_reconcile(actor: Seq<char>, actions: nat, may_write: bool) -> Result<
    (),
    Seq<char>,
> {
    if actor.len() == 0 {
        Err("thread reconciliation requires an authenticated GitHub actor"@)
    } else if actions > 0 && !may_write {
        Err("thread reconciliation requires repository write permission"@)
    } else {
        Ok(())
    }
}

/// Whether threads may be changed.
pub fn reconcile_agent_result_threads(actor: &str, action_count: usize, may_write: bool) -> (r:
    Result<(), String>)
    ensures
        unit_result(r) == may_reconcile(actor@, action_count as nat, may_write),
{
    if actor.is_empty() {
        return Err("thread reconciliation requires an authenticated GitHub actor".to_owned());
    }
    if action_count > 0 && !may_write {
        return Err("thread reconciliation requires repository write permission".to_owned());
    }
    Ok(())
}

// ---------------------------------------------------------------------------
// What holds of it
// ---------------------------------------------------------------------------

/// Threads are changed action by action, in their order: a reply before what becomes of the
/// thread, and nothing but what the action says.
pub proof fn law_actions_change_their_thread(
    actions: Seq<LifecycleView>,
    thread_id: Seq<char>,
    body: Seq<char>,
)
    ensures
        all_steps(Seq::empty()).len() == 0,
        all_steps(actions.push(LifecycleView::Resolve { thread_id })) == all_steps(actions) + seq![
            ThreadStepView::CheckHead,
            ThreadStepView::Change { mutation: MutationView::Resolve { thread_id } },
            ThreadStepView::CheckHead,
        ],
        all_steps(actions.push(LifecycleView::Unresolve { thread_id })) == all_steps(actions)
            + seq![
            ThreadStepView::CheckHead,
            ThreadStepView::Change { mutation: MutationView::Unresolve { thread_id } },
            ThreadStepView::CheckHead,
        ],
        all_steps(actions.push(LifecycleView::ReplyAndResolve { thread_id, body })) == all_steps(
            actions,
        ) + seq![
            ThreadStepView::CheckHead,
            ThreadStepView::Change { mutation: MutationView::Reply { thread_id, body } },
            ThreadStepView::CheckHead,
            ThreadStepView::CheckHead,
            ThreadStepView::Change { mutation: MutationView::Resolve { thread_id } },
            ThreadStepView::CheckHead,
        ],
        all_steps(actions.push(LifecycleView::ReplyAndUnresolve { thread_id, body })) == all_steps(
            actions,
        ) + seq![
            ThreadStepView::CheckHead,
            ThreadStepView::Change { mutation: MutationView::Reply { thread_id, body } },
            ThreadStepView::CheckHead,
            ThreadStepView::CheckHead,
            ThreadStepView::Change { mutation: MutationView::Unresolve { thread_id } },
            ThreadStepView::CheckHead,
        ],
{
    let a = LifecycleView::Resolve { thread_id };
    let b = LifecycleView::Unresolve { thread_id };
    let c = LifecycleView::ReplyAndResolve { thread_id, body };
    let d = LifecycleView::ReplyAndUnresolve { thread_id, body };
    assert(actions.push(a).drop_last() =~= actions);
    assert(actions.push(b).drop_last() =~= actions);
    assert(actions.push(c).drop_last() =~= actions);
    assert(actions.push(d).drop_last() =~= actions);
    assert(all_steps(actions.push(c)) =~= all_steps(actions) + seq![
        ThreadStepView::CheckHead,
        ThreadStepView::Change { mutation: MutationView::Reply { thread_id, body } },
        ThreadStepView::CheckHead,
        ThreadStepView::CheckHead,
        ThreadStepView::Change { mutation: MutationView::Resolve { thread_id } },
        ThreadStepView::CheckHead,
    ]);
    assert(all_steps(actions.push(d)) =~= all_steps(actions) + seq![
        ThreadStepView::CheckHead,
        ThreadStepView::Change { mutation: MutationView::Reply { thread_id, body } },
        ThreadStepView::CheckHead,
        ThreadStepView::CheckHead,
        ThreadStepView::Change { mutation: MutationView::Unresolve { thread_id } },
        ThreadStepView::CheckHead,
    ]);
}

/// Threads are changed only for someone who is known, and who may write where there is
/// something to change.
pub proof fn law_who_may_change_threads(actor: Seq<char>, actions: nat, may_write: bool)
    ensures
        may_reconcile(actor, actions, may_write) is Ok <==> actor.len() > 0 && (actions == 0
            || may_write),
{
}

/// The threads of a repository are asked for by its owner, its name and the number.
pub proof fn law_threads_are_asked_for(owner: Seq<char>, name: Seq<char>, number: u64)
    requires
        !owner.contains('/'),
    ensures
        threads_fields(owner, number) is Err,
        threads_fields(owner + seq!['/'] + name, number) matches Ok(fields) && fields.len() == 4
            && fields[1] == "owner="@ + owner && fields[2] == "name="@ + name && fields[3]
            == "number="@ + decimal_of(number as nat),
        resolve_fields(owner)[1] == "threadId="@ + owner && unresolve_fields(owner)[1]
            == "threadId="@ + owner && reply_fields(owner, name)[1] == "threadId="@ + owner
            && reply_fields(owner, name)[2] == "body="@ + name,
{
    crate::split::law_fields(owner, name, '/');
}

} // verus!
