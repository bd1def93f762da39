//! Lists of records that GitHub replies with.
use vstd::prelude::*;

use crate::json::{
    items_at, json_document, json_view, json_views, parse_json, text_at, truth_at, unsigned_at,
    Json, JsonView,
};
use crate::number::{decimal, decimal_of};
use crate::text::{concat2, concat3, opt_view, starts_with};

verus! {

// ---------------------------------------------------------------------------
// Pages
// ---------------------------------------------------------------------------

/// What JSON values that are referred to say.
pub open spec fn referred(s: Seq<&Json>) -> Seq<JsonView> {
    s.map_values(|v: &Json| json_view(*v))
}

/// All of the values are lists.
pub open spec fn all_lists(items: Seq<JsonView>) -> bool {
    forall|i: int| 0 <= i < items.len() ==> (#[trigger] items[i]) is List
}

/// The items of lists, one list after the other.
pub open spec fn items_of_lists(lists: Seq<JsonView>) -> Seq<JsonView>
    decreases lists.len(),
{
    if lists.len() == 0 {
        Seq::empty()
    } else {
        items_of_lists(lists.drop_last()) + match lists.last() {
            JsonView::List(items) => items,
            _ => Seq::empty(),
        }
    }
}

/// The items of a reply, which is a list of items or of pages of them.
pub open spec fn flattened(value: JsonView) -> Seq<JsonView> {
    match value.items() {
        None => Seq::empty(),
        Some(items) => if all_lists(items) {
            items_of_lists(items)
        } else {
            items
        },
    }
}

fn are_all_lists(items: &Vec<Json>) -> (r: bool)
    ensures
        r == all_lists(json_views(items@)),
{
    let ghost all = json_views(items@);
    let mut i: usize = 0;
    while i < items.len()
        invariant
            i <= items@.len(),
            all == json_views(items@),
            forall|k: int| 0 <= k < i ==> (#[trigger] all[k]) is List,
        decreases items@.len() - i,
    {
        proof {
            assert(all[i as int] == json_view(items@[i as int]));
        }
        match &items[i] {
            Json::List(_) => {},
            _ => {
                return false;
            },
        }
        i += 1;
    }
    true
}

fn add_items<'a>(found: &mut Vec<&'a Json>, items: &'a Vec<Json>)
    ensures
        referred(final(found)@) == referred(old(found)@) + json_views(items@),
{
    let ghost all = json_views(items@);
    let ghost before = referred(found@);
    let mut i: usize = 0;
    proof {
        assert(before + all.take(0) =~= before);
    }
    while i < items.len()
        invariant
            i <= items@.len(),
            all == json_views(items@),
            before == referred(old(found)@),
            referred(found@) == before + all.take(i as int),
        decreases items@.len() - i,
    {
        let ghost earlier = referred(found@);
        found.push(&items[i]);
        proof {
            assert(all[i as int] == json_view(items@[i as int]));
            assert(referred(found@) =~= earlier.push(json_view(items@[i as int])));
            assert(referred(found@) =~= before + all.take(i + 1));
        }
        i += 1;
    }
    proof {
        assert(all.take(all.len() as int) =~= all);
    }
}

/// The items of a reply, which is a list of items or of pages of them.
pub fn flatten_gh_paginated_items(value: &Json) -> (r: Vec<&Json>)
    ensures
        referred(r@) == flattened(json_view(*value)),
{
    let mut found: Vec<&Json> = Vec::new();
    proof {
        assert(referred(found@) =~= Seq::empty());
    }
    let items = match value.as_list() {
        Some(items) => items,
        None => {
            return found;
        },
    };
    if !are_all_lists(items) {
        add_items(&mut found, items);
        proof {
            assert(referred(found@) =~= json_views(items@));
        }
        return found;
    }
    let ghost all = json_views(items@);
    let mut i: usize = 0;
    while i < items.len()
        invariant
            i <= items@.len(),
            all == json_views(items@),
            referred(found@) == items_of_lists(all.take(i as int)),
        decreases items@.len() - i,
    {
        proof {
            assert(all.take(i + 1).drop_last() =~= all.take(i as int));
            assert(all.take(i + 1).last() == json_view(items@[i as int]));
        }
        match items[i].as_list() {
            Some(page) => {
                add_items(&mut found, page);
            },
            None => {
                proof {
                    assert(referred(found@) + Seq::<JsonView>::empty() =~= referred(found@));
                }
            },
        }
        i += 1;
    }
    proof {
        assert(all.take(all.len() as int) =~= all);
    }
    found
}

/// A text of a record, or an empty one.
pub open spec fn text_or_empty(value: JsonView, path: Seq<char>) -> Seq<char> {
    match text_at(value, path) {
        Some(text) => text,
        None => Seq::empty(),
    }
}

fn owned_text(value: &Json, path: &str) -> (r: String)
    ensures
        r@ == text_or_empty(json_view(*value), path@),
{
    match value.text_at(path) {
        Some(text) => text.to_owned(),
        None => String::new(),
    }
}

fn optional_owned(value: &Json, path: &str) -> (r: Option<String>)
    ensures
        opt_view(r) == text_at(json_view(*value), path@),
{
    match value.text_at(path) {
        Some(text) => Some(text.to_owned()),
        None => None,
    }
}

// ---------------------------------------------------------------------------
// Comments
// ---------------------------------------------------------------------------

/// A comment.
#[derive(Debug, PartialEq, Eq)]
pub struct IssueCommentRecord {
    pub id: u64,
    pub author_login: Option<String>,
    pub body: String,
}

/// A comment.
pub struct CommentView {
    pub id: u64,
    pub author_login: Option<Seq<char>>,
    pub body: Seq<char>,
}

impl View for IssueCommentRecord {
    type V = CommentView;

    open spec fn view(&self) -> CommentView {
        CommentView { id: self.id, author_login: opt_view(self.author_login), body: self.body@ }
    }
}

/// What comments are.
pub open spec fn comment_views(s: Seq<IssueCommentRecord>) -> Seq<CommentView> {
    s.map_values(|c: IssueCommentRecord| c@)
}

/// The comment that a record is of; none without a number.
pub open spec fn comment_in(entry: JsonView) -> Option<CommentView> {
    match unsigned_at(entry, "id"@) {
        Some(id) => Some(
            CommentView {
                id,
                author_login: text_at(entry, "user.login"@),
                body: text_or_empty(entry, "body"@),
            },
        ),
        None => None,
    }
}

/// The comments that records are of.
pub open spec fn comments_in(entries: Seq<JsonView>) -> Seq<CommentView>
    decreases entries.len(),
{
    if entries.len() == 0 {
        Seq::empty()
    } else {
        let rest = comments_in(entries.drop_last());
        match comment_in(entries.last()) {
            Some(c) => rest.push(c),
            None => rest,
        }
    }
}

/// The comments that a reply lists.
pub fn issue_comment_records(reply: &Json) -> (r: Vec<IssueCommentRecord>)
    ensures
        comment_views(r@) == comments_in(flattened(json_view(*reply))),
{
    let entries = flatten_gh_paginated_items(reply);
    let ghost all = referred(entries@);
    let mut r: Vec<IssueCommentRecord> = Vec::new();
    let mut i: usize = 0;
    proof {
        assert(comment_views(r@) =~= comments_in(all.take(0)));
    }
    while i < entries.len()
        invariant
            i <= entries@.len(),
            all == referred(entries@),
            comment_views(r@) == comments_in(all.take(i as int)),
        decreases entries@.len() - i,
    {
        let entry = entries[i];
        proof {
            assert(all.take(i + 1).drop_last() =~= all.take(i as int));
            assert(all.take(i + 1).last() == json_view(*entry));
        }
        if let Some(id) = entry.u64_at("id") {
            let record = IssueCommentRecord {
                id,
                author_login: optional_owned(entry, "user.login"),
                body: owned_text(entry, "body"),
            };
            let ghost before = comment_views(r@);
            r.push(record);
            proof {
                assert(comment_views(r@) =~= before.push(record@));
            }
        }
        i += 1;
    }
    proof {
        assert(all.take(all.len() as int) =~= all);
    }
    r
}

/// The comments or what is wrong with the reply.
pub open spec fn comments_result(r: Result<Vec<IssueCommentRecord>, String>) -> Result<
    Seq<CommentView>,
    Seq<char>,
> {
    match r {
        Ok(v) => Ok(comment_views(v@)),
        Err(e) => Err(e@),
    }
}

/// The comments that the text of a reply lists, or that it is no JSON.
pub open spec fn comments_of_text(raw: Seq<char>, unreadable: Seq<char>) -> Result<
    Seq<CommentView>,
    Seq<char>,
> {
    match json_document(raw) {
        Some(reply) => Ok(comments_in(flattened(reply))),
        None => Err(unreadable),
    }
}

/// The comments on an issue that the text of a reply lists.
pub fn parse_issue_comment_records(raw: &str) -> (r: Result<Vec<IssueCommentRecord>, String>)
    ensures
        comments_result(r) == comments_of_text(raw@, "failed to parse issue comments JSON"@),
{
    match parse_json(raw) {
        Some(reply) => Ok(issue_comment_records(&reply)),
        None => Err("failed to parse issue comments JSON".to_owned()),
    }
}

/// The comments in a pull request that the text of a reply lists.
pub fn parse_pull_comments(raw: &str) -> (r: Result<Vec<IssueCommentRecord>, String>)
    ensures
        comments_result(r) == comments_of_text(raw@, "failed to parse pull comments JSON"@),
{
    match parse_json(raw) {
        Some(reply) => Ok(issue_comment_records(&reply)),
        None => Err("failed to parse pull comments JSON".to_owned()),
    }
}

/// The number of a comment that was created.
pub open spec fn created_id(reply: JsonView) -> Result<u64, Seq<char>> {
    match unsigned_at(reply, "id"@) {
        Some(id) => Ok(id),
        None => Err("created issue comment did not include id"@),
    }
}

/// A number or what is wrong.
pub open spec fn number_result(r: Result<u64, String>) -> Result<u64, Seq<char>> {
    match r {
        Ok(n) => Ok(n),
        Err(e) => Err(e@),
    }
}

/// The number of a comment that was created.
pub fn created_comment_id(reply: &Json) -> (r: Result<u64, String>)
    ensures
        number_result(r) == created_id(json_view(*reply)),
{
    match reply.u64_at("id") {
        Some(id) => Ok(id),
        None => Err("created issue comment did not include id".to_owned()),
    }
}

/// The number of a comment that was created, from the text of the reply.
pub fn create_issue_comment_with_id(raw: &str) -> (r: Result<u64, String>)
    ensures
        number_result(r) == match json_document(raw@) {
            Some(reply) => created_id(reply),
            None => Err("failed to parse created issue comment JSON"@),
        },
{
    match parse_json(raw) {
        Some(reply) => created_comment_id(&reply),
        None => Err("failed to parse created issue comment JSON".to_owned()),
    }
}

// ---------------------------------------------------------------------------
// Statuses of commits
// ---------------------------------------------------------------------------

/// What the contexts of the statuses that attest comments start with.
pub const AGENT_DISPOSITION_STATUS_PREFIX: &'static str = "reviewgate/disposition/";

/// The status of a commit.
#[derive(Debug, PartialEq, Eq)]
pub struct CommitStatusRecord {
    pub context: String,
    pub description: String,
    pub creator_login: String,
    pub state: String,
}

/// The status of a commit.
pub struct StatusView {
    pub context: Seq<char>,
    pub description: Seq<char>,
    pub creator_login: Seq<char>,
    pub state: Seq<char>,
}

impl View for CommitStatusRecord {
    type V = StatusView;

    open spec fn view(&self) -> StatusView {
        StatusView {
            context: self.context@,
            description: self.description@,
            creator_login: self.creator_login@,
            state: self.state@,
        }
    }
}

/// What statuses are.
pub open spec fn status_views(s: Seq<CommitStatusRecord>) -> Seq<StatusView> {
    s.map_values(|c: CommitStatusRecord| c@)
}

/// The status that a record is of, if it is one that attests a comment.
pub open spec fn status_in(entry: JsonView) -> Option<StatusView> {
    match text_at(entry, "context"@) {
        Some(context) => if AGENT_DISPOSITION_STATUS_PREFIX@.is_prefix_of(context) {
            Some(
                StatusView {
                    context,
                    description: text_or_empty(entry, "description"@),
                    creator_login: text_or_empty(entry, "creator.login"@),
                    state: text_or_empty(entry, "state"@),
                },
            )
        } else {
            None
        },
        None => None,
    }
}

/// The statuses that records are of.
pub open spec fn statuses_in(entries: Seq<JsonView>) -> Seq<StatusView>
    decreases entries.len(),
{
    if entries.len() == 0 {
        Seq::empty()
    } else {
        let rest = statuses_in(entries.drop_last());
        match status_in(entries.last()) {
            Some(s) => rest.push(s),
            None => rest,
        }
    }
}

/// The statuses that a reply lists.
pub fn commit_status_records(reply: &Json) -> (r: Vec<CommitStatusRecord>)
    ensures
        status_views(r@) == statuses_in(flattened(json_view(*reply))),
{
    let entries = flatten_gh_paginated_items(reply);
    let ghost all = referred(entries@);
    let mut r: Vec<CommitStatusRecord> = Vec::new();
    let mut i: usize = 0;
    proof {
        assert(status_views(r@) =~= statuses_in(all.take(0)));
    }
    while i < entries.len()
        invariant
            i <= entries@.len(),
            all == referred(entries@),
            status_views(r@) == statuses_in(all.take(i as int)),
        decreases entries@.len() - i,
    {
        let entry = entries[i];
        proof {
            assert(all.take(i + 1).drop_last() =~= all.take(i as int));
            assert(all.take(i + 1).last() == json_view(*entry));
        }
        if let Some(context) = entry.text_at("context") {
            if starts_with(context, AGENT_DISPOSITION_STATUS_PREFIX) {
                let record = CommitStatusRecord {
                    context: context.to_owned(),
                    description: owned_text(entry, "description"),
                    creator_login: owned_text(entry, "creator.login"),
                    state: owned_text(entry, "state"),
                };
                let ghost before = status_views(r@);
                r.push(record);
                proof {
                    assert(status_views(r@) =~= before.push(record@));
                }
            }
        }
        i += 1;
    }
    proof {
        assert(all.take(all.len() as int) =~= all);
    }
    r
}

/// The statuses or what is wrong with the reply.
pub open spec fn statuses_result(r: Result<Vec<CommitStatusRecord>, String>) -> Result<
    Seq<StatusView>,
    Seq<char>,
> {
    match r {
        Ok(v) => Ok(status_views(v@)),
        Err(e) => Err(e@),
    }
}

/// The statuses that the text of a reply lists.
pub fn parse_commit_status_records(raw: &str) -> (r: Result<Vec<CommitStatusRecord>, String>)
    ensures
        statuses_result(r) == match json_document(raw@) {
            Some(reply) => Ok(statuses_in(flattened(reply))),
            None => Err("failed to parse commit statuses JSON"@),
        },
{
    match parse_json(raw) {
        Some(reply) => Ok(commit_status_records(&reply)),
        None => Err("failed to parse commit statuses JSON".to_owned()),
    }
}

// ---------------------------------------------------------------------------
// Threads
// ---------------------------------------------------------------------------

/// A comment in a thread.
#[derive(Debug, PartialEq, Eq)]
pub struct ExistingReviewThreadComment {
    pub author_login: Option<String>,
    pub body: String,
}

/// A comment in a thread.
pub struct ThreadCommentView {
    pub author_login: Option<Seq<char>>,
    pub body: Seq<char>,
}

impl View for ExistingReviewThreadComment {
    type V = ThreadCommentView;

    open spec fn view(&self) -> ThreadCommentView {
        ThreadCommentView { author_login: opt_view(self.author_login), body: self.body@ }
    }
}

/// What comments in a thread are.
pub open spec fn thread_comment_views(s: Seq<ExistingReviewThreadComment>) -> Seq<
    ThreadCommentView,
> {
    s.map_values(|c: ExistingReviewThreadComment| c@)
}

/// A thread of a pull request.
#[derive(Debug, PartialEq, Eq)]
pub struct ExistingReviewThread {
    pub id: String,
    pub is_resolved: bool,
    pub is_outdated: bool,
    pub comments: Vec<ExistingReviewThreadComment>,
}

/// A thread of a pull request.
pub struct ThreadView {
    pub id: Seq<char>,
    pub is_resolved: bool,
    pub is_outdated: bool,
    pub comments: Seq<ThreadCommentView>,
}

impl View for ExistingReviewThread {
    type V = ThreadView;

    open spec fn view(&self) -> ThreadView {
        ThreadView {
            id: self.id@,
            is_resolved: self.is_resolved,
            is_outdated: self.is_outdated,
            comments: thread_comment_views(self.comments@),
        }
    }
}

/// What threads are.
pub open spec fn thread_views(s: Seq<ExistingReviewThread>) -> Seq<ThreadView> {
    s.map_values(|t: ExistingReviewThread| t@)
}

/// The comment in a thread that a record is of.
pub open spec fn thread_comment_in(entry: JsonView) -> ThreadCommentView {
    ThreadCommentView {
        author_login: text_at(entry, "author.login"@),
        body: text_or_empty(entry, "body"@),
    }
}

/// The thread that a record is of, where it is complete.
pub open spec fn thread_in(entry: JsonView) -> Option<ThreadView> {
    match (
        text_at(entry, "id"@),
        truth_at(entry, "isResolved"@),
        truth_at(entry, "isOutdated"@),
        items_at(entry, "comments.nodes"@),
    ) {
        (Some(id), Some(is_resolved), Some(is_outdated), Some(comments)) => Some(
            ThreadView {
                id,
                is_resolved,
                is_outdated,
                comments: comments.map_values(|c: JsonView| thread_comment_in(c)),
            },
        ),
        _ => None,
    }
}

/// The threads that records are of.
pub open spec fn threads_in(entries: Seq<JsonView>) -> Seq<ThreadView>
    decreases entries.len(),
{
    if entries.len() == 0 {
        Seq::empty()
    } else {
        let rest = threads_in(entries.drop_last());
        match thread_in(entries.last()) {
            Some(t) => rest.push(t),
            None => rest,
        }
    }
}

/// Where a page of a reply lists threads.
pub open spec fn threads_path() -> Seq<char> {
    "data.repository.pullRequest.reviewThreads.nodes"@
}

/// The threads that pages list.
pub open spec fn threads_in_pages(pages: Seq<JsonView>) -> Seq<ThreadView>
    decreases pages.len(),
{
    if pages.len() == 0 {
        Seq::empty()
    } else {
        threads_in_pages(pages.drop_last()) + match items_at(pages.last(), threads_path()) {
            Some(threads) => threads_in(threads),
            None => Seq::empty(),
        }
    }
}

fn thread_comments(entries: &Vec<Json>) -> (r: Vec<ExistingReviewThreadComment>)
    ensures
        thread_comment_views(r@) == json_views(entries@).map_values(
            |c: JsonView| thread_comment_in(c),
        ),
{
    let mut r: Vec<ExistingReviewThreadComment> = Vec::new();
    let mut i: usize = 0;
    while i < entries.len()
        invariant
            i <= entries@.len(),
            r@.len() == i,
            forall|k: int|
                0 <= k < i ==> (#[trigger] r@[k])@ == thread_comment_in(json_view(entries@[k])),
        decreases entries@.len() - i,
    {
        r.push(
            ExistingReviewThreadComment {
                author_login: optional_owned(&entries[i], "author.login"),
                body: owned_text(&entries[i], "body"),
            },
        );
        i += 1;
    }
    proof {
        assert(thread_comment_views(r@) =~= json_views(entries@).map_values(
            |c: JsonView| thread_comment_in(c),
        ));
    }
    r
}

/// The view of a thread that there may be.
pub open spec fn opt_thread(t: Option<ExistingReviewThread>) -> Option<ThreadView> {
    match t {
        Some(x) => Some(x@),
        None => None,
    }
}

fn read_thread(entry: &Json) -> (r: Option<ExistingReviewThread>)
    ensures
        opt_thread(r) == thread_in(json_view(*entry)),
{
    match (
        entry.text_at("id"),
        entry.bool_at("isResolved"),
        entry.bool_at("isOutdated"),
        entry.list_at("comments.nodes"),
    ) {
        (Some(id), Some(is_resolved), Some(is_outdated), Some(comments)) => Some(
            ExistingReviewThread {
                id: id.to_owned(),
                is_resolved,
                is_outdated,
                comments: thread_comments(comments),
            },
        ),
        _ => None,
    }
}

fn add_threads(found: &mut Vec<ExistingReviewThread>, entries: &Vec<Json>)
    ensures
        thread_views(final(found)@) == thread_views(old(found)@) + threads_in(
            json_views(entries@),
        ),
{
    let ghost all = json_views(entries@);
    let ghost before = thread_views(found@);
    let mut i: usize = 0;
    proof {
        assert(before + threads_in(all.take(0)) =~= before);
    }
    while i < entries.len()
        invariant
            i <= entries@.len(),
            all == json_views(entries@),
            before == thread_views(old(found)@),
            thread_views(found@) == before + threads_in(all.take(i as int)),
        decreases entries@.len() - i,
    {
        proof {
            assert(all.take(i + 1).drop_last() =~= all.take(i as int));
            assert(all.take(i + 1).last() == json_view(entries@[i as int]));
        }
        if let Some(thread) = read_thread(&entries[i]) {
            let ghost earlier = thread_views(found@);
            found.push(thread);
            proof {
                assert(thread_views(found@) =~= earlier.push(thread@));
                assert(thread_views(found@) =~= before + threads_in(all.take(i + 1)));
            }
        }
        i += 1;
    }
    proof {
        assert(all.take(all.len() as int) =~= all);
    }
}

/// The threads that a reply lists.
pub fn review_threads(reply: &Json) -> (r: Vec<ExistingReviewThread>)
    ensures
        thread_views(r@) == threads_in_pages(flattened(json_view(*reply))),
{
    let pages = flatten_gh_paginated_items(reply);
    let ghost all = referred(pages@);
    let mut r: Vec<ExistingReviewThread> = Vec::new();
    let mut i: usize = 0;
    proof {
        assert(thread_views(r@) =~= threads_in_pages(all.take(0)));
    }
    while i < pages.len()
        invariant
            i <= pages@.len(),
            all == referred(pages@),
            thread_views(r@) == threads_in_pages(all.take(i as int)),
        decreases pages@.len() - i,
    {
        let page = pages[i];
        proof {
            assert(all.take(i + 1).drop_last() =~= all.take(i as int));
            assert(all.take(i + 1).last() == json_view(*page));
        }
        match page.list_at("data.repository.pullRequest.reviewThreads.nodes") {
            Some(threads) => {
                add_threads(&mut r, threads);
            },
            None => {
                proof {
                    assert(thread_views(r@) + Seq::<ThreadView>::empty() =~= thread_views(r@));
                }
            },
        }
        i += 1;
    }
    proof {
        assert(all.take(all.len() as int) =~= all);
    }
    r
}

/// The threads or what is wrong with the reply.
pub open spec fn threads_result(r: Result<Vec<ExistingReviewThread>, String>) -> Result<
    Seq<ThreadView>,
    Seq<char>,
> {
    match r {
        Ok(v) => Ok(thread_views(v@)),
        Err(e) => Err(e@),
    }
}

/// The threads that the text of a reply lists.
pub fn parse_review_threads(raw: &str) -> (r: Result<Vec<ExistingReviewThread>, String>)
    ensures
        threads_result(r) == match json_document(raw@) {
            Some(reply) => Ok(threads_in_pages(flattened(reply))),
            None => Err("failed to parse review threads JSON"@),
        },
{
    match parse_json(raw) {
        Some(reply) => Ok(review_threads(&reply)),
        None => Err("failed to parse review threads JSON".to_owned()),
    }
}

// ---------------------------------------------------------------------------
// Endpoints
// ---------------------------------------------------------------------------

/// The endpoint of the comments on an issue.
pub open spec fn issue_comments_endpoint(repository: Seq<char>, number: u64) -> Seq<char> {
    "repos/"@ + repository + "/issues/"@ + decimal_of(number as nat) + "/comments"@
}

/// Where the comments on an issue are listed.
pub fn fetch_issue_comment_records(repository: &str, pr_number: u64) -> (r: String)
    ensures
        r@ == issue_comments_endpoint(repository@, pr_number),
{
    let number = decimal(pr_number);
    let head = concat3("repos/", repository, "/issues/");
    concat3(head.as_str(), number.as_str(), "/comments")
}

/// Where a comment on an issue is created.
pub fn create_issue_comment(repository: &str, pr_number: u64) -> (r: String)
    ensures
        r@ == issue_comments_endpoint(repository@, pr_number),
{
    fetch_issue_comment_records(repository, pr_number)
}

/// The endpoint of a comment on an issue.
pub open spec fn issue_comment_endpoint(repository: Seq<char>, comment_id: u64) -> Seq<char> {
    "repos/"@ + repository + "/issues/comments/"@ + decimal_of(comment_id as nat)
}

/// Where a comment on an issue is deleted.
pub fn delete_issue_comment(repository: &str, comment_id: u64) -> (r: String)
    ensures
        r@ == issue_comment_endpoint(repository@, comment_id),
{
    let number = decimal(comment_id);
    let head = concat3("repos/", repository, "/issues/comments/");
    concat2(head.as_str(), number.as_str())
}

/// Where a comment on an issue is changed.
pub fn update_issue_comment(repository: &str, comment_id: u64) -> (r: String)
    ensures
        r@ == issue_comment_endpoint(repository@, comment_id),
{
    delete_issue_comment(repository, comment_id)
}

/// Where the statuses of a commit are listed.
pub fn fetch_commit_status_records(repository: &str, reviewed_sha: &str) -> (r: String)
    ensures
        r@ == "repos/"@ + repository@ + "/commits/"@ + reviewed_sha@ + "/statuses?per_page=100"@,
{
    let head = concat3("repos/", repository, "/commits/");
    concat3(head.as_str(), reviewed_sha, "/statuses?per_page=100")
}

/// Where the comments in a pull request are listed.
pub fn fetch_pull_comments(repository: &str, pr_number: u64) -> (r: String)
    ensures
        r@ == "repos/"@ + repository@ + "/pulls/"@ + decimal_of(pr_number as nat) + "/comments"@,
{
    let number = decimal(pr_number);
    let head = concat3("repos/", repository, "/pulls/");
    concat3(head.as_str(), number.as_str(), "/comments")
}

// ---------------------------------------------------------------------------
// What holds of it
// ---------------------------------------------------------------------------

/// Pages are put together exactly if all of what is listed are pages; otherwise what is
/// listed stands for itself.
pub proof fn law_pages_are_put_together(items: Seq<JsonView>, page: Seq<JsonView>)
    ensures
        items_of_lists(Seq::empty()).len() == 0,
        items_of_lists(items.push(JsonView::List(page))) == items_of_lists(items) + page,
        (forall|i: int| 0 <= i < items.len() ==> (#[trigger] items[i]) is List) ==> flattened(
            JsonView::List(items),
        ) == items_of_lists(items),
        (exists|i: int| 0 <= i < items.len() && !((#[trigger] items[i]) is List)) ==> flattened(
            JsonView::List(items),
        ) == items,
        flattened(JsonView::Null).len() == 0,
{
    assert(items.push(JsonView::List(page)).drop_last() =~= items);
    if exists|i: int| 0 <= i < items.len() && !((#[trigger] items[i]) is List) {
        assert(!all_lists(items));
    }
}

/// An entry is a comment exactly if it has a number; its author and its text are as it
/// says.
pub proof fn law_comments_are_read(entries: Seq<JsonView>, entry: JsonView)
    ensures
        comments_in(Seq::empty()).len() == 0,
        unsigned_at(entry, "id"@) matches Some(id) ==> comments_in(entries.push(entry))
            == comments_in(entries).push(
            CommentView {
                id,
                author_login: text_at(entry, "user.login"@),
                body: text_at(entry, "body"@).unwrap_or(Seq::empty()),
            },
        ),
        unsigned_at(entry, "id"@) is None ==> comments_in(entries.push(entry)) == comments_in(
            entries,
        ),
{
    assert(entries.push(entry).drop_last() =~= entries);
}

/// An entry is a status of a disposition exactly if its context says so; what it says of
/// itself is as it says.
pub proof fn law_statuses_are_read(entries: Seq<JsonView>, entry: JsonView)
    ensures
        statuses_in(Seq::empty()).len() == 0,
        ({
            let context = text_at(entry, "context"@);
            let ours = context matches Some(c) && "reviewgate/disposition/"@.is_prefix_of(c);
            &&& ours ==> statuses_in(entries.push(entry)) == statuses_in(entries).push(
                StatusView {
                    context: context->0,
                    description: text_at(entry, "description"@).unwrap_or(Seq::empty()),
                    creator_login: text_at(entry, "creator.login"@).unwrap_or(Seq::empty()),
                    state: text_at(entry, "state"@).unwrap_or(Seq::empty()),
                },
            )
            &&& !ours ==> statuses_in(entries.push(entry)) == statuses_in(entries)
        }),
{
    assert(entries.push(entry).drop_last() =~= entries);
}

/// An entry is a thread exactly if it has an identifier, says whether it is resolved and
/// outdated, and lists its comments, all of which are read.
pub proof fn law_threads_are_read(entries: Seq<JsonView>, entry: JsonView)
    ensures
        threads_in(Seq::empty()).len() == 0,
        thread_in(entry) matches Some(t) ==> {
            &&& text_at(entry, "id"@) == Some(t.id)
            &&& truth_at(entry, "isResolved"@) == Some(t.is_resolved)
            &&& truth_at(entry, "isOutdated"@) == Some(t.is_outdated)
            &&& items_at(entry, "comments.nodes"@) matches Some(comments) && t.comments.len()
                == comments.len() && forall|i: int|
                0 <= i < comments.len() ==> (#[trigger] t.comments[i]).author_login == text_at(
                    comments[i],
                    "author.login"@,
                ) && t.comments[i].body == text_at(comments[i], "body"@).unwrap_or(Seq::empty())
        },
        text_at(entry, "id"@) is Some && truth_at(entry, "isResolved"@) is Some && truth_at(
            entry,
            "isOutdated"@,
        ) is Some && items_at(entry, "comments.nodes"@) is Some ==> thread_in(entry) is Some,
        thread_in(entry) matches Some(t) ==> threads_in(entries.push(entry)) == threads_in(
            entries,
        ).push(t),
        thread_in(entry) is None ==> threads_in(entries.push(entry)) == threads_in(entries),
{
    assert(entries.push(entry).drop_last() =~= entries);
}

/// The threads of pages are those of each, page by page.
pub proof fn law_threads_of_pages(pages: Seq<JsonView>, page: JsonView)
    ensures
        threads_in_pages(Seq::empty()).len() == 0,
        items_at(page, "data.repository.pullRequest.reviewThreads.nodes"@) matches Some(threads)
            ==> threads_in_pages(pages.push(page)) == threads_in_pages(pages) + threads_in(
            threads,
        ),
        items_at(page, "data.repository.pullRequest.reviewThreads.nodes"@) is None
            ==> threads_in_pages(pages.push(page)) == threads_in_pages(pages),
{
    assert(pages.push(page).drop_last() =~= pages);
    assert(threads_in_pages(pages) + Seq::<ThreadView>::empty() =~= threads_in_pages(pages));
}

/// A comment that was created has the number that it was given, and one that was given none
/// is an error.
pub proof fn law_created_comments_have_a_number(reply: JsonView)
    ensures
        unsigned_at(reply, "id"@) matches Some(id) ==> created_id(reply) == Ok::<u64, Seq<char>>(
            id,
        ),
        unsigned_at(reply, "id"@) is None ==> created_id(reply) is Err,
{
}

} // verus!
