//! The result of a review that an agent reads.
use vstd::prelude::*;

use crate::disposition::{same_scope, unit_result};
use crate::json::{
    json_document, json_view, json_views, parse_json, text_at, truth_at, unsigned_at, Json,
    JsonView,
};
use crate::number::{decimal, decimal_of};
use crate::order::{is_before, text_before};
use crate::pull_request::{opt_slice, ReviewScope, ScopeView};
use crate::records::{number_result, thread_views, ExistingReviewThread, ThreadView};
use crate::split::{split, split_at_char, trim, trimmed};
use crate::text::{
    chars_of, concat2, concat3, is_whitespace, opt_view, same_text, views, whitespace,
};

verus! {

// ---------------------------------------------------------------------------
// Repositories
// ---------------------------------------------------------------------------

/// The name of a repository: an owner and a name, without space.
pub open spec fn repository_name(repository: Seq<char>) -> bool {
    let parts = split_at_char(repository, '/');
    parts.len() == 2 && parts[0].len() > 0 && parts[1].len() > 0 && forall|i: int|
        0 <= i < repository.len() ==> !whitespace(#[trigger] repository[i])
}

fn has_space(s: &str) -> (r: bool)
    ensures
        r == exists|i: int| 0 <= i < s@.len() && whitespace(#[trigger] s@[i]),
{
    let v = chars_of(s);
    let mut i: usize = 0;
    while i < v.len()
        invariant
            i <= v@.len(),
            v@ == s@,
            forall|k: int| 0 <= k < i ==> !whitespace(#[trigger] v@[k]),
        decreases v@.len() - i,
    {
        if is_whitespace(v[i]) {
            proof {
                assert(whitespace(s@[i as int]));
            }
            return true;
        }
        i += 1;
    }
    false
}

/// Whether a text is the name of a repository.
pub fn valid_repository_name(repository: &str) -> (r: bool)
    ensures
        r == repository_name(repository@),
{
    let parts = split(repository, '/');
    proof {
        assert(views(parts@).len() == parts@.len());
    }
    if parts.len() != 2 {
        return false;
    }
    proof {
        assert(views(parts@)[0] == parts@[0]@);
        assert(views(parts@)[1] == parts@[1]@);
    }
    !parts[0].as_str().is_empty() && !parts[1].as_str().is_empty() && !has_space(repository)
}

/// What is known of a repository.
#[derive(Debug, PartialEq, Eq)]
pub enum RepositoryStep {
    /// Its name.
    Known { repository: String },
    /// That what was given is no name.
    Refused { error: String },
    /// Nothing: GitHub is to be asked.
    Ask,
}

/// What is known of a repository.
pub enum RepositoryView {
    Known { repository: Seq<char> },
    Refused { error: Seq<char> },
    Ask,
}

impl View for RepositoryStep {
    type V = RepositoryView;

    open spec fn view(&self) -> RepositoryView {
        match self {
            RepositoryStep::Known { repository } => RepositoryView::Known {
                repository: repository@,
            },
            RepositoryStep::Refused { error } => RepositoryView::Refused { error: error@ },
            RepositoryStep::Ask => RepositoryView::Ask,
        }
    }
}

/// The repository that is meant: the one given, or that of the environment, or the one
/// that GitHub names.
pub open spec fn repository_step(given: Option<Seq<char>>, environment: Option<Seq<char>>) ->
    RepositoryView {
    match given {
        Some(repository) => if repository_name(repository) {
            RepositoryView::Known { repository }
        } else {
            RepositoryView::Refused { error: "repository must use owner/name format"@ }
        },
        None => match environment {
            Some(repository) => if repository_name(repository) {
                RepositoryView::Known { repository }
            } else {
                RepositoryView::Ask
            },
            None => RepositoryView::Ask,
        },
    }
}

/// The repository that is meant, as far as it is known without asking.
pub fn resolve_repository(given: Option<&str>, environment: Option<&str>) -> (r: RepositoryStep)
    ensures
        r@ == repository_step(opt_slice(given), opt_slice(environment)),
{
    match given {
        Some(repository) => {
            if valid_repository_name(repository) {
                RepositoryStep::Known { repository: repository.to_owned() }
            } else {
                RepositoryStep::Refused {
                    error: "repository must use owner/name format".to_owned(),
                }
            }
        },
        None => match environment {
            Some(repository) => {
                if valid_repository_name(repository) {
                    RepositoryStep::Known { repository: repository.to_owned() }
                } else {
                    RepositoryStep::Ask
                }
            },
            None => RepositoryStep::Ask,
        },
    }
}

/// The repository that GitHub names.
pub fn named_repository(reply: &str) -> (r: Result<String, String>)
    ensures
        crate::reading::result_view(r) == if repository_name(trimmed(reply@)) {
            Ok(trimmed(reply@))
        } else {
            Err("could not resolve repository in owner/name format"@)
        },
{
    let repository = trim(reply);
    if valid_repository_name(repository.as_str()) {
        Ok(repository)
    } else {
        Err("could not resolve repository in owner/name format".to_owned())
    }
}

// ---------------------------------------------------------------------------
// Artifacts
// ---------------------------------------------------------------------------

/// The name of the artifact with the result of an attempt.
pub open spec fn artifact_name(head_sha: Seq<char>, run_attempt: u64) -> Seq<char> {
    "reviewgate-agent-result-"@ + head_sha + "-attempt-"@ + decimal_of(run_attempt as nat)
}

/// The name of the artifact with the result of an attempt.
pub fn agent_result_artifact_name(head_sha: &str, run_attempt: u64) -> (r: String)
    ensures
        r@ == artifact_name(head_sha@, run_attempt),
{
    let attempt = decimal(run_attempt);
    let head = concat3("reviewgate-agent-result-", head_sha, "-attempt-");
    concat2(head.as_str(), attempt.as_str())
}

/// The values that list artifacts.
pub open spec fn lists_among(entries: Seq<JsonView>) -> Seq<JsonView>
    decreases entries.len(),
{
    if entries.len() == 0 {
        Seq::empty()
    } else {
        let rest = lists_among(entries.drop_last());
        if entries.last().get("artifacts"@) is Some {
            rest.push(entries.last())
        } else {
            rest
        }
    }
}

/// The values that list artifacts on pages.
pub open spec fn lists_on_pages(pages: Seq<JsonView>) -> Seq<JsonView>
    decreases pages.len(),
{
    if pages.len() == 0 {
        Seq::empty()
    } else {
        let page = pages.last();
        lists_on_pages(pages.drop_last()) + if page.get("artifacts"@) is Some {
            seq![page]
        } else {
            match page.items() {
                Some(entries) => lists_among(entries),
                None => Seq::empty(),
            }
        }
    }
}

/// The values of a reply that list artifacts: the reply itself, its pages, or what they
/// hold.
pub open spec fn artifact_lists(reply: JsonView) -> Seq<JsonView> {
    if reply.get("artifacts"@) is Some {
        seq![reply]
    } else {
        match reply.items() {
            Some(pages) => lists_on_pages(pages),
            None => Seq::empty(),
        }
    }
}

/// When an artifact was made and by which run, if it is one that is looked for: of this
/// name, not expired, of this head and of a run that is trusted.
pub open spec fn candidate_in(
    artifact: JsonView,
    name: Seq<char>,
    head_sha: Seq<char>,
    trusted: Seq<u64>,
) -> Option<(Seq<char>, u64)> {
    match unsigned_at(artifact, "workflow_run.id"@) {
        Some(run_id) => if text_at(artifact, "name"@) == Some(name) && truth_at(
            artifact,
            "expired"@,
        ) == Some(false) && text_at(artifact, "workflow_run.head_sha"@) == Some(head_sha)
            && trusted.contains(run_id) {
            Some(
                (
                    match text_at(artifact, "created_at"@) {
                        Some(at) => at,
                        None => Seq::empty(),
                    },
                    run_id,
                ),
            )
        } else {
            None
        },
        None => None,
    }
}

/// One candidate may stand behind another: it is not older, nor of an earlier run where
/// they are equally old.
pub open spec fn not_before(a: (Seq<char>, u64), b: (Seq<char>, u64)) -> bool {
    text_before(b.0, a.0) || (a.0 == b.0 && b.1 <= a.1)
}

/// The newer of two candidates.
pub open spec fn newer(so_far: Option<(Seq<char>, u64)>, next: Option<(Seq<char>, u64)>) -> Option<
    (Seq<char>, u64),
> {
    match (so_far, next) {
        (Some(a), Some(b)) => if not_before(b, a) {
            Some(b)
        } else {
            Some(a)
        },
        (Some(a), None) => Some(a),
        (None, b) => b,
    }
}

/// The newest candidate among artifacts.
pub open spec fn newest_in(
    artifacts: Seq<JsonView>,
    name: Seq<char>,
    head_sha: Seq<char>,
    trusted: Seq<u64>,
) -> Option<(Seq<char>, u64)>
    decreases artifacts.len(),
{
    if artifacts.len() == 0 {
        None
    } else {
        newer(
            newest_in(artifacts.drop_last(), name, head_sha, trusted),
            candidate_in(artifacts.last(), name, head_sha, trusted),
        )
    }
}

/// The artifacts that lists name, one list after the other.
pub open spec fn artifacts_in(lists: Seq<JsonView>) -> Seq<JsonView>
    decreases lists.len(),
{
    if lists.len() == 0 {
        Seq::empty()
    } else {
        artifacts_in(lists.drop_last()) + match lists.last().get("artifacts"@) {
            Some(JsonView::List(artifacts)) => artifacts,
            _ => Seq::empty(),
        }
    }
}

/// The run with the newest result of this head and attempt among the runs that are
/// trusted.
pub open spec fn result_run(
    reply: JsonView,
    head_sha: Seq<char>,
    run_attempt: u64,
    trusted: Seq<u64>,
) -> Result<u64, Seq<char>> {
    match newest_in(
        artifacts_in(artifact_lists(reply)),
        artifact_name(head_sha, run_attempt),
        head_sha,
        trusted,
    ) {
        Some((_, run_id)) => Ok(run_id),
        None => Err("no ReviewGate agent result exists for current head "@ + head_sha),
    }
}

/// A result is only taken from a run that is trusted.
pub proof fn law_results_are_of_trusted_runs(
    reply: JsonView,
    head_sha: Seq<char>,
    run_attempt: u64,
    trusted: Seq<u64>,
)
    ensures
        result_run(reply, head_sha, run_attempt, trusted) matches Ok(run_id)
            ==> trusted.contains(run_id),
{
    lemma_newest_is_trusted(
        artifacts_in(artifact_lists(reply)),
        artifact_name(head_sha, run_attempt),
        head_sha,
        trusted,
    );
}

proof fn lemma_newest_is_trusted(
    artifacts: Seq<JsonView>,
    name: Seq<char>,
    head_sha: Seq<char>,
    trusted: Seq<u64>,
)
    ensures
        newest_in(artifacts, name, head_sha, trusted) matches Some(c) ==> trusted.contains(c.1),
    decreases artifacts.len(),
{
    if artifacts.len() > 0 {
        lemma_newest_is_trusted(artifacts.drop_last(), name, head_sha, trusted);
    }
}

proof fn lemma_newest_concat(
    a: Seq<JsonView>,
    b: Seq<JsonView>,
    name: Seq<char>,
    head_sha: Seq<char>,
    trusted: Seq<u64>,
)
    requires
        b.len() > 0,
    ensures
        newest_in(a + b, name, head_sha, trusted) == newer(
            newest_in(a + b.drop_last(), name, head_sha, trusted),
            candidate_in(b.last(), name, head_sha, trusted),
        ),
{
    assert((a + b).drop_last() =~= a + b.drop_last());
}

/// A candidate: when it was made, and by which run.
pub open spec fn opt_candidate(c: Option<(String, u64)>) -> Option<(Seq<char>, u64)> {
    match c {
        Some((at, id)) => Some((at@, id)),
        None => None,
    }
}

fn is_trusted(trusted: &Vec<u64>, id: u64) -> (r: bool)
    ensures
        r == trusted@.contains(id),
{
    let mut i: usize = 0;
    while i < trusted.len()
        invariant
            i <= trusted@.len(),
            forall|k: int| 0 <= k < i ==> trusted@[k] != id,
        decreases trusted@.len() - i,
    {
        if trusted[i] == id {
            return true;
        }
        i += 1;
    }
    false
}

fn is_text(value: Option<&str>, text: &str) -> (r: bool)
    ensures
        r == (opt_slice(value) == Some(text@)),
{
    match value {
        Some(v) => same_text(v, text),
        None => false,
    }
}

fn read_candidate(artifact: &Json, name: &str, head_sha: &str, trusted: &Vec<u64>) -> (r: Option<
    (String, u64),
>)
    ensures
        opt_candidate(r) == candidate_in(json_view(*artifact), name@, head_sha@, trusted@),
{
    let run_id = match artifact.u64_at("workflow_run.id") {
        Some(run_id) => run_id,
        None => {
            return None;
        },
    };
    let current = match artifact.bool_at("expired") {
        Some(expired) => !expired,
        None => false,
    };
    if !current || !is_text(artifact.text_at("name"), name) || !is_text(
        artifact.text_at("workflow_run.head_sha"),
        head_sha,
    ) || !is_trusted(trusted, run_id) {
        return None;
    }
    let created_at = match artifact.text_at("created_at") {
        Some(at) => at.to_owned(),
        None => String::new(),
    };
    Some((created_at, run_id))
}

fn pick_newer(so_far: Option<(String, u64)>, next: Option<(String, u64)>) -> (r: Option<
    (String, u64),
>)
    ensures
        opt_candidate(r) == newer(opt_candidate(so_far), opt_candidate(next)),
{
    match (so_far, next) {
        (Some(a), Some(b)) => {
            if is_before(a.0.as_str(), b.0.as_str()) || (same_text(a.0.as_str(), b.0.as_str())
                && a.1 <= b.1) {
                Some(b)
            } else {
                Some(a)
            }
        },
        (Some(a), None) => Some(a),
        (None, b) => b,
    }
}

fn add_artifacts(
    list: &Json,
    name: &str,
    head_sha: &str,
    trusted: &Vec<u64>,
    best: Option<(String, u64)>,
    before: Ghost<Seq<JsonView>>,
) -> (r: Option<(String, u64)>)
    requires
        opt_candidate(best) == newest_in(before@, name@, head_sha@, trusted@),
    ensures
        opt_candidate(r) == newest_in(
            before@ + (match json_view(*list).get("artifacts"@) {
                Some(JsonView::List(artifacts)) => artifacts,
                _ => Seq::empty(),
            }),
            name@,
            head_sha@,
            trusted@,
        ),
{
    proof {
        assert(before@ + Seq::<JsonView>::empty() =~= before@);
    }
    let artifacts = match list.get("artifacts") {
        Some(artifacts) => match artifacts.as_list() {
            Some(artifacts) => artifacts,
            None => {
                return best;
            },
        },
        None => {
            return best;
        },
    };
    let ghost all = json_views(artifacts@);
    let mut best = best;
    let mut i: usize = 0;
    proof {
        assert(before@ + all.take(0) =~= before@);
    }
    while i < artifacts.len()
        invariant
            i <= artifacts@.len(),
            all == json_views(artifacts@),
            opt_candidate(best) == newest_in(
                before@ + all.take(i as int),
                name@,
                head_sha@,
                trusted@,
            ),
        decreases artifacts@.len() - i,
    {
        let next = read_candidate(&artifacts[i], name, head_sha, trusted);
        proof {
            assert(all.take(i + 1).drop_last() =~= all.take(i as int));
            assert(all.take(i + 1).last() == json_view(artifacts@[i as int]));
            lemma_newest_concat(before@, all.take(i + 1), name@, head_sha@, trusted@);
        }
        best = pick_newer(best, next);
        i += 1;
    }
    proof {
        assert(all.take(all.len() as int) =~= all);
    }
    best
}

fn add_lists_among<'a>(found: &mut Vec<&'a Json>, entries: &'a Vec<Json>)
    ensures
        crate::records::referred(final(found)@) == crate::records::referred(old(found)@)
            + lists_among(json_views(entries@)),
{
    let ghost all = json_views(entries@);
    let ghost before = crate::records::referred(found@);
    let mut i: usize = 0;
    proof {
        assert(before + lists_among(all.take(0)) =~= before);
    }
    while i < entries.len()
        invariant
            i <= entries@.len(),
            all == json_views(entries@),
            before == crate::records::referred(old(found)@),
            crate::records::referred(found@) == before + lists_among(all.take(i as int)),
        decreases entries@.len() - i,
    {
        proof {
            assert(all.take(i + 1).drop_last() =~= all.take(i as int));
            assert(all.take(i + 1).last() == json_view(entries@[i as int]));
        }
        if entries[i].get("artifacts").is_some() {
            let ghost earlier = crate::records::referred(found@);
            found.push(&entries[i]);
            proof {
                assert(crate::records::referred(found@) =~= earlier.push(
                    json_view(entries@[i as int]),
                ));
                assert(crate::records::referred(found@) =~= before + lists_among(
                    all.take(i + 1),
                ));
            }
        }
        i += 1;
    }
    proof {
        assert(all.take(all.len() as int) =~= all);
    }
}

fn find_artifact_lists(reply: &Json) -> (r: Vec<&Json>)
    ensures
        crate::records::referred(r@) == artifact_lists(json_view(*reply)),
{
    let mut found: Vec<&Json> = Vec::new();
    proof {
        assert(crate::records::referred(found@) =~= Seq::empty());
    }
    if reply.get("artifacts").is_some() {
        found.push(reply);
        proof {
            assert(crate::records::referred(found@) =~= seq![json_view(*reply)]);
        }
        return found;
    }
    let pages = match reply.as_list() {
        Some(pages) => pages,
        None => {
            return found;
        },
    };
    let ghost all = json_views(pages@);
    let mut i: usize = 0;
    while i < pages.len()
        invariant
            i <= pages@.len(),
            all == json_views(pages@),
            crate::records::referred(found@) == lists_on_pages(all.take(i as int)),
        decreases pages@.len() - i,
    {
        proof {
            assert(all.take(i + 1).drop_last() =~= all.take(i as int));
            assert(all.take(i + 1).last() == json_view(pages@[i as int]));
        }
        let ghost earlier = crate::records::referred(found@);
        if pages[i].get("artifacts").is_some() {
            found.push(&pages[i]);
            proof {
                assert(crate::records::referred(found@) =~= earlier + seq![
                    json_view(pages@[i as int]),
                ]);
            }
        } else {
            match pages[i].as_list() {
                Some(entries) => {
                    add_lists_among(&mut found, entries);
                },
                None => {
                    proof {
                        assert(earlier + Seq::<JsonView>::empty() =~= earlier);
                    }
                },
            }
        }
        i += 1;
    }
    proof {
        assert(all.take(all.len() as int) =~= all);
    }
    found
}

/// The run with the newest result of this head and attempt among the runs that are
/// trusted.
pub fn agent_result_run(
    reply: &Json,
    head_sha: &str,
    run_attempt: u64,
    trusted_run_ids: &Vec<u64>,
) -> (r: Result<u64, String>)
    ensures
        number_result(r) == result_run(
            json_view(*reply),
            head_sha@,
            run_attempt,
            trusted_run_ids@,
        ),
{
    let name = agent_result_artifact_name(head_sha, run_attempt);
    let lists = find_artifact_lists(reply);
    let ghost all = crate::records::referred(lists@);
    let mut best: Option<(String, u64)> = None;
    let mut i: usize = 0;
    while i < lists.len()
        invariant
            i <= lists@.len(),
            all == crate::records::referred(lists@),
            name@ == artifact_name(head_sha@, run_attempt),
            opt_candidate(best) == newest_in(
                artifacts_in(all.take(i as int)),
                name@,
                head_sha@,
                trusted_run_ids@,
            ),
        decreases lists@.len() - i,
    {
        proof {
            assert(all.take(i + 1).drop_last() =~= all.take(i as int));
            assert(all.take(i + 1).last() == json_view(*lists@[i as int]));
        }
        best =
        add_artifacts(
            lists[i],
            name.as_str(),
            head_sha,
            trusted_run_ids,
            best,
            Ghost(artifacts_in(all.take(i as int))),
        );
        i += 1;
    }
    proof {
        assert(all.take(all.len() as int) =~= all);
    }
    match best {
        Some((_, run_id)) => Ok(run_id),
        None => Err(concat2("no ReviewGate agent result exists for current head ", head_sha)),
    }
}

/// The run with the newest result among the runs that are trusted, from the text of the
/// reply.
pub fn select_agent_result_run(
    raw: &str,
    head_sha: &str,
    run_attempt: u64,
    trusted_run_ids: &Vec<u64>,
) -> (r: Result<u64, String>)
    ensures
        number_result(r) == match json_document(raw@) {
            Some(reply) => result_run(reply, head_sha@, run_attempt, trusted_run_ids@),
            None => Err("failed to parse Actions artifacts JSON"@),
        },
{
    match parse_json(raw) {
        Some(reply) => agent_result_run(&reply, head_sha, run_attempt, trusted_run_ids),
        None => Err("failed to parse Actions artifacts JSON".to_owned()),
    }
}

// ---------------------------------------------------------------------------
// Heads and scopes
// ---------------------------------------------------------------------------

/// Whether the head is still the one that is expected.
pub fn ensure_pull_request_head(current_head: &str, expected_head: &str) -> (r: Result<(), String>)
    ensures
        unit_result(r) == if current_head@ == expected_head@ {
            Ok(())
        } else {
            Err(
                "pull request head changed while reading ReviewGate state: expected "@
                    + expected_head@ + ", current "@ + current_head@,
            )
        },
{
    if same_text(current_head, expected_head) {
        Ok(())
    } else {
        let head = concat3(
            "pull request head changed while reading ReviewGate state: expected ",
            expected_head,
            ", current ",
        );
        Err(concat2(head.as_str(), current_head))
    }
}

/// Whether a result is of this head of this pull request.
pub open spec fn result_scope(
    reviewed_sha: Seq<char>,
    scope: ScopeView,
    repository: Seq<char>,
    pr_number: u64,
    head_sha: Seq<char>,
) -> Result<(), Seq<char>> {
    if reviewed_sha != head_sha {
        Err(
            "ReviewGate result is stale: reviewed "@ + reviewed_sha + ", current head is "@
                + head_sha,
        )
    } else if scope != (ScopeView::PullRequest { repository, pull_request_number: pr_number }) {
        Err(
            "ReviewGate result scope does not match "@ + repository + "#"@ + decimal_of(
                pr_number as nat,
            ),
        )
    } else {
        Ok(())
    }
}

/// Whether a result is of this head of this pull request.
pub fn validate_agent_result_scope(
    reviewed_sha: &str,
    scope: &ReviewScope,
    repository: &str,
    pr_number: u64,
    head_sha: &str,
) -> (r: Result<(), String>)
    ensures
        unit_result(r) == result_scope(
            reviewed_sha@,
            scope@,
            repository@,
            pr_number,
            head_sha@,
        ),
{
    if !same_text(reviewed_sha, head_sha) {
        let head = concat3(
            "ReviewGate result is stale: reviewed ",
            reviewed_sha,
            ", current head is ",
        );
        return Err(concat2(head.as_str(), head_sha));
    }
    let expected = ReviewScope::PullRequest {
        repository: repository.to_owned(),
        pull_request_number: pr_number,
    };
    if !same_scope(scope, &expected) {
        let number = decimal(pr_number);
        let head = concat3("ReviewGate result scope does not match ", repository, "#");
        return Err(concat2(head.as_str(), number.as_str()));
    }
    Ok(())
}

// ---------------------------------------------------------------------------
// Threads of a result
// ---------------------------------------------------------------------------

/// How a thread stands.
#[derive(Debug, Clone, Copy, PartialEq, Eq, Structural)]
pub enum AgentThreadStatus {
    Open,
    Resolved,
}

/// The thread of a finding.
#[derive(Debug, PartialEq, Eq)]
pub struct AgentResultThread {
    pub semantic_fingerprint: String,
    pub id: String,
    pub status: AgentThreadStatus,
    pub is_outdated: bool,
}

/// The thread of a finding.
pub struct ResultThreadView {
    pub semantic_fingerprint: Seq<char>,
    pub id: Seq<char>,
    pub status: AgentThreadStatus,
    pub is_outdated: bool,
}

impl View for AgentResultThread {
    type V = ResultThreadView;

    open spec fn view(&self) -> ResultThreadView {
        ResultThreadView {
            semantic_fingerprint: self.semantic_fingerprint@,
            id: self.id@,
            status: self.status,
            is_outdated: self.is_outdated,
        }
    }
}

/// What threads of findings are.
pub open spec fn result_thread_views(s: Seq<AgentResultThread>) -> Seq<ResultThreadView> {
    s.map_values(|t: AgentResultThread| t@)
}

/// The thread of the finding with this fingerprint.
pub open spec fn thread_of_finding(t: ThreadView, fingerprint: Seq<char>) -> ResultThreadView {
    ResultThreadView {
        semantic_fingerprint: fingerprint,
        id: t.id,
        status: if t.is_resolved {
            AgentThreadStatus::Resolved
        } else {
            AgentThreadStatus::Open
        },
        is_outdated: t.is_outdated,
    }
}

/// The threads of other findings.
pub open spec fn without_finding(
    threads: Seq<ResultThreadView>,
    fingerprint: Seq<char>,
) -> Seq<ResultThreadView>
    decreases threads.len(),
{
    if threads.len() == 0 {
        Seq::empty()
    } else {
        let rest = without_finding(threads.drop_last(), fingerprint);
        if threads.last().semantic_fingerprint == fingerprint {
            rest
        } else {
            rest.push(threads.last())
        }
    }
}

/// The threads of findings, given the finding that each thread was opened for: of several
/// threads for one finding, the last.
pub open spec fn threads_of_findings(
    threads: Seq<ThreadView>,
    findings: Seq<Option<Seq<char>>>,
) -> Seq<ResultThreadView>
    decreases threads.len(),
{
    if threads.len() == 0 {
        Seq::empty()
    } else {
        let rest = threads_of_findings(threads.drop_last(), findings);
        match findings[threads.len() - 1] {
            Some(fingerprint) => without_finding(rest, fingerprint).push(
                thread_of_finding(threads.last(), fingerprint),
            ),
            None => rest,
        }
    }
}

/// No two threads are of one finding.
pub open spec fn findings_differ(threads: Seq<ResultThreadView>) -> bool {
    forall|i: int, j: int|
        0 <= i < j < threads.len() ==> (#[trigger] threads[i]).semantic_fingerprint != (
        #[trigger] threads[j]).semantic_fingerprint
}

proof fn lemma_without(threads: Seq<ResultThreadView>, fingerprint: Seq<char>)
    ensures
        forall|k: int|
            0 <= k < without_finding(threads, fingerprint).len() ==> (
            #[trigger] without_finding(threads, fingerprint)[k]).semantic_fingerprint
                != fingerprint && threads.contains(without_finding(threads, fingerprint)[k]),
        findings_differ(threads) ==> findings_differ(without_finding(threads, fingerprint)),
    decreases threads.len(),
{
    if threads.len() > 0 {
        let before = threads.drop_last();
        lemma_without(before, fingerprint);
        let rest = without_finding(before, fingerprint);
        let all = without_finding(threads, fingerprint);
        assert forall|k: int| 0 <= k < all.len() implies (
        #[trigger] all[k]).semantic_fingerprint != fingerprint && threads.contains(all[k]) by {
            if k < rest.len() {
                assert(before.contains(rest[k]));
                let m = choose|m: int| 0 <= m < before.len() && before[m] == rest[k];
                assert(threads[m] == all[k]);
            } else {
                assert(threads[threads.len() - 1] == all[k]);
            }
        }
        if findings_differ(threads) {
            assert(findings_differ(before)) by {
                assert forall|i: int, j: int| 0 <= i < j < before.len() implies (
                #[trigger] before[i]).semantic_fingerprint != (
                #[trigger] before[j]).semantic_fingerprint by {
                    assert(threads[i].semantic_fingerprint != threads[j].semantic_fingerprint);
                }
            }
            assert forall|i: int, j: int| 0 <= i < j < all.len() implies (
            #[trigger] all[i]).semantic_fingerprint != (
            #[trigger] all[j]).semantic_fingerprint by {
                if j < rest.len() {
                    assert(rest[i].semantic_fingerprint != rest[j].semantic_fingerprint);
                } else {
                    assert(before.contains(rest[i]));
                    let m = choose|m: int| 0 <= m < before.len() && before[m] == rest[i];
                    assert(threads[m].semantic_fingerprint
                        != threads[threads.len() - 1].semantic_fingerprint);
                }
            }
        }
    }
}

/// At most one thread is told of a finding.
pub proof fn law_one_thread_per_finding(
    threads: Seq<ThreadView>,
    findings: Seq<Option<Seq<char>>>,
)
    ensures
        findings_differ(threads_of_findings(threads, findings)),
    decreases threads.len(),
{
    if threads.len() > 0 {
        law_one_thread_per_finding(threads.drop_last(), findings);
        if let Some(fingerprint) = findings[threads.len() - 1] {
            lemma_without(threads_of_findings(threads.drop_last(), findings), fingerprint);
        }
    }
}

fn remove_finding(threads: Vec<AgentResultThread>, fingerprint: &str) -> (r: Vec<
    AgentResultThread,
>)
    ensures
        result_thread_views(r@) == without_finding(result_thread_views(threads@), fingerprint@),
{
    let ghost all = result_thread_views(threads@);
    let mut left = threads;
    let mut r: Vec<AgentResultThread> = Vec::new();
    let ghost mut i: int = 0;
    proof {
        assert(left@ =~= threads@.skip(0));
        assert(result_thread_views(r@) =~= without_finding(all.take(0), fingerprint@));
    }
    while left.len() > 0
        invariant
            0 <= i <= threads@.len(),
            left@ == threads@.skip(i),
            all == result_thread_views(threads@),
            all.len() == threads@.len(),
            result_thread_views(r@) == without_finding(all.take(i), fingerprint@),
        decreases left@.len(),
    {
        proof {
            assert(left@[0] == threads@[i]);
            assert(all.take(i + 1).drop_last() =~= all.take(i));
            assert(all.take(i + 1).last() == threads@[i]@);
        }
        let thread = left.remove(0);
        proof {
            assert(left@ =~= threads@.skip(i + 1));
        }
        if !same_text(thread.semantic_fingerprint.as_str(), fingerprint) {
            let ghost before = result_thread_views(r@);
            r.push(thread);
            proof {
                assert(result_thread_views(r@) =~= before.push(thread@));
            }
        }
        proof {
            i = i + 1;
        }
    }
    proof {
        assert(all.take(i) =~= all);
    }
    r
}

/// The threads of findings, given the finding that each thread was opened for.
pub fn agent_result_threads(
    threads: &Vec<ExistingReviewThread>,
    findings: &Vec<Option<String>>,
) -> (r: Vec<AgentResultThread>)
    requires
        threads@.len() == findings@.len(),
    ensures
        result_thread_views(r@) == threads_of_findings(
            thread_views(threads@),
            crate::aggregate::opt_views(findings@),
        ),
{
    let ghost all = thread_views(threads@);
    let ghost of = crate::aggregate::opt_views(findings@);
    let mut r: Vec<AgentResultThread> = Vec::new();
    let mut i: usize = 0;
    proof {
        assert(result_thread_views(r@) =~= threads_of_findings(all.take(0), of));
    }
    while i < threads.len()
        invariant
            i <= threads@.len(),
            threads@.len() == findings@.len(),
            all == thread_views(threads@),
            of == crate::aggregate::opt_views(findings@),
            result_thread_views(r@) == threads_of_findings(all.take(i as int), of),
        decreases threads@.len() - i,
    {
        let thread = &threads[i];
        proof {
            assert(all.take(i + 1).drop_last() =~= all.take(i as int));
            assert(all.take(i + 1).last() == thread@);
            assert(of[i as int] == opt_view(findings@[i as int]));
        }
        if let Some(fingerprint) = &findings[i] {
            r = remove_finding(r, fingerprint.as_str());
            let entry = AgentResultThread {
                semantic_fingerprint: fingerprint.clone(),
                id: thread.id.clone(),
                status: if thread.is_resolved {
                    AgentThreadStatus::Resolved
                } else {
                    AgentThreadStatus::Open
                },
                is_outdated: thread.is_outdated,
            };
            let ghost before = result_thread_views(r@);
            r.push(entry);
            proof {
                assert(result_thread_views(r@) =~= before.push(entry@));
            }
        }
        i += 1;
    }
    proof {
        assert(all.take(all.len() as int) =~= all);
    }
    r
}

// ---------------------------------------------------------------------------
// What holds of it
// ---------------------------------------------------------------------------

/// A repository is named by an owner and a name with one slash between them, without space.
pub proof fn law_repository_names(owner: Seq<char>, name: Seq<char>, rest: Seq<char>)
    requires
        !owner.contains('/') && !name.contains('/'),
    ensures
        owner.len() > 0 && name.len() > 0 && (forall|i: int|
            0 <= i < owner.len() ==> !whitespace(#[trigger] owner[i])) && (forall|i: int|
            0 <= i < name.len() ==> !whitespace(#[trigger] name[i])) ==> repository_name(
            owner + seq!['/'] + name,
        ),
        owner.len() == 0 || name.len() == 0 ==> !repository_name(owner + seq!['/'] + name),
        !repository_name(owner),
        !repository_name(owner + seq!['/'] + (name + seq!['/'] + rest)),
{
    crate::split::law_fields(owner, name, '/');
    crate::split::law_fields(name, rest, '/');
    crate::split::law_fields(owner, name + seq!['/'] + rest, '/');
    let all = owner + seq!['/'] + name;
    assert(split_at_char(all, '/') =~= seq![owner, name]);
    if (forall|i: int| 0 <= i < owner.len() ==> !whitespace(#[trigger] owner[i])) && (forall|
        i: int,
    | 0 <= i < name.len() ==> !whitespace(#[trigger] name[i])) {
        assert forall|i: int| 0 <= i < all.len() implies !whitespace(#[trigger] all[i]) by {
            if i < owner.len() {
                assert(all[i] == owner[i]);
            } else if i > owner.len() {
                assert(all[i] == name[i - owner.len() - 1]);
            }
        }
    }
    let more = split_at_char(owner + seq!['/'] + (name + seq!['/'] + rest), '/');
    assert(more == seq![owner] + (seq![name] + split_at_char(rest, '/')));
    assert(split_at_char(rest, '/').len() >= 1);
}

/// What is given counts before the environment, and has to be a name; without either GitHub
/// is asked.
pub proof fn law_given_repositories_count_first(
    given: Seq<char>,
    environment: Option<Seq<char>>,
)
    ensures
        repository_name(given) ==> repository_step(Some(given), environment) == (
        RepositoryView::Known { repository: given }),
        !repository_name(given) ==> repository_step(Some(given), environment) is Refused,
        repository_step(None, None) is Ask,
        environment matches Some(name) ==> repository_name(name) ==> repository_step(
            None,
            environment,
        ) == (RepositoryView::Known { repository: name }),
        environment matches Some(name) ==> !repository_name(name) ==> repository_step(
            None,
            environment,
        ) is Ask,
{
}

/// An artifact is a candidate exactly if it has the name, is not expired, and is of a
/// trusted run of the head.
pub proof fn law_candidate_artifacts(
    artifact: JsonView,
    name: Seq<char>,
    head_sha: Seq<char>,
    trusted: Seq<u64>,
)
    ensures
        candidate_in(artifact, name, head_sha, trusted) is Some <==> ({
            &&& text_at(artifact, "name"@) == Some(name)
            &&& truth_at(artifact, "expired"@) == Some(false)
            &&& text_at(artifact, "workflow_run.head_sha"@) == Some(head_sha)
            &&& unsigned_at(artifact, "workflow_run.id"@) matches Some(id) && trusted.contains(id)
        }),
        candidate_in(artifact, name, head_sha, trusted) matches Some((at, id)) ==> unsigned_at(
            artifact,
            "workflow_run.id"@,
        ) == Some(id) && at == text_at(artifact, "created_at"@).unwrap_or(Seq::empty()),
{
}

/// Of the candidates the newest is taken, and of those made at one time the one with the
/// greatest number: none that was left is newer, and there is one exactly if there is a
/// candidate.
pub proof fn law_the_newest_candidate_is_taken(
    artifacts: Seq<JsonView>,
    name: Seq<char>,
    head_sha: Seq<char>,
    trusted: Seq<u64>,
)
    ensures
        newest_in(artifacts, name, head_sha, trusted) matches Some(best) ==> (exists|i: int|
            0 <= i < artifacts.len() && candidate_in(
                #[trigger] artifacts[i],
                name,
                head_sha,
                trusted,
            ) == Some(best)) && (forall|i: int|
            0 <= i < artifacts.len() ==> (candidate_in(
                #[trigger] artifacts[i],
                name,
                head_sha,
                trusted,
            ) matches Some(c) ==> text_before(c.0, best.0) || (c.0 == best.0 && c.1 <= best.1))),
        newest_in(artifacts, name, head_sha, trusted) is None ==> forall|i: int|
            0 <= i < artifacts.len() ==> candidate_in(
                #[trigger] artifacts[i],
                name,
                head_sha,
                trusted,
            ) is None,
    decreases artifacts.len(),
{
    if artifacts.len() > 0 {
        let rest = artifacts.drop_last();
        law_the_newest_candidate_is_taken(rest, name, head_sha, trusted);
        let a = newest_in(rest, name, head_sha, trusted);
        let b = candidate_in(artifacts.last(), name, head_sha, trusted);
        let n = artifacts.len() - 1;
        assert(artifacts[n] == artifacts.last());
        if let Some(best) = newest_in(artifacts, name, head_sha, trusted) {
            if a is Some {
                let i = choose|i: int|
                    0 <= i < rest.len() && candidate_in(
                        #[trigger] rest[i],
                        name,
                        head_sha,
                        trusted,
                    ) == a;
                assert(artifacts[i] == rest[i]);
            }
            assert forall|i: int| 0 <= i < artifacts.len() implies (candidate_in(
                #[trigger] artifacts[i],
                name,
                head_sha,
                trusted,
            ) matches Some(c) ==> text_before(c.0, best.0) || (c.0 == best.0 && c.1 <= best.1)) by {
                if i < n {
                    assert(rest[i] == artifacts[i]);
                    if let Some(c) = candidate_in(artifacts[i], name, head_sha, trusted) {
                        let x = a->0;
                        if text_before(c.0, x.0) && text_before(x.0, best.0) {
                            crate::order::lemma_text_before_transitive(c.0, x.0, best.0);
                        }
                    }
                } else if let Some(c) = candidate_in(artifacts[i], name, head_sha, trusted) {
                    crate::order::lemma_text_before_total(c.0, best.0);
                }
            }
        } else {
            assert forall|i: int| 0 <= i < artifacts.len() implies candidate_in(
                #[trigger] artifacts[i],
                name,
                head_sha,
                trusted,
            ) is None by {
                if i < n {
                    assert(rest[i] == artifacts[i]);
                }
            }
        }
    }
}

/// The artifacts of lists are those of each, list by list.
pub proof fn law_artifacts_of_lists(lists: Seq<JsonView>, list: JsonView)
    ensures
        artifacts_in(Seq::empty()).len() == 0,
        list.get("artifacts"@) matches Some(JsonView::List(artifacts)) ==> artifacts_in(
            lists.push(list),
        ) == artifacts_in(lists) + artifacts,
{
    assert(lists.push(list).drop_last() =~= lists);
}

/// A list of artifacts is found alone, on a page, or on a page of pages.
pub proof fn law_artifact_lists_are_found(
    list: JsonView,
    pages: Seq<JsonView>,
    entries: Seq<JsonView>,
)
    requires
        list.get("artifacts"@) is Some,
    ensures
        artifact_lists(list) == seq![list],
        lists_on_pages(pages.push(list)) == lists_on_pages(pages).push(list),
        lists_among(entries.push(list)) == lists_among(entries).push(list),
        lists_on_pages(pages.push(JsonView::List(entries))) == lists_on_pages(pages) + lists_among(
            entries,
        ),
        artifact_lists(JsonView::List(pages)) == lists_on_pages(pages),
{
    assert(pages.push(list).drop_last() =~= pages);
    assert(entries.push(list).drop_last() =~= entries);
    assert(pages.push(JsonView::List(entries)).drop_last() =~= pages);
    assert(lists_on_pages(pages) + seq![list] =~= lists_on_pages(pages).push(list));
}

/// A result is accepted exactly if it is of this head and of this pull request.
pub proof fn law_results_are_of_the_head(
    reviewed_sha: Seq<char>,
    scope: ScopeView,
    repository: Seq<char>,
    pr_number: u64,
    head_sha: Seq<char>,
)
    ensures
        result_scope(reviewed_sha, scope, repository, pr_number, head_sha) is Ok <==> reviewed_sha
            == head_sha && scope == (ScopeView::PullRequest {
            repository,
            pull_request_number: pr_number,
        }),
{
}

/// A finding has the last thread that is of it: what that says of itself is told, and
/// threads of no finding are not.
pub proof fn law_the_last_thread_of_a_finding_is_told(
    threads: Seq<ThreadView>,
    findings: Seq<Option<Seq<char>>>,
    i: int,
    fingerprint: Seq<char>,
)
    requires
        threads.len() == findings.len(),
        0 <= i < threads.len(),
        findings[i] == Some(fingerprint),
        forall|j: int| i < j < threads.len() ==> #[trigger] findings[j] != Some(fingerprint),
    ensures
        threads_of_findings(threads, findings).contains(
            ResultThreadView {
                semantic_fingerprint: fingerprint,
                id: threads[i].id,
                status: if threads[i].is_resolved {
                    AgentThreadStatus::Resolved
                } else {
                    AgentThreadStatus::Open
                },
                is_outdated: threads[i].is_outdated,
            },
        ),
    decreases threads.len(),
{
    let t = thread_of_finding(threads[i], fingerprint);
    let n = threads.len() - 1;
    lemma_findings_by_prefix(threads.drop_last(), findings, findings.drop_last());
    let rest = threads_of_findings(threads.drop_last(), findings);
    let all = threads_of_findings(threads, findings);
    if i == n {
        assert(all[all.len() - 1] == t);
    } else {
        assert forall|j: int| i < j < threads.drop_last().len() implies
            #[trigger] findings.drop_last()[j] != Some(fingerprint) by {
            assert(findings.drop_last()[j] == findings[j]);
        }
        assert(findings.drop_last()[i] == findings[i]);
        law_the_last_thread_of_a_finding_is_told(
            threads.drop_last(),
            findings.drop_last(),
            i,
            fingerprint,
        );
        assert(threads.drop_last()[i] == threads[i]);
        assert(rest.contains(t));
        if let Some(other) = findings[n] {
            assert(other != fingerprint);
            lemma_kept_without(rest, other, t);
            let kept = without_finding(rest, other);
            let k = choose|k: int| 0 <= k < kept.len() && kept[k] == t;
            assert(all[k] == t);
        }
    }
}

proof fn lemma_findings_by_prefix(
    threads: Seq<ThreadView>,
    a: Seq<Option<Seq<char>>>,
    b: Seq<Option<Seq<char>>>,
)
    requires
        forall|j: int| 0 <= j < threads.len() ==> #[trigger] a[j] == b[j],
    ensures
        threads_of_findings(threads, a) == threads_of_findings(threads, b),
    decreases threads.len(),
{
    if threads.len() > 0 {
        lemma_findings_by_prefix(threads.drop_last(), a, b);
        assert(a[threads.len() - 1] == b[threads.len() - 1]);
    }
}

proof fn lemma_kept_without(
    threads: Seq<ResultThreadView>,
    fingerprint: Seq<char>,
    t: ResultThreadView,
)
    requires
        threads.contains(t),
        t.semantic_fingerprint != fingerprint,
    ensures
        without_finding(threads, fingerprint).contains(t),
    decreases threads.len(),
{
    let k = choose|k: int| 0 <= k < threads.len() && threads[k] == t;
    let rest = without_finding(threads.drop_last(), fingerprint);
    let all = without_finding(threads, fingerprint);
    if k == threads.len() - 1 {
        assert(all[all.len() - 1] == t);
    } else {
        assert(threads.drop_last()[k] == t);
        lemma_kept_without(threads.drop_last(), fingerprint, t);
        let j = choose|j: int| 0 <= j < rest.len() && rest[j] == t;
        assert(all[j] == t);
    }
}

} // verus!
