use reviewgate::agent_result::{
    agent_result_artifact_name, agent_result_threads, ensure_pull_request_head, named_repository,
    resolve_repository, select_agent_result_run, valid_repository_name,
    validate_agent_result_scope, AgentResultThread, AgentThreadStatus, RepositoryStep,
};
use reviewgate::disposition::{
    agent_disposition_comments, agent_disposition_digest, agent_disposition_payload,
    agent_disposition_status_context, apply_agent_disposition_comments,
    attested_disposition_comment_ids, create_agent_disposition_attestation,
    encode_agent_disposition_comment, extract_agent_disposition_state, is_attested, judge_update,
    load_attested_disposition_comment_ids, parse_created_status, report_agent_disposition_replay,
    screen_comment, AgentDispositionComment, AgentDispositionReplay, CommentOutcome,
    DispositionUpdate, ScreenedComment, UpdateJudgement,
};
use reviewgate::download::{
    download_agent_result, DownloadAction, DownloadEvent, DownloadJob, DownloadState,
};
use reviewgate::json::{parse_json, Json};
use reviewgate::pull_request::ReviewScope;
use reviewgate::records::{
    create_issue_comment_with_id, delete_issue_comment, fetch_issue_comment_records,
    parse_commit_status_records, parse_issue_comment_records, parse_pull_comments,
    parse_review_threads, CommitStatusRecord, ExistingReviewThread, ExistingReviewThreadComment,
    IssueCommentRecord,
};
use reviewgate::review_run::{
    begin_review, resolve_cli_pull_request, review_agent_pull_request, CliPullRequestTarget,
    ReviewAction, ReviewEvent, ReviewJob, ReviewMode, ReviewState,
};
use reviewgate::submission::{
    submit_agent_disposition, Rejection, SubmissionAction, SubmissionEvent, SubmissionJob,
    SubmissionState,
};
use reviewgate::threads::{
    apply_review_thread_lifecycle_actions, fetch_review_threads, reconcile_agent_result_threads,
    reply_to_review_thread, resolve_review_thread, unresolve_review_thread,
    ReviewThreadLifecycleAction, ThreadMutation, ThreadStep,
};
use reviewgate::workflow::WorkflowRunState;

fn texts(items: &[&str]) -> Vec<String> {
    items.iter().map(|item| item.to_string()).collect()
}

// ---------------------------------------------------------------------------
// Results
// ---------------------------------------------------------------------------

#[test]
fn maps_graphql_review_thread_state_to_semantic_findings() {
    let raw = r#"[{
        "data": {
            "repository": {
                "pullRequest": {
                    "reviewThreads": {
                        "nodes": [
                            {
                                "id": "PRRT_alpha",
                                "isResolved": false,
                                "isOutdated": true,
                                "comments": {
                                    "nodes": [{
                                        "body": "general:auth\n\ndefect:src.lib.rs:auth",
                                        "author": {"login": "github-actions[bot]"}
                                    }]
                                }
                            },
                            {
                                "id": "PRRT_human",
                                "isResolved": false,
                                "isOutdated": false,
                                "comments": {"nodes": [{
                                    "body": "human comment",
                                    "author": {"login": "maintainer"}
                                }]}
                            }
                        ]
                    }
                }
            }
        }
    }]"#;

    let threads = parse_review_threads(raw).expect("thread state");
    assert_eq!(
        threads,
        vec![
            ExistingReviewThread {
                id: "PRRT_alpha".to_string(),
                is_resolved: false,
                is_outdated: true,
                comments: vec![ExistingReviewThreadComment {
                    author_login: Some("github-actions[bot]".to_string()),
                    body: "general:auth\n\ndefect:src.lib.rs:auth".to_string(),
                }],
            },
            ExistingReviewThread {
                id: "PRRT_human".to_string(),
                is_resolved: false,
                is_outdated: false,
                comments: vec![ExistingReviewThreadComment {
                    author_login: Some("maintainer".to_string()),
                    body: "human comment".to_string(),
                }],
            },
        ]
    );
    assert_eq!(
        agent_result_threads(
            &threads,
            &vec![Some("defect:src.lib.rs:auth".to_string()), None]
        ),
        vec![AgentResultThread {
            semantic_fingerprint: "defect:src.lib.rs:auth".to_string(),
            id: "PRRT_alpha".to_string(),
            status: AgentThreadStatus::Open,
            is_outdated: true,
        }]
    );
}

#[test]
fn a_finding_has_one_thread() {
    let thread = |id: &str, resolved: bool| ExistingReviewThread {
        id: id.to_string(),
        is_resolved: resolved,
        is_outdated: false,
        comments: vec![],
    };
    let found = agent_result_threads(
        &vec![thread("a", false), thread("b", true), thread("c", false)],
        &vec![
            Some("one".to_string()),
            Some("two".to_string()),
            Some("one".to_string()),
        ],
    );
    assert_eq!(found.len(), 2);
    assert!(found.iter().any(|t| t.semantic_fingerprint == "two"
        && t.id == "b"
        && t.status == AgentThreadStatus::Resolved));
    assert_eq!(
        found
            .iter()
            .filter(|t| t.semantic_fingerprint == "one")
            .count(),
        1
    );
}

const ARTIFACTS: &str = r#"{
    "artifacts": [
        {
            "id": 7,
            "name": "reviewgate-agent-result-stale",
            "expired": false,
            "created_at": "2026-07-29T10:00:00Z",
            "workflow_run": {"id": 70, "head_sha": "stale"}
        },
        {
            "id": 8,
            "name": "reviewgate-agent-result-current-attempt-2",
            "expired": true,
            "created_at": "2026-07-29T12:00:00Z",
            "workflow_run": {"id": 80, "head_sha": "current"}
        },
        {
            "id": 9,
            "name": "reviewgate-agent-result-current-attempt-2",
            "expired": false,
            "created_at": "2026-07-29T11:00:00Z",
            "workflow_run": {"id": 90, "head_sha": "current"}
        },
        {
            "id": 10,
            "name": "reviewgate-agent-result-current-attempt-3",
            "expired": false,
            "created_at": "2026-07-29T13:00:00Z",
            "workflow_run": {"id": 100, "head_sha": "current"}
        }
    ]
}"#;

#[test]
fn selects_only_a_nonexpired_agent_result_for_the_exact_head() {
    assert_eq!(
        select_agent_result_run(ARTIFACTS, "current", 2, &vec![90]).expect("trusted exact result"),
        90
    );
    assert!(
        select_agent_result_run(ARTIFACTS, "current", 3, &vec![100])
            .expect("other explicitly trusted workflow")
            == 100
    );
    assert!(select_agent_result_run(ARTIFACTS, "current", 2, &vec![101]).is_err());
    assert!(select_agent_result_run(ARTIFACTS, "missing", 2, &vec![90]).is_err());
    assert_eq!(
        select_agent_result_run("[", "current", 2, &vec![90]).expect_err("no document"),
        "failed to parse Actions artifacts JSON"
    );
}

#[test]
fn rejects_an_agent_result_that_is_not_bound_to_the_requested_head_and_pr() {
    let scope = ReviewScope::PullRequest {
        repository: "LVTD-LLC/reviewgate".to_string(),
        pull_request_number: 48,
    };
    let sha = "0123456789abcdef0123456789abcdef01234567";

    assert!(
        validate_agent_result_scope(sha, &scope, "LVTD-LLC/reviewgate", 48, "different").is_err()
    );
    assert!(validate_agent_result_scope(sha, &scope, "LVTD-LLC/reviewgate", 49, sha).is_err());
    validate_agent_result_scope(sha, &scope, "LVTD-LLC/reviewgate", 48, sha).expect("exact scope");
    assert!(
        validate_agent_result_scope(sha, &ReviewScope::Local, "LVTD-LLC/reviewgate", 48, sha)
            .is_err()
    );
}

#[test]
fn names_of_results_and_repositories() {
    assert_eq!(
        agent_result_artifact_name("abc", 3),
        "reviewgate-agent-result-abc-attempt-3"
    );
    assert!(valid_repository_name("LVTD-LLC/reviewgate"));
    assert!(!valid_repository_name("reviewgate"));
    assert!(!valid_repository_name("a/b/c"));
    assert_eq!(
        ensure_pull_request_head("b", "a").expect_err("moved"),
        "pull request head changed while reading ReviewGate state: expected a, current b"
    );
    assert!(ensure_pull_request_head("a", "a").is_ok());
    assert!(matches!(
        resolve_repository(Some("LVTD-LLC/reviewgate"), None),
        RepositoryStep::Known { .. }
    ));
    assert_eq!(
        named_repository("LVTD-LLC/reviewgate\n").expect("name"),
        "LVTD-LLC/reviewgate"
    );
}

// ---------------------------------------------------------------------------
// Dispositions
// ---------------------------------------------------------------------------

fn disposition_comment(id: u64, author: &str, body: &str) -> AgentDispositionComment {
    AgentDispositionComment {
        id,
        author_login: author.to_string(),
        body: body.to_string(),
    }
}

fn no_replay() -> AgentDispositionReplay {
    AgentDispositionReplay {
        found: 0,
        unauthorized: 0,
        malformed: 0,
        stale: 0,
        actor_mismatch: 0,
        invalid: 0,
        applied: 0,
        duplicate: 0,
    }
}

#[test]
fn disposition_comments_are_versioned_author_bound_and_require_writer_attestation() {
    let state = b"{\"actor\":\"repair-agent\"}".to_vec();
    let body = encode_agent_disposition_comment(&state, "defect:src.lib.rs:auth");
    assert_eq!(
        extract_agent_disposition_state(&body)
            .expect("decoded")
            .expect("present"),
        state
    );
    let scope = || ReviewScope::PullRequest {
        repository: "LVTD-LLC/reviewgate".to_string(),
        pull_request_number: 48,
    };
    let update = DispositionUpdate {
        scope: scope(),
        reviewed_sha: "sha".to_string(),
        actor: "repair-agent".to_string(),
    };

    let untrusted = disposition_comment(1, "repair-agent", &body);
    assert_eq!(
        screen_comment(&untrusted, &vec![]),
        ScreenedComment::Unauthorized
    );
    assert_eq!(
        apply_agent_disposition_comments(&vec![CommentOutcome::Unauthorized]),
        AgentDispositionReplay {
            found: 1,
            unauthorized: 1,
            ..no_replay()
        }
    );

    let forged_author = disposition_comment(2, "different-agent", &body);
    assert!(matches!(
        screen_comment(&forged_author, &vec![2]),
        ScreenedComment::Payload { .. }
    ));
    assert_eq!(
        judge_update(&update, &scope(), "sha", &forged_author.author_login),
        UpdateJudgement::ActorMismatch
    );
    assert_eq!(
        apply_agent_disposition_comments(&vec![CommentOutcome::ActorMismatch]),
        AgentDispositionReplay {
            found: 1,
            actor_mismatch: 1,
            ..no_replay()
        }
    );

    let trusted = disposition_comment(3, "repair-agent", &body);
    let attestation = |context: &str, description: &str, creator: &str, state: &str| {
        CommitStatusRecord {
            context: context.to_string(),
            description: description.to_string(),
            creator_login: creator.to_string(),
            state: state.to_string(),
        }
    };
    let context = agent_disposition_status_context(3);
    let digest = agent_disposition_digest(&trusted.body);
    let valid = attestation(&context, &digest, "repair-agent", "success");
    assert!(is_attested(&trusted, &digest, &vec![valid]));
    let valid = attestation(&context, &digest, "repair-agent", "success");
    assert_eq!(
        attested_disposition_comment_ids(
            &vec![disposition_comment(3, "repair-agent", &body)],
            &vec![valid]
        ),
        vec![3]
    );
    let other_context = agent_disposition_status_context(4);
    for invalid_attestation in [
        attestation(&other_context, &digest, "repair-agent", "success"),
        attestation(
            &context,
            "receipt-sha256:tampered",
            "repair-agent",
            "success",
        ),
        attestation(&context, &digest, "different-agent", "success"),
        attestation(&context, &digest, "repair-agent", "failure"),
    ] {
        assert!(
            attested_disposition_comment_ids(
                &vec![disposition_comment(3, "repair-agent", &body)],
                &vec![invalid_attestation]
            )
            .is_empty()
        );
    }
    assert_eq!(
        screen_comment(&trusted, &vec![3]),
        ScreenedComment::Payload { bytes: state }
    );
    assert_eq!(
        judge_update(&update, &scope(), "sha", &trusted.author_login),
        UpdateJudgement::Apply
    );
    assert_eq!(
        judge_update(&update, &scope(), "later", &trusted.author_login),
        UpdateJudgement::Stale
    );
    assert_eq!(
        apply_agent_disposition_comments(&vec![CommentOutcome::Applied]),
        AgentDispositionReplay {
            found: 1,
            applied: 1,
            ..no_replay()
        }
    );

    let good = agent_disposition_payload(&body)
        .expect("payload")
        .expect("present");
    let malformed = disposition_comment(4, "repair-agent", &body.replace(&good, "not-base64"));
    assert!(matches!(
        screen_comment(&malformed, &vec![3, 4]),
        ScreenedComment::Malformed { .. }
    ));
    assert_eq!(
        apply_agent_disposition_comments(&vec![
            CommentOutcome::Malformed,
            CommentOutcome::Duplicate
        ]),
        AgentDispositionReplay {
            found: 2,
            malformed: 1,
            duplicate: 1,
            ..no_replay()
        }
    );
}

#[test]
fn recorded_payloads_are_read_back_whatever_the_bytes() {
    for bytes in [
        vec![],
        vec![0u8],
        vec![0xff, 0xfe, 0xfd, 0xfc],
        (0..=255u8).collect::<Vec<u8>>(),
    ] {
        let body = encode_agent_disposition_comment(&bytes, "finding");
        assert_eq!(
            extract_agent_disposition_state(&body),
            Ok(Some(bytes.clone()))
        );
        let payload = agent_disposition_payload(&body)
            .expect("payload")
            .expect("present");
        assert!(payload
            .chars()
            .all(|c| c.is_ascii_alphanumeric() || c == '-' || c == '_'));
    }
    let body = encode_agent_disposition_comment(&b"hi?".to_vec(), "finding");
    assert!(body.contains("aGk_"));
    assert_eq!(
        extract_agent_disposition_state("nothing recorded"),
        Ok(None)
    );
}

#[test]
fn digests_are_of_the_body() {
    assert_eq!(
        agent_disposition_digest("abc"),
        "receipt-sha256:ba7816bf8f01cfea414140de5dae2223b00361a396177a9cb410ff61f20015ad"
    );
    assert_ne!(
        agent_disposition_digest("abc"),
        agent_disposition_digest("abd")
    );
}

#[test]
fn attestations_attest_what_they_were_made_for() {
    let payload = create_agent_disposition_attestation("LVTD-LLC/reviewgate", 48, 3, "abc");
    assert_eq!(payload.text_at("state"), Some("success"));
    assert_eq!(payload.text_at("context"), Some("reviewgate/disposition/3"));
    assert_eq!(
        payload.text_at("target_url"),
        Some("https://github.com/LVTD-LLC/reviewgate/pull/48#issuecomment-3")
    );
    let status = CommitStatusRecord {
        context: payload.text_at("context").expect("context").to_string(),
        description: payload
            .text_at("description")
            .expect("description")
            .to_string(),
        creator_login: "agent".to_string(),
        state: payload.text_at("state").expect("state").to_string(),
    };
    assert_eq!(
        attested_disposition_comment_ids(
            &vec![disposition_comment(3, "agent", "abc")],
            &vec![status]
        ),
        vec![3]
    );
    assert!(parse_created_status(r#"{"creator":{"login":"agent"}}"#, "agent").is_ok());
    assert_eq!(
        parse_created_status(r#"{"creator":{"login":"other"}}"#, "agent"),
        Err("created commit status actor did not match the disposition author".to_string())
    );
    assert_eq!(
        parse_created_status("{}", "agent"),
        Err("created commit status did not include creator login".to_string())
    );
    assert_eq!(
        parse_created_status("", "agent"),
        Err("failed to parse created commit status JSON".to_string())
    );
}

#[test]
fn commit_status_parser_keeps_only_disposition_attestations() {
    let raw = r#"[[
        {
            "context": "reviewgate/disposition/42",
            "description": "receipt-sha256:abc",
            "creator": {"login": "repair-agent"},
            "state": "success"
        },
        {
            "context": "continuous-integration/test",
            "description": "passed",
            "creator": {"login": "github-actions[bot]"},
            "state": "success"
        }
    ]]"#;

    assert_eq!(
        parse_commit_status_records(raw).expect("statuses parse"),
        vec![CommitStatusRecord {
            context: "reviewgate/disposition/42".to_string(),
            description: "receipt-sha256:abc".to_string(),
            creator_login: "repair-agent".to_string(),
            state: "success".to_string(),
        }]
    );
}

#[test]
fn empty_disposition_set_does_not_require_commit_status_access() {
    assert_eq!(
        load_attested_disposition_comment_ids("LVTD-LLC/reviewgate", &"a".repeat(40), &vec![]),
        None
    );
    assert!(load_attested_disposition_comment_ids(
        "LVTD-LLC/reviewgate",
        &"a".repeat(40),
        &vec![disposition_comment(1, "agent", "body")]
    )
    .expect("endpoint")
    .contains(&"a".repeat(40)));
}

#[test]
fn disposition_comments_are_those_with_the_mark_in_order() {
    let body = encode_agent_disposition_comment(&b"{}".to_vec(), "finding");
    let record = |id: u64, body: &str| IssueCommentRecord {
        id,
        author_login: Some("agent".to_string()),
        body: body.to_string(),
    };
    let found = agent_disposition_comments(&vec![
        record(9, &body),
        record(5, "no mark"),
        record(2, &body),
    ]);
    assert_eq!(
        found.iter().map(|comment| comment.id).collect::<Vec<_>>(),
        vec![2, 9]
    );
    assert_eq!(
        report_agent_disposition_replay("summary publish", no_replay()),
        None
    );
    assert!(report_agent_disposition_replay(
        "summary publish",
        AgentDispositionReplay {
            found: 1,
            applied: 1,
            ..no_replay()
        }
    )
    .is_some());
}

#[test]
fn comments_are_read_from_pages() {
    let raw = r#"[[{"id":1,"user":{"login":"a"},"body":"x"}],[{"id":2,"body":"y"}]]"#;
    assert_eq!(
        parse_issue_comment_records(raw).expect("comments"),
        vec![
            IssueCommentRecord {
                id: 1,
                author_login: Some("a".to_string()),
                body: "x".to_string(),
            },
            IssueCommentRecord {
                id: 2,
                author_login: None,
                body: "y".to_string(),
            },
        ]
    );
    assert!(parse_issue_comment_records("{").is_err());
    assert!(parse_pull_comments("{").is_err());
    assert_eq!(create_issue_comment_with_id(r#"{"id":7001}"#), Ok(7001));
    assert!(create_issue_comment_with_id("{}").is_err());
    assert_eq!(
        fetch_issue_comment_records("a/b", 4),
        "repos/a/b/issues/4/comments"
    );
    assert_eq!(
        delete_issue_comment("a/b", 9),
        "repos/a/b/issues/comments/9"
    );
}

// ---------------------------------------------------------------------------
// Threads
// ---------------------------------------------------------------------------

fn thread_mutation_log(fail_at: &str) -> (bool, String) {
    let steps = apply_review_thread_lifecycle_actions(&vec![
        ReviewThreadLifecycleAction::ReplyAndResolve {
            thread_id: "PRRT_test".to_string(),
            body: "Fixed.".to_string(),
        },
    ]);
    let mut log = String::new();
    for step in steps {
        let fields = match step {
            ThreadStep::CheckHead => continue,
            ThreadStep::Change { mutation } => match mutation {
                ThreadMutation::Reply { thread_id, body } => {
                    reply_to_review_thread(&thread_id, &body)
                }
                ThreadMutation::Resolve { thread_id } => resolve_review_thread(&thread_id),
                ThreadMutation::Unresolve { thread_id } => unresolve_review_thread(&thread_id),
            },
        };
        let query = fields.join(" ");
        log.push_str(&query);
        if query.contains(fail_at) {
            return (false, log);
        }
    }
    (true, log)
}

#[test]
fn thread_mutations_reply_before_resolve_and_stop_on_reply_failure() {
    let (success, success_log) = thread_mutation_log("nothing fails");
    assert!(success);
    let reply_index = success_log
        .find("addPullRequestReviewThreadReply")
        .expect("reply mutation");
    let resolve_index = success_log
        .find("resolveReviewThread")
        .expect("resolve mutation");
    assert!(reply_index < resolve_index);

    let (failure, failure_log) = thread_mutation_log("addPullRequestReviewThreadReply");
    assert!(!failure);
    assert!(failure_log.contains("addPullRequestReviewThreadReply"));
    assert!(!failure_log.contains("resolveReviewThread"));

    let (partial_failure, partial_failure_log) = thread_mutation_log("resolveReviewThread");
    assert!(!partial_failure);
    assert!(partial_failure_log.contains("addPullRequestReviewThreadReply"));
    assert!(partial_failure_log.contains("resolveReviewThread"));
}

#[test]
fn threads_change_only_between_looks_at_the_head() {
    let steps = apply_review_thread_lifecycle_actions(&vec![
        ReviewThreadLifecycleAction::Unresolve {
            thread_id: "a".to_string(),
        },
        ReviewThreadLifecycleAction::ReplyAndUnresolve {
            thread_id: "b".to_string(),
            body: "again".to_string(),
        },
    ]);
    for (index, step) in steps.iter().enumerate() {
        if matches!(step, ThreadStep::Change { .. }) {
            assert_eq!(steps[index - 1], ThreadStep::CheckHead);
            assert_eq!(steps[index + 1], ThreadStep::CheckHead);
        }
    }
    assert_eq!(
        steps
            .iter()
            .filter(|step| matches!(step, ThreadStep::Change { .. }))
            .count(),
        3
    );
}

#[test]
fn reconciling_threads_needs_an_actor_that_may_write() {
    assert_eq!(
        reconcile_agent_result_threads("", 0, true),
        Err("thread reconciliation requires an authenticated GitHub actor".to_string())
    );
    assert_eq!(
        reconcile_agent_result_threads("agent", 1, false),
        Err("thread reconciliation requires repository write permission".to_string())
    );
    assert!(reconcile_agent_result_threads("agent", 0, false).is_ok());
    assert!(reconcile_agent_result_threads("agent", 1, true).is_ok());
    assert!(fetch_review_threads("no-owner", 1).is_err());
    assert!(fetch_review_threads("owner/name", 1).is_ok());
}

// ---------------------------------------------------------------------------
// Downloads
// ---------------------------------------------------------------------------

fn download_job(expected_run: Option<(u64, u64)>) -> DownloadJob {
    DownloadJob {
        repository: "LVTD-LLC/reviewgate".to_string(),
        pr_number: 48,
        head_sha: "current".to_string(),
        expected_run,
        max_bytes: 1000,
    }
}

#[test]
fn results_are_looked_for_in_the_completed_run_of_the_head() {
    let job = download_job(None);
    let (state, action) = download_agent_result(
        &job,
        DownloadState::FindingWorkflow,
        DownloadEvent::Workflow { id: 101 },
    );
    assert_eq!(state, DownloadState::FindingRun);
    match action {
        DownloadAction::ListRuns { endpoint } => {
            assert!(endpoint.contains("actions/workflows/101/runs"));
            assert!(endpoint.contains("head_sha=current"));
        }
        other => panic!("unexpected {other:?}"),
    }
    let (state, action) =
        download_agent_result(&job, state, DownloadEvent::Run { run_id: Some(90) });
    assert_eq!(
        action,
        DownloadAction::ReadRun {
            endpoint: "repos/LVTD-LLC/reviewgate/actions/runs/90".to_string()
        }
    );
    let (state, action) = download_agent_result(&job, state, DownloadEvent::Attempt { attempt: 2 });
    assert_eq!(
        action,
        DownloadAction::ListArtifacts {
            endpoint: "repos/LVTD-LLC/reviewgate/actions/artifacts?name=reviewgate-agent-result-current-attempt-2&per_page=100".to_string()
        }
    );
    let (state, action) = download_agent_result(
        &job,
        state,
        DownloadEvent::Artifacts {
            reply: parse_json(ARTIFACTS).expect("artifacts"),
        },
    );
    assert_eq!(
        action,
        DownloadAction::Download {
            run_id: 90,
            artifact_name: "reviewgate-agent-result-current-attempt-2".to_string()
        }
    );
    let scope = ReviewScope::PullRequest {
        repository: "LVTD-LLC/reviewgate".to_string(),
        pull_request_number: 48,
    };
    assert_eq!(
        download_agent_result(
            &job,
            state,
            DownloadEvent::Result {
                bytes: 1000,
                reviewed_sha: "current".to_string(),
                scope
            }
        ),
        (DownloadState::Finished, DownloadAction::Accept)
    );
}

#[test]
fn results_that_are_missing_untrusted_stale_or_too_large_are_refused() {
    let job = download_job(Some((80, 2)));
    assert_eq!(
        download_agent_result(
            &job,
            DownloadState::FindingRun,
            DownloadEvent::Run { run_id: None }
        ),
        (DownloadState::Finished, DownloadAction::NoRun)
    );
    let (state, _) = download_agent_result(
        &job,
        DownloadState::FindingWorkflow,
        DownloadEvent::Workflow { id: 101 },
    );
    assert_eq!(
        state,
        DownloadState::FindingArtifact {
            run_id: 80,
            attempt: 2
        }
    );
    let (state, action) = download_agent_result(
        &job,
        state,
        DownloadEvent::Artifacts {
            reply: parse_json(ARTIFACTS).expect("artifacts"),
        },
    );
    assert_eq!(state, DownloadState::Finished);
    assert!(matches!(action, DownloadAction::Fail { .. }));
    let read = |bytes: u64, sha: &str| {
        download_agent_result(
            &job,
            DownloadState::Reading,
            DownloadEvent::Result {
                bytes,
                reviewed_sha: sha.to_string(),
                scope: ReviewScope::Local,
            },
        )
        .1
    };
    assert_eq!(
        read(1001, "current"),
        DownloadAction::Fail {
            error: "ReviewGate agent result exceeds 1000 bytes".to_string()
        }
    );
    assert_eq!(
        read(10, "old"),
        DownloadAction::Fail {
            error: "ReviewGate result is stale: reviewed old, current head is current".to_string()
        }
    );
    assert_eq!(
        read(10, "current"),
        DownloadAction::Fail {
            error: "ReviewGate result scope does not match LVTD-LLC/reviewgate#48".to_string()
        }
    );
}

// ---------------------------------------------------------------------------
// Submissions
// ---------------------------------------------------------------------------

fn submission_job() -> SubmissionJob {
    SubmissionJob {
        repository: "LVTD-LLC/reviewgate".to_string(),
        pr_number: 48,
        finding: "defect:auth".to_string(),
        disposition: "fixed".to_string(),
    }
}

fn heads(sha: &str) -> SubmissionEvent {
    SubmissionEvent::Head {
        head_sha: sha.to_string(),
    }
}

fn up_to_recording(job: &SubmissionJob) -> SubmissionState {
    let (state, action) = submit_agent_disposition(job, SubmissionState::ReadingHead, heads("abc"));
    assert_eq!(
        action,
        SubmissionAction::Download {
            head_sha: "abc".to_string()
        }
    );
    let (state, action) = submit_agent_disposition(
        job,
        state,
        SubmissionEvent::Downloaded {
            findings: texts(&["other", "defect:auth"]),
        },
    );
    assert_eq!(action, SubmissionAction::ReadActor);
    let (state, action) = submit_agent_disposition(
        job,
        state,
        SubmissionEvent::Actor {
            printed: "agent\n".to_string(),
        },
    );
    assert_eq!(
        action,
        SubmissionAction::ReadPermission {
            endpoint: "repos/LVTD-LLC/reviewgate/collaborators/agent/permission".to_string()
        }
    );
    let (state, action) =
        submit_agent_disposition(job, state, SubmissionEvent::Permission { may_write: true });
    assert_eq!(action, SubmissionAction::ReadHead);
    let (state, action) = submit_agent_disposition(job, state, heads("abc"));
    assert_eq!(
        action,
        SubmissionAction::Record {
            head_sha: "abc".to_string(),
            actor: "agent".to_string()
        }
    );
    let (state, action) = submit_agent_disposition(
        job,
        state,
        SubmissionEvent::Recorded {
            comment_id: 3,
            body: "abc".to_string(),
        },
    );
    assert_eq!(action, SubmissionAction::ReadHead);
    state
}

#[test]
fn dispositions_are_recorded_once_they_are_attested() {
    let job = submission_job();
    let state = up_to_recording(&job);
    let (state, action) = submit_agent_disposition(&job, state, heads("abc"));
    match action {
        SubmissionAction::Attest { endpoint, payload } => {
            assert_eq!(endpoint, "repos/LVTD-LLC/reviewgate/statuses/abc");
            assert_eq!(
                payload.text_at("description"),
                Some(agent_disposition_digest("abc").as_str())
            );
        }
        other => panic!("unexpected {other:?}"),
    }
    let (state, action) = submit_agent_disposition(
        &job,
        state,
        SubmissionEvent::Attested {
            reply: r#"{"creator":{"login":"agent"}}"#.to_string(),
        },
    );
    assert_eq!(state, SubmissionState::Finished);
    match action {
        SubmissionAction::Report { report } => {
            assert_eq!(report.text_at("status"), Some("recorded"));
            assert_eq!(report.text_at("disposition"), Some("fixed"));
            assert_eq!(report.u64_at("comment_id"), Some(3));
        }
        other => panic!("unexpected {other:?}"),
    }
}

#[test]
fn comments_that_cannot_be_attested_are_removed() {
    let job = submission_job();
    let removal = SubmissionAction::Remove {
        endpoint: "repos/LVTD-LLC/reviewgate/issues/comments/3".to_string(),
    };

    let (state, action) = submit_agent_disposition(&job, up_to_recording(&job), heads("later"));
    assert_eq!(action, removal);
    let (_, action) = submit_agent_disposition(
        &job,
        state,
        SubmissionEvent::RemovalFailed {
            error: "denied".to_string(),
        },
    );
    match action {
        SubmissionAction::Reject {
            warning,
            report,
            error,
            cause,
        } => {
            assert_eq!(
                warning,
                Some(
                    "ReviewGate warning: failed to remove stale disposition comment 3: denied"
                        .to_string()
                )
            );
            assert_eq!(report.text_at("reason"), Some("stale_head"));
            assert_eq!(report.bool_at("comment_removed"), Some(false));
            assert_eq!(error, "pull request head changed from abc to later while recording the agent disposition; retry on the current result");
            assert_eq!(cause, None);
        }
        other => panic!("unexpected {other:?}"),
    }

    let (state, action) = submit_agent_disposition(
        &job,
        up_to_recording(&job),
        SubmissionEvent::HeadFailed {
            error: "offline".to_string(),
        },
    );
    assert_eq!(action, removal);
    assert_eq!(
        state,
        SubmissionState::Removing {
            head_sha: "abc".to_string(),
            comment_id: 3,
            rejection: Rejection::HeadCheckFailed {
                error: "offline".to_string()
            },
        }
    );
    let (_, action) = submit_agent_disposition(&job, state, SubmissionEvent::Removed);
    match action {
        SubmissionAction::Reject {
            warning,
            report,
            cause,
            ..
        } => {
            assert_eq!(warning, None);
            assert_eq!(report.text_at("reason"), Some("head_check_failed"));
            assert_eq!(report.bool_at("comment_removed"), Some(true));
            assert_eq!(cause, Some("offline".to_string()));
        }
        other => panic!("unexpected {other:?}"),
    }

    for event in [
        SubmissionEvent::Attested {
            reply: r#"{"creator":{"login":"other"}}"#.to_string(),
        },
        SubmissionEvent::AttestationFailed {
            error: "refused".to_string(),
        },
    ] {
        let (state, _) = submit_agent_disposition(&job, up_to_recording(&job), heads("abc"));
        let (state, action) = submit_agent_disposition(&job, state, event);
        assert_eq!(action, removal);
        let (_, action) = submit_agent_disposition(&job, state, SubmissionEvent::Removed);
        match action {
            SubmissionAction::Reject { report, .. } => {
                assert_eq!(report.text_at("reason"), Some("attestation_failed"));
            }
            other => panic!("unexpected {other:?}"),
        }
    }
}

#[test]
fn dispositions_need_a_finding_an_actor_and_an_unchanged_head() {
    let job = submission_job();
    let head_sha = || "abc".to_string();
    assert_eq!(
        submit_agent_disposition(
            &job,
            SubmissionState::Downloading {
                head_sha: head_sha()
            },
            SubmissionEvent::Downloaded {
                findings: texts(&["other"])
            },
        ),
        (SubmissionState::Finished, SubmissionAction::NoFinding)
    );
    let refused = SubmissionAction::Fail {
        error: "agent dispositions require repository write permission".to_string(),
    };
    assert_eq!(
        submit_agent_disposition(
            &job,
            SubmissionState::ReadingActor {
                head_sha: head_sha()
            },
            SubmissionEvent::Actor {
                printed: " \n".to_string()
            },
        )
        .1,
        refused
    );
    assert_eq!(
        submit_agent_disposition(
            &job,
            SubmissionState::ReadingPermission {
                head_sha: head_sha(),
                actor: "agent".to_string()
            },
            SubmissionEvent::Permission { may_write: false },
        )
        .1,
        refused
    );
    assert_eq!(
        submit_agent_disposition(
            &job,
            SubmissionState::CheckingHead {
                head_sha: head_sha(),
                actor: "agent".to_string()
            },
            heads("later"),
        )
        .1,
        SubmissionAction::Fail {
            error:
                "pull request head changed while reading ReviewGate state: expected abc, current later"
                    .to_string()
        }
    );
}

// ---------------------------------------------------------------------------
// Runs
// ---------------------------------------------------------------------------

fn review_job(mode: ReviewMode) -> ReviewJob {
    ReviewJob {
        repository: "LVTD-LLC/reviewgate".to_string(),
        pull_request: CliPullRequestTarget {
            pull_request_number: 48,
            url: "https://example.com/48".to_string(),
        },
        head_sha: "current".to_string(),
        workflow_id: 101,
        mode,
    }
}

fn run_state(status: &str, run_attempt: u64) -> WorkflowRunState {
    WorkflowRunState {
        run_attempt,
        status: status.to_string(),
        conclusion: None,
        event: "pull_request".to_string(),
        head_sha: "current".to_string(),
    }
}

fn found_run(elapsed: u64) -> ReviewEvent {
    ReviewEvent::Runs {
        run: Some((11, "https://example.com/run".to_string())),
        elapsed,
    }
}

#[test]
fn reviews_are_waited_for_reconciled_and_reported() {
    let job = review_job(ReviewMode::Wait {
        timeout: 100,
        poll_interval: 30,
    });
    let step = begin_review(&job);
    assert!(
        matches!(&step.action, ReviewAction::ListRuns { endpoint } if !endpoint.contains("status=completed"))
    );
    let step = review_agent_pull_request(
        &job,
        step.state,
        ReviewEvent::Runs {
            run: None,
            elapsed: 80,
        },
    );
    assert_eq!(step.action, ReviewAction::Sleep { nanos: 20 });
    let step = review_agent_pull_request(&job, step.state, ReviewEvent::Slept);
    let step = review_agent_pull_request(&job, step.state, found_run(10));
    let step = review_agent_pull_request(
        &job,
        step.state,
        ReviewEvent::Run {
            state: run_state("completed", 1),
            elapsed: 10,
        },
    );
    assert_eq!(
        step.action,
        ReviewAction::Rerun {
            endpoint: "repos/LVTD-LLC/reviewgate/actions/runs/11/rerun".to_string()
        }
    );
    let step = review_agent_pull_request(&job, step.state, ReviewEvent::Rerun { elapsed: 20 });
    assert_eq!(
        step.notices,
        texts(&["Triggered ReviewGate for PR #48 https://example.com/48 at current"])
    );
    let step = review_agent_pull_request(
        &job,
        step.state,
        ReviewEvent::Run {
            state: run_state("in_progress", 2),
            elapsed: 30,
        },
    );
    assert_eq!(step.action, ReviewAction::Sleep { nanos: 30 });
    let step = review_agent_pull_request(&job, step.state, ReviewEvent::Slept);
    let step = review_agent_pull_request(
        &job,
        step.state,
        ReviewEvent::Run {
            state: run_state("completed", 2),
            elapsed: 60,
        },
    );
    assert_eq!(
        step.action,
        ReviewAction::Download {
            run_id: 11,
            attempt: 2
        }
    );
    let step = review_agent_pull_request(&job, step.state, ReviewEvent::Downloaded);
    assert_eq!(step.action, ReviewAction::ReadHead);
    let head = |sha: &str| ReviewEvent::Head {
        head_sha: sha.to_string(),
    };
    let step = review_agent_pull_request(&job, step.state, head("current"));
    assert_eq!(step.action, ReviewAction::Reconcile);
    let step = review_agent_pull_request(&job, step.state, ReviewEvent::Reconciled { actions: 2 });
    assert_eq!(
        step.notices,
        texts(&["Reconciled 2 ReviewGate thread action(s)."])
    );
    let step = review_agent_pull_request(&job, step.state, head("current"));
    assert_eq!(step.action, ReviewAction::Report);
    let step = review_agent_pull_request(&job, ReviewState::CheckingHeadAgain, head("later"));
    assert!(matches!(step.action, ReviewAction::Fail { .. }));
}

#[test]
fn active_runs_are_joined_but_not_rechecked() {
    let active = || ReviewEvent::Run {
        state: run_state("queued", 4),
        elapsed: 0,
    };
    let reading = || ReviewState::ReadingRun {
        run_id: 11,
        run_url: "https://example.com/run".to_string(),
    };
    let step = review_agent_pull_request(&review_job(ReviewMode::Start), reading(), active());
    assert_eq!(step.action, ReviewAction::Leave);
    assert_eq!(
        step.notices,
        texts(&[
            "Joined ReviewGate for PR #48 https://example.com/48 at current",
            "Run: https://example.com/run"
        ])
    );
    let recheck = review_job(ReviewMode::Recheck);
    let step = review_agent_pull_request(&recheck, reading(), active());
    assert_eq!(
        step.action,
        ReviewAction::Fail {
            error: "workflow run became queued before ReviewGate could request a rerun"
                .to_string()
        }
    );
    let step = review_agent_pull_request(
        &recheck,
        ReviewState::Rerunning {
            run_id: 11,
            run_url: "https://example.com/run".to_string(),
            attempt: 2,
        },
        ReviewEvent::Rerun { elapsed: 0 },
    );
    assert_eq!(
        step.notices,
        texts(&[
            "Triggered ReviewGate recheck for PR #48 https://example.com/48",
            "Rerun: https://example.com/run"
        ])
    );
    let step = review_agent_pull_request(
        &recheck,
        ReviewState::Listing,
        ReviewEvent::Runs {
            run: None,
            elapsed: 0,
        },
    );
    assert_eq!(step.action, ReviewAction::NoRun);
}

#[test]
fn pull_requests_are_read_from_the_reply() {
    assert_eq!(
        resolve_cli_pull_request(r#"{"number":7,"url":"https://example.com/7"}"#),
        Ok(CliPullRequestTarget {
            pull_request_number: 7,
            url: "https://example.com/7".to_string()
        })
    );
    assert_eq!(
        resolve_cli_pull_request(r#"{"number":7}"#).expect("number").url,
        ""
    );
    assert_eq!(
        resolve_cli_pull_request("{}"),
        Err("gh pr view did not return PR number".to_string())
    );
    assert_eq!(
        resolve_cli_pull_request("gh: not found"),
        Err("failed to parse gh pr view output".to_string())
    );
    assert_eq!(
        parse_json("[1,2.5,-1]"),
        Some(Json::List(vec![
            Json::Number(Some(1)),
            Json::Number(None),
            Json::Number(None)
        ]))
    );
}
