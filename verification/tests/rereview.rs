use reviewgate::json::{parse_json, Json};
use reviewgate::rereview::{
    outcome_report, parse_repository_write_permission, parse_rereview_request,
    parse_rereview_target, render_rereview_failure_body, rereview_failure_result, rereview_target,
    RereviewEventDecision, RereviewFailureReason, RereviewIgnoreReason, RereviewOutcome,
    RereviewRequest, RereviewTarget,
};
use reviewgate::rereview_flow::{
    begin_rereview, current_head_has_completed_review, request_rereview, RereviewAction,
    RereviewEvent, RereviewState, SummaryFacts,
};
use reviewgate::status::{agent_status_exit_code, check_run_conclusion_for_status, ReviewStatus};
use reviewgate::workflow::{
    fetch_actor_write_permission, parse_repository_workflows, parse_workflow_run_candidates,
    parse_workflow_run_state, plan_review_run_start, rerun_workflow, resolve_workflow_id,
    start_selected_run, validate_workflow_identifier, wait_for_workflow_attempt,
    workflow_runs_endpoint, RepositoryWorkflow, ReviewRunStart, WaitStep, WorkflowRunState,
    WorkflowSelectorError,
};

fn issue_comment_text(
    action: &str,
    body: &str,
    association: &str,
    issue_state: &str,
    with_pull_request: bool,
    user: &str,
    comment_id: u64,
) -> String {
    let pull_request = if with_pull_request {
        r#","pull_request":{"url":"https://api.github.com/repos/LVTD-LLC/reviewgate/pulls/42"}"#
    } else {
        ""
    };
    format!(
        r#"{{"action":"{action}","issue":{{"number":42,"state":"{issue_state}"{pull_request}}},"comment":{{"id":{comment_id},"body":"{body}","author_association":"{association}"{user}}}}}"#
    )
}

fn issue_comment_event(
    action: &str,
    body: &str,
    association: &str,
    issue_state: &str,
    with_pull_request: bool,
) -> Json {
    parse_json(&issue_comment_text(
        action,
        body,
        association,
        issue_state,
        with_pull_request,
        r#","user":{"login":"octocat"}"#,
        9001,
    ))
    .expect("event")
}

#[test]
fn agent_command_exit_codes_distinguish_findings_from_review_errors() {
    assert_eq!(agent_status_exit_code(ReviewStatus::Passed), 0);
    assert_eq!(agent_status_exit_code(ReviewStatus::NeedsChanges), 2);
    assert_eq!(agent_status_exit_code(ReviewStatus::ReviewError), 3);
}

#[test]
fn completed_check_run_conclusion_fails_only_for_validated_blockers_or_review_errors() {
    assert_eq!(
        check_run_conclusion_for_status(ReviewStatus::Passed),
        "success"
    );
    assert_eq!(
        check_run_conclusion_for_status(ReviewStatus::NeedsChanges),
        "failure"
    );
    assert_eq!(
        check_run_conclusion_for_status(ReviewStatus::ReviewError),
        "failure"
    );
}

#[test]
fn workflow_wait_state_requires_attempt_status_event_and_head() {
    let state = parse_workflow_run_state(
        r#"{
            "run_attempt": 3,
            "status": "completed",
            "conclusion": "failure",
            "event": "pull_request",
            "head_sha": "abc123"
        }"#,
    )
    .expect("workflow state");

    assert_eq!(
        state,
        WorkflowRunState {
            run_attempt: 3,
            status: "completed".to_string(),
            conclusion: Some("failure".to_string()),
            event: "pull_request".to_string(),
            head_sha: "abc123".to_string(),
        }
    );
    assert!(parse_workflow_run_state(r#"{"status":"completed"}"#).is_err());
}

fn run_state(status: &str, run_attempt: u64) -> WorkflowRunState {
    WorkflowRunState {
        run_attempt,
        status: status.to_string(),
        conclusion: None,
        event: "pull_request".to_string(),
        head_sha: "current".to_string(),
    }
}

#[test]
fn agent_review_joins_active_runs_and_reruns_completed_attempts() {
    assert_eq!(
        plan_review_run_start(&run_state("queued", 2), true).expect("join queued"),
        ReviewRunStart::Join {
            expected_attempt: 2
        }
    );
    assert_eq!(
        plan_review_run_start(&run_state("in_progress", 2), true).expect("join running"),
        ReviewRunStart::Join {
            expected_attempt: 2
        }
    );
    assert_eq!(
        plan_review_run_start(&run_state("completed", 2), true).expect("rerun completed"),
        ReviewRunStart::Rerun {
            expected_attempt: 3
        }
    );
    assert!(plan_review_run_start(&run_state("queued", 2), false).is_err());
}

#[test]
fn attempts_stop_counting_at_the_largest_number() {
    assert_eq!(
        plan_review_run_start(&run_state("completed", u64::MAX), false).expect("rerun"),
        ReviewRunStart::Rerun {
            expected_attempt: u64::MAX
        }
    );
    assert_eq!(
        plan_review_run_start(&run_state("queued", 2), false).expect_err("active"),
        "workflow run became queued before ReviewGate could request a rerun"
    );
}

#[test]
fn selected_runs_must_still_match_the_head() {
    assert_eq!(
        start_selected_run(11, &run_state("completed", 1), "other", true).expect_err("moved"),
        "workflow run 11 no longer matches the expected pull_request head other"
    );
    assert_eq!(
        start_selected_run(11, &run_state("completed", 1), "current", true).expect("rerun"),
        ReviewRunStart::Rerun {
            expected_attempt: 2
        }
    );
}

#[test]
fn waiting_ends_with_the_expected_attempt_or_its_time() {
    let wait = |state: &WorkflowRunState, elapsed: u64| {
        wait_for_workflow_attempt(state, 11, 2, "current", elapsed, 10_000_000_000, 4_000_000_000)
    };
    assert_eq!(wait(&run_state("completed", 2), 0), WaitStep::Done);
    assert_eq!(
        wait(&run_state("completed", 1), 0),
        WaitStep::Sleep {
            nanos: 4_000_000_000
        }
    );
    assert_eq!(
        wait(&run_state("queued", 2), 9_000_000_000),
        WaitStep::Sleep {
            nanos: 1_000_000_000
        }
    );
    assert_eq!(
        wait(&run_state("queued", 2), 10_000_000_000),
        WaitStep::Fail(
            "timed out after 10s waiting for ReviewGate run 11 attempt 2".to_string()
        )
    );
    assert_eq!(
        wait(&run_state("queued", 3), 0),
        WaitStep::Fail(
            "ReviewGate run 11 advanced to attempt 3 while waiting for attempt 2".to_string()
        )
    );
}

#[test]
fn accepts_exact_rereview_command_from_maintainer_associations() {
    for association in ["OWNER", "MEMBER", "COLLABORATOR"] {
        let event = issue_comment_event("created", "@reviewgate review", association, "open", true);

        assert_eq!(
            parse_rereview_request("issue_comment", &event),
            RereviewEventDecision::Trigger(RereviewRequest {
                pull_request_number: 42,
                comment_id: 9001,
                actor_login: "octocat".to_string(),
            })
        );
    }
}

#[test]
fn ignores_unsafe_or_approximate_rereview_comments() {
    let missing_actor = parse_json(&issue_comment_text(
        "created",
        "@reviewgate review",
        "OWNER",
        "open",
        true,
        "",
        9001,
    ))
    .expect("event");
    let cases = [
        (
            "pull_request",
            issue_comment_event("created", "@reviewgate review", "OWNER", "open", true),
            RereviewIgnoreReason::UnsupportedEvent,
        ),
        (
            "issue_comment",
            issue_comment_event("edited", "@reviewgate review", "OWNER", "open", true),
            RereviewIgnoreReason::UnsupportedAction,
        ),
        (
            "issue_comment",
            issue_comment_event("created", "@reviewgate review ", "OWNER", "open", true),
            RereviewIgnoreReason::CommandMismatch,
        ),
        (
            "issue_comment",
            issue_comment_event("created", "@ReviewGate review", "OWNER", "open", true),
            RereviewIgnoreReason::CommandMismatch,
        ),
        (
            "issue_comment",
            issue_comment_event("created", "@reviewgate review", "CONTRIBUTOR", "open", true),
            RereviewIgnoreReason::UnauthorizedActor,
        ),
        (
            "issue_comment",
            issue_comment_event("created", "@reviewgate review", "OWNER", "open", false),
            RereviewIgnoreReason::NotPullRequest,
        ),
        (
            "issue_comment",
            issue_comment_event("created", "@reviewgate review", "OWNER", "closed", true),
            RereviewIgnoreReason::PullRequestNotOpen,
        ),
        (
            "issue_comment",
            missing_actor,
            RereviewIgnoreReason::InvalidPayload,
        ),
    ];

    for (event_name, event, expected_reason) in cases {
        assert_eq!(
            parse_rereview_request(event_name, &event),
            RereviewEventDecision::Ignore(expected_reason)
        );
    }
}

#[test]
fn parses_paginated_workflow_runs_for_exact_target_selection() {
    let raw = r#"[
        {
            "workflow_runs": [{
                "id": 10,
                "html_url": "https://github.com/LVTD-LLC/reviewgate/actions/runs/10",
                "event": "pull_request",
                "status": "completed",
                "head_sha": "current",
                "created_at": "2026-07-28T10:00:00Z",
                "repository": {"full_name": "LVTD-LLC/reviewgate"},
                "pull_requests": [{"number": 41}]
            }]
        },
        {
            "workflow_runs": [{
                "id": 11,
                "html_url": "https://github.com/LVTD-LLC/reviewgate/actions/runs/11",
                "event": "pull_request",
                "status": "completed",
                "head_sha": "current",
                "created_at": "2026-07-28T11:00:00Z",
                "repository": {"full_name": "LVTD-LLC/reviewgate"},
                "pull_requests": [{"number": 42}]
            }]
        }
    ]"#;

    let runs = parse_workflow_run_candidates(raw).expect("parse workflow pages");

    assert_eq!(runs.len(), 2);
    assert_eq!(runs[1].id, 11);
    assert_eq!(runs[1].pull_request_numbers, vec![42]);
    assert!(parse_workflow_run_candidates("not json").is_err());
}

#[test]
fn parses_only_open_pull_request_target_for_current_head() {
    let raw = r#"{
        "number": 42,
        "state": "open",
        "head": {
            "sha": "current",
            "repo": {"full_name": "contributor/fork"}
        },
        "base": {
            "repo": {"full_name": "LVTD-LLC/reviewgate"}
        }
    }"#;

    let target =
        parse_rereview_target(raw, "LVTD-LLC/reviewgate", 42).expect("open current-head target");

    assert_eq!(target.repository, "LVTD-LLC/reviewgate");
    assert_eq!(target.pull_request_number, 42);
    assert_eq!(target.head_sha, "current");
}

#[test]
fn rejects_invalid_rereview_workflow_identifiers() {
    assert!(validate_workflow_identifier("reviewgate.yml").is_ok());
    assert!(validate_workflow_identifier("123456").is_ok());
    assert!(validate_workflow_identifier(".github/workflows/reviewgate.yml").is_err());
    assert!(validate_workflow_identifier("--hostname=attacker.example").is_err());
    assert!(validate_workflow_identifier("").is_err());
}

#[test]
fn rejects_closed_mismatched_foreign_and_headless_rereview_targets() {
    let target = |number: u64, state: &str, head: &str, repo: &str| {
        format!(
            r#"{{"number":{number},"state":"{state}","head":{head},"base":{{"repo":{{"full_name":"{repo}"}}}}}}"#
        )
    };
    let sha = r#"{"sha":"current"}"#;
    let repo = "LVTD-LLC/reviewgate";
    assert!(parse_rereview_target(&target(42, "open", sha, repo), repo, 42).is_ok());
    let cases = [
        target(42, "closed", sha, repo),
        target(41, "open", sha, repo),
        target(42, "open", sha, "other/reviewgate"),
        target(42, "open", "{}", repo),
        target(42, "open", r#"{"sha":""}"#, repo),
    ];

    for value in cases {
        assert!(
            parse_rereview_target(&value, "LVTD-LLC/reviewgate", 42).is_err(),
            "unexpectedly accepted {value}"
        );
        let reply = parse_json(&value).expect("valid document");
        assert!(rereview_target(&reply, "LVTD-LLC/reviewgate", 42).is_err());
    }
}

#[test]
fn parses_and_resolves_recheck_workflow_selectors_to_numeric_ids() {
    let raw = r#"[
        {
            "workflows": [
                {
                    "id": 101,
                    "name": "ReviewGate",
                    "path": ".github/workflows/reviewgate.yml"
                },
                {
                    "id": 202,
                    "name": "CI",
                    "path": ".github/workflows/ci.yml"
                }
            ]
        }
    ]"#;
    let workflows = parse_repository_workflows(raw).expect("parse workflows");

    assert_eq!(
        resolve_workflow_id("101", &workflows).expect("numeric id"),
        101
    );
    assert_eq!(
        resolve_workflow_id("reviewgate.yml", &workflows).expect("file name"),
        101
    );
    assert_eq!(
        resolve_workflow_id(".github/workflows/reviewgate.yml", &workflows).expect("workflow path"),
        101
    );
    assert_eq!(
        resolve_workflow_id("ReviewGate", &workflows).expect("display name"),
        101
    );
    assert!(resolve_workflow_id("Missing", &workflows).is_err());
    assert_eq!(
        resolve_workflow_id("Missing", &workflows),
        Err(WorkflowSelectorError::Unmatched)
    );
}

#[test]
fn rejects_ambiguous_recheck_workflow_selectors() {
    let workflows = vec![
        RepositoryWorkflow {
            id: 101,
            name: "ReviewGate".to_string(),
            path: ".github/workflows/reviewgate.yml".to_string(),
        },
        RepositoryWorkflow {
            id: 202,
            name: "ReviewGate".to_string(),
            path: ".github/workflows/legacy-reviewgate.yml".to_string(),
        },
    ];

    assert!(resolve_workflow_id("ReviewGate", &workflows).is_err());
    assert_eq!(
        resolve_workflow_id("ReviewGate", &workflows),
        Err(WorkflowSelectorError::Ambiguous)
    );
}

#[test]
fn repository_permission_requires_effective_write_access() {
    for permission in ["write", "maintain", "admin"] {
        assert!(
            parse_repository_write_permission(&format!(r#"{{"permission":"{permission}"}}"#))
                .expect("parse permission")
        );
    }
    for permission in ["read", "triage"] {
        assert!(
            !parse_repository_write_permission(&format!(r#"{{"permission":"{permission}"}}"#))
                .expect("parse permission")
        );
    }
}

#[test]
fn every_post_validation_failure_has_stable_failed_json() {
    let cases = [
        (RereviewFailureReason::MissingToken, "missing_token"),
        (
            RereviewFailureReason::InvalidRepositoryContext,
            "invalid_repository_context",
        ),
        (RereviewFailureReason::InvalidWorkflow, "invalid_workflow"),
        (
            RereviewFailureReason::AuthorizationCheckFailed,
            "authorization_check_failed",
        ),
        (
            RereviewFailureReason::CommentDiscoveryFailed,
            "comment_discovery_failed",
        ),
        (
            RereviewFailureReason::ReservationFailed,
            "reservation_failed",
        ),
        (
            RereviewFailureReason::TargetValidationFailed,
            "target_validation_failed",
        ),
        (RereviewFailureReason::DiscoveryFailed, "discovery_failed"),
        (RereviewFailureReason::NoEligibleRun, "no_eligible_run"),
        (RereviewFailureReason::RerunFailed, "rerun_failed"),
    ];

    for (reason, code) in cases {
        assert_eq!(
            rereview_failure_result(reason),
            Json::Object(vec![
                ("status".to_string(), Json::Text("failed".to_string())),
                ("reason".to_string(), Json::Text(code.to_string())),
            ])
        );
    }
}

#[test]
fn completed_current_head_review_makes_a_new_rereview_request_a_noop() {
    let head = "a".repeat(40);
    let summary = Some(SummaryFacts {
        scope_is_valid: true,
        last_reviewed_sha: head.clone(),
        last_valid_reviewed_sha: Some(head.clone()),
        last_valid_status: Some(ReviewStatus::Passed),
    });
    let target = RereviewTarget {
        repository: "LVTD-LLC/reviewgate".to_string(),
        pull_request_number: 42,
        head_sha: head,
    };

    assert!(current_head_has_completed_review(&summary, &target));

    let stale_target = RereviewTarget {
        head_sha: "b".repeat(40),
        ..target
    };
    assert!(!current_head_has_completed_review(&summary, &stale_target));
    assert!(!current_head_has_completed_review(&None, &stale_target));
}

#[test]
fn workflow_run_discovery_is_server_filtered_to_the_current_head() {
    let endpoint = workflow_runs_endpoint("LVTD-LLC/reviewgate", "reviewgate.yml", "abc123");

    assert!(endpoint.contains("/actions/workflows/reviewgate.yml/runs?"));
    assert!(endpoint.contains("event=pull_request"));
    assert!(endpoint.contains("status=completed"));
    assert!(endpoint.contains("head_sha=abc123"));
    assert!(endpoint.contains("per_page=100"));
}

#[test]
fn rereview_failure_feedback_is_bounded_and_keeps_the_idempotency_marker() {
    let body = render_rereview_failure_body(9001, 42, RereviewFailureReason::NoEligibleRun);

    assert!(body.starts_with("<!-- reviewgate-rereview:9001 -->"));
    assert!(body.contains("PR #42"));
    assert!(body.contains("`no_eligible_run`"));
    assert!(body.contains("run the normal review first"));
    assert!(!body.contains("@reviewgate review"));
}

/// Answers as GitHub would, and keeps what was asked of it.
fn run_rereview(scenario: &str, permission: &str, comment_id: u64) -> (bool, Json, String) {
    let repository = "LVTD-LLC/reviewgate";
    let event = parse_json(&issue_comment_text(
        "created",
        "@reviewgate review",
        "MEMBER",
        "open",
        true,
        r#","user":{"login":"octocat"}"#,
        comment_id,
    ))
    .expect("event");
    let head = if scenario == "current_head" {
        "a".repeat(40)
    } else {
        "current".to_string()
    };
    let mut log = String::new();
    let mut note = |line: String| {
        log.push_str(&line);
        log.push('\n');
    };
    let (mut state, mut action) = begin_rereview(
        "issue_comment",
        &event,
        true,
        Some(repository.to_string()),
        "reviewgate.yml",
    );
    loop {
        let answer = match action {
            RereviewAction::CheckPermission => {
                note(fetch_actor_write_permission(repository, "octocat"));
                let reply = format!(r#"{{"permission":"{permission}"}}"#);
                RereviewEvent::Permission(parse_repository_write_permission(&reply).ok())
            }
            RereviewAction::ListComments => {
                note("--paginate issues/42/comments".to_string());
                RereviewEvent::Comments(Some(if scenario == "duplicate" {
                    Some(6100)
                } else {
                    None
                }))
            }
            RereviewAction::Reserve { body } => {
                note(format!("--method POST issues/42/comments {body}"));
                RereviewEvent::Reserved(Some(7001))
            }
            RereviewAction::FetchTarget => {
                let reply = format!(
                    r#"{{"number":42,"state":"open","head":{{"sha":"{head}"}},"base":{{"repo":{{"full_name":"{repository}"}}}}}}"#
                );
                RereviewEvent::Target(parse_rereview_target(&reply, repository, 42).ok())
            }
            RereviewAction::CheckReview => RereviewEvent::Reviewed(scenario == "current_head"),
            RereviewAction::ListRuns { endpoint } => {
                note(endpoint);
                RereviewEvent::Runs(Some(Some((
                    11,
                    "https://github.com/LVTD-LLC/reviewgate/actions/runs/11".to_string(),
                ))))
            }
            RereviewAction::Rerun { run_id } => {
                note(rerun_workflow(repository, run_id));
                RereviewEvent::Rerun(scenario != "rerun_failure")
            }
            RereviewAction::Finish { feedback, outcome } => {
                if let Some((id, body)) = feedback {
                    note(format!(
                        "--method PATCH repos/{repository}/issues/comments/{id} {body}"
                    ));
                }
                assert_eq!(state, RereviewState::Finished);
                let success = !matches!(outcome, RereviewOutcome::Failed(_));
                return (success, outcome_report(&outcome), log);
            }
        };
        (state, action) = request_rereview(state, answer);
    }
}

fn said<'a>(report: &'a Json, key: &str) -> Option<&'a str> {
    report.get(key).and_then(|value| value.as_str())
}

#[test]
fn read_and_triage_permissions_are_ignored_without_side_effects() {
    for permission in ["read", "triage"] {
        let (success, report, log) = run_rereview("unauthorized", permission, 9001);

        assert!(success, "{permission}");
        assert_eq!(said(&report, "status"), Some("ignored"));
        assert_eq!(said(&report, "reason"), Some("unauthorized_actor"));
        assert!(log.contains("collaborators/octocat/permission"), "{log}");
        assert!(!log.contains("issues/42/comments"), "{log}");
        assert!(!log.contains("/reactions"), "{log}");
        assert!(!log.contains("/runs"), "{log}");
    }
}

#[test]
fn duplicate_rereview_marker_causes_no_mutation() {
    let (success, report, log) = run_rereview("duplicate", "write", 9001);

    assert!(success);
    assert_eq!(said(&report, "status"), Some("duplicate"));
    assert!(!log.contains("--method POST"), "{log}");
    assert!(!log.contains("--method PATCH"), "{log}");
    assert!(!log.contains("/runs"), "{log}");
}

#[test]
fn rerun_failure_updates_reserved_comment_and_emits_failed_json() {
    let (success, report, log) = run_rereview("rerun_failure", "write", 9001);

    assert!(!success);
    assert_eq!(said(&report, "status"), Some("failed"));
    assert_eq!(said(&report, "reason"), Some("rerun_failed"));
    assert_eq!(log.matches("actions/runs/11/rerun").count(), 1, "{log}");
    assert!(log.contains("--method PATCH repos/LVTD-LLC/reviewgate/issues/comments/7001"));
    assert!(log.contains("`rerun_failed`"), "{log}");
    assert!(log.contains("<!-- reviewgate-rereview:9001 -->"), "{log}");
}

#[test]
fn successful_rereview_reruns_once_and_updates_the_reserved_comment() {
    let (success, report, log) = run_rereview("success", "maintain", 9001);

    assert!(success);
    assert_eq!(said(&report, "status"), Some("queued"));
    assert_eq!(log.matches("actions/runs/11/rerun").count(), 1, "{log}");
    assert_eq!(
        log.matches("--method PATCH repos/LVTD-LLC/reviewgate/issues/comments/7001")
            .count(),
        1,
        "{log}"
    );
    assert!(log.contains("rereview queued for PR #42"), "{log}");
}

#[test]
fn completed_current_head_rereview_is_an_end_to_end_noop() {
    let (success, report, log) = run_rereview("current_head", "write", 9001);

    assert!(success);
    assert_eq!(said(&report, "status"), Some("current"));
    assert_eq!(
        said(&report, "reason"),
        Some("already_reviewed_current_head")
    );
    assert!(!log.contains("/actions/workflows/"), "{log}");
    assert!(!log.contains("/actions/runs/"), "{log}");
    assert!(log.contains("--method PATCH repos/LVTD-LLC/reviewgate/issues/comments/7001"));
}

#[test]
fn distinct_later_comment_ids_each_request_one_rereview() {
    for comment_id in [9001, 9002] {
        let (success, report, log) = run_rereview("success", "write", comment_id);

        assert!(success, "{comment_id}");
        assert_eq!(said(&report, "status"), Some("queued"));
        assert_eq!(
            log.matches("actions/runs/11/rerun").count(),
            1,
            "{comment_id}: {log}"
        );
        assert!(
            log.contains(&format!("<!-- reviewgate-rereview:{comment_id} -->")),
            "{comment_id}: {log}"
        );
    }
}

#[test]
fn requests_without_a_token_a_repository_or_a_workflow_fail_before_anything_is_asked() {
    let event = issue_comment_event("created", "@reviewgate review", "OWNER", "open", true);
    let outcome = |token: bool, repository: Option<&str>, workflow: &str| {
        match begin_rereview(
            "issue_comment",
            &event,
            token,
            repository.map(|name| name.to_string()),
            workflow,
        )
        .1
        {
            RereviewAction::Finish { feedback, outcome } => {
                assert_eq!(feedback, None);
                outcome
            }
            other => panic!("unexpected action {other:?}"),
        }
    };
    assert_eq!(
        outcome(false, Some("a/b"), "x.yml"),
        RereviewOutcome::Failed(RereviewFailureReason::MissingToken)
    );
    assert_eq!(
        outcome(true, None, "x.yml"),
        RereviewOutcome::Failed(RereviewFailureReason::InvalidRepositoryContext)
    );
    assert_eq!(
        outcome(true, Some("a/b"), "../x.yml"),
        RereviewOutcome::Failed(RereviewFailureReason::InvalidWorkflow)
    );
}
