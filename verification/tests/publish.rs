use reviewgate::aggregate::ReviewAngleError;
use reviewgate::angles::ReviewErrorKind;
use reviewgate::finding_comments::{
    begin_findings, publish_findings_inner, FindingsAction, FindingsEvent, FindingsJob,
    FindingsState,
};
use reviewgate::json::{parse_json, Json};
use reviewgate::publish::{
    append_github_output, build_check_run_payload, build_inline_comment_payload, check_run_head,
    check_run_head_without_review, check_run_summary, check_run_title, describe_anchors,
    describe_published_findings, github_actions_run_url, github_token_available,
    plan_comment_step, prepare_summary_publication_artifact,
    publication_base_is_already_reconciled, publish_gate, render_check_run_summary, render_score,
    render_start_signal_body, summarize_finding_ids, unknown_thread_findings,
    validate_serialized_disposition_updates, AnchorCounts, InlineCommentDraft, Publication,
    PublishGate, SummaryCommentAction, TrackedHistory, UpdateRecord,
};
use reviewgate::disposition::{agent_disposition_digest, CommentOutcome};
use reviewgate::pull_request::DeltaPlan;
use reviewgate::records::{CommitStatusRecord, IssueCommentRecord};
use reviewgate::status::ReviewStatus;
use reviewgate::summary::{
    begin_summary, publish_summary, Base, EarlierSummary, ReviewedHeads, SummaryAction,
    SummaryEvent, SummaryJob, SummaryState, SummaryStep,
};

fn texts(items: &[&str]) -> Vec<String> {
    items.iter().map(|item| item.to_string()).collect()
}

#[test]
fn skipped_finding_id_summary_is_bounded() {
    let ids = (0..22)
        .map(|index| format!("rg_{index:02}"))
        .collect::<Vec<_>>();

    let summary = summarize_finding_ids(&ids);

    assert!(summary.starts_with("rg_00, rg_01"));
    assert!(summary.ends_with(", and 2 more"));
    assert!(!summary.contains("rg_20"));
    assert_eq!(summarize_finding_ids(&vec![]), "none");
    assert_eq!(summarize_finding_ids(&texts(&["a", "b"])), "a, b");
}

#[test]
fn check_run_payload_omits_missing_details_url() {
    let payload = build_check_run_payload(
        "ReviewGate",
        "abc123",
        "failure",
        "ReviewGate: review unavailable",
        "ReviewGate could not read the review artifact.",
        None,
    );

    assert!(payload.get("details_url").is_none());
    assert_eq!(payload.text_at("conclusion"), Some("failure"));
    assert_eq!(payload.text_at("head_sha"), Some("abc123"));
    assert_eq!(payload.text_at("status"), Some("completed"));
    assert_eq!(
        payload.text_at("output.title"),
        Some("ReviewGate: review unavailable")
    );
}

#[test]
fn check_run_payload_includes_available_details_url() {
    let payload = build_check_run_payload(
        "ReviewGate",
        "abc123",
        "success",
        "ReviewGate: 5/5 (passed, review completed)",
        "Clean.",
        Some("https://github.com/LVTD-LLC/reviewgate/actions/runs/1"),
    );

    assert_eq!(
        payload.text_at("details_url"),
        Some("https://github.com/LVTD-LLC/reviewgate/actions/runs/1")
    );
}

#[test]
fn inline_comment_payload_targets_right_side_changed_line() {
    let payload = build_inline_comment_payload(
        &InlineCommentDraft {
            finding_id: "rg_001".to_string(),
            path: "src/lib.rs".to_string(),
            line: 42,
            body: "body".to_string(),
        },
        "abc123",
    );

    assert_eq!(payload.text_at("commit_id"), Some("abc123"));
    assert_eq!(payload.text_at("path"), Some("src/lib.rs"));
    assert_eq!(payload.u64_at("line"), Some(42));
    assert_eq!(payload.text_at("side"), Some("RIGHT"));
    assert_eq!(payload.text_at("body"), Some("body"));
    assert!(payload.get("position").is_none());
}

#[test]
fn start_signals_keep_a_state_and_nothing_else() {
    let fresh = render_start_signal_body("<!-- marker -->", None);
    assert!(fresh.starts_with("<!-- marker -->\n\n# ReviewGate: running\n\n"));
    let kept = render_start_signal_body("<!-- marker -->", Some(("<!-- state:", "e30=", " -->")));
    assert!(kept.starts_with("<!-- marker -->\n\n<!-- state:e30= -->\n\n# ReviewGate: running\n\n"));
}

fn event(text: &str) -> Json {
    parse_json(text).expect("event")
}

#[test]
fn publications_need_an_event_an_input_and_a_token() {
    let pull = event(r#"{"pull_request":{"number":49}}"#);
    let other = event("{}");
    let gate = |publication: Publication, name: &str, input: bool, token: bool, event: Option<&Json>| {
        publish_gate(publication, name, "summary.md", input, token, event)
    };
    let skip = |message: &str| PublishGate::Skip {
        message: message.to_string(),
    };
    let fail = |error: &str| PublishGate::Fail {
        error: error.to_string(),
    };
    for publication in [
        Publication::StartSignal,
        Publication::Findings,
        Publication::Summary,
        Publication::Threads,
        Publication::AgentResult,
    ] {
        assert_eq!(
            gate(publication, "pull_request", true, true, Some(&pull)),
            PublishGate::Publish { pr_number: 49 }
        );
    }
    assert_eq!(
        gate(Publication::StartSignal, "push", true, true, Some(&pull)),
        skip("ReviewGate start signal skipped: not a pull_request event.")
    );
    assert_eq!(
        gate(Publication::StartSignal, "pull_request", false, false, None),
        skip("ReviewGate start signal skipped: GitHub token is empty.")
    );
    assert_eq!(
        gate(Publication::Summary, "pull_request", false, true, Some(&pull)),
        fail("::error title=ReviewGate summary missing::ReviewGate did not produce summary.md.")
    );
    assert_eq!(
        gate(Publication::Summary, "pull_request", true, true, Some(&other)),
        skip("ReviewGate summary comment skipped: no pull request number.")
    );
    assert_eq!(
        gate(Publication::Findings, "pull_request", false, true, Some(&pull)),
        skip("ReviewGate finding comments skipped: missing summary.md.")
    );
    assert_eq!(
        gate(Publication::Findings, "pull_request", true, true, None),
        skip("ReviewGate finding comments skipped: missing GitHub event.")
    );
    assert_eq!(
        gate(Publication::Threads, "pull_request", true, false, Some(&pull)),
        fail("ReviewGate thread reconciliation failed: GitHub token is empty")
    );
    assert_eq!(
        gate(Publication::Threads, "push", true, true, Some(&pull)),
        skip("ReviewGate thread reconciliation skipped: not a pull_request event.")
    );
    assert_eq!(
        gate(Publication::AgentResult, "push", true, true, Some(&pull)),
        fail("ReviewGate agent result requires a pull_request event")
    );
    assert_eq!(
        gate(Publication::AgentResult, "pull_request", true, true, Some(&other)),
        fail("ReviewGate agent result requires a PR number")
    );
}

#[test]
fn the_first_token_that_is_set_decides() {
    assert!(github_token_available(Some("t"), None));
    assert!(github_token_available(None, Some("t")));
    assert!(!github_token_available(Some(" "), Some("t")));
    assert!(!github_token_available(None, None));
}

#[test]
fn comments_are_created_updated_or_left() {
    let created = plan_comment_step(
        SummaryCommentAction::Create {
            body: "b".to_string(),
        },
        true,
        "a/b",
        4,
    );
    assert_eq!(
        created.request,
        Some((
            "POST".to_string(),
            "repos/a/b/issues/4/comments".to_string(),
            "b".to_string()
        ))
    );
    assert_eq!(created.message, "Created ReviewGate start signal comment.");
    let updated = plan_comment_step(
        SummaryCommentAction::Update {
            id: 7,
            body: "b".to_string(),
        },
        false,
        "a/b",
        4,
    );
    assert_eq!(
        updated.request,
        Some((
            "PATCH".to_string(),
            "repos/a/b/issues/comments/7".to_string(),
            "b".to_string()
        ))
    );
    assert_eq!(updated.message, "Updated ReviewGate summary comment 7.");
    let left = plan_comment_step(SummaryCommentAction::Noop { id: 7 }, false, "a/b", 4);
    assert_eq!(left.request, None);
    assert_eq!(
        left.message,
        "ReviewGate summary comment 7 already up to date."
    );
}

#[test]
fn it_is_told_where_findings_were_put() {
    let none = AnchorCounts {
        repaired: 0,
        fallback: 0,
        skipped: 0,
        skipped_finding_ids: vec![],
    };
    assert!(describe_anchors(&none).is_empty());
    assert_eq!(
        describe_published_findings(&none, &vec![true, true], 1),
        texts(&["ReviewGate findings published: 2 inline; 1 stale standalone deleted; repaired anchors: 0; fallback anchors: 0; skipped: 0; inline failed: 0."])
    );
    let some = AnchorCounts {
        repaired: 1,
        fallback: 2,
        skipped: 1,
        skipped_finding_ids: texts(&["rg_9"]),
    };
    let told = describe_anchors(&some);
    assert_eq!(told.len(), 3);
    assert!(told[0].contains("repaired 1 model-provided anchor(s)"));
    assert!(told[1].contains("anchored 2 file-level"));
    assert!(told[2].ends_with("Skipped finding IDs: rg_9."));
    let report = describe_published_findings(&some, &vec![true, false], 0);
    assert_eq!(report.len(), 2);
    assert!(report[1].starts_with(
        "::warning title=ReviewGate findings::Failed 1 inline comment(s) and skipped 1; skipped finding IDs: rg_9."
    ));
}

fn findings_job() -> FindingsJob {
    FindingsJob {
        repository: "a/b".to_string(),
        pr_number: 12,
        commit_id: "c0ffee".to_string(),
    }
}

fn draft(id: &str) -> InlineCommentDraft {
    InlineCommentDraft {
        finding_id: id.to_string(),
        path: "src/lib.rs".to_string(),
        line: 7,
        body: format!("body of {id}"),
    }
}

fn no_anchors() -> AnchorCounts {
    AnchorCounts {
        repaired: 0,
        fallback: 0,
        skipped: 0,
        skipped_finding_ids: vec![],
    }
}

#[test]
fn a_comment_that_cannot_be_written_stops_no_other() {
    let job = findings_job();
    let counts = AnchorCounts {
        repaired: 1,
        ..no_anchors()
    };
    let step = begin_findings(&job, counts, vec![draft("rg_1"), draft("rg_2")], vec![41, 42]);
    assert_eq!(step.notices.len(), 1);
    assert!(step.notices[0].contains("repaired 1 model-provided anchor(s)"));
    assert_eq!(
        step.action,
        FindingsAction::Post {
            endpoint: "repos/a/b/pulls/12/comments".to_string(),
            payload: build_inline_comment_payload(&draft("rg_1"), "c0ffee"),
        }
    );

    let step = publish_findings_inner(&job, step.state, FindingsEvent::Posted { done: false });
    assert!(step.notices.is_empty());
    assert_eq!(
        step.warnings,
        texts(&["ReviewGate inline comment could not be posted for finding rg_1. The review JSON contains the full finding."])
    );
    assert_eq!(
        step.action,
        FindingsAction::Post {
            endpoint: "repos/a/b/pulls/12/comments".to_string(),
            payload: build_inline_comment_payload(&draft("rg_2"), "c0ffee"),
        }
    );

    let step = publish_findings_inner(&job, step.state, FindingsEvent::Posted { done: true });
    assert!(step.warnings.is_empty());
    assert_eq!(
        step.action,
        FindingsAction::Delete {
            endpoint: "repos/a/b/issues/comments/41".to_string(),
        }
    );

    let step = publish_findings_inner(&job, step.state, FindingsEvent::Deleted);
    assert_eq!(
        step.action,
        FindingsAction::Delete {
            endpoint: "repos/a/b/issues/comments/42".to_string(),
        }
    );

    let step = publish_findings_inner(&job, step.state, FindingsEvent::Deleted);
    assert_eq!(step.action, FindingsAction::Done);
    assert_eq!(step.state, FindingsState::Finished);
    assert_eq!(step.notices.len(), 2);
    assert_eq!(
        step.notices[0],
        "ReviewGate findings published: 1 inline; 2 stale standalone deleted; repaired anchors: 1; fallback anchors: 0; skipped: 0; inline failed: 1."
    );
    assert!(step.notices[1].starts_with("::warning title=ReviewGate findings::Failed 1 inline"));
}

#[test]
fn without_comments_the_publication_ends_at_once() {
    let step = begin_findings(&findings_job(), no_anchors(), vec![], vec![]);
    assert_eq!(step.action, FindingsAction::Done);
    assert_eq!(
        step.notices,
        texts(&["ReviewGate findings published: 0 inline; 0 stale standalone deleted; repaired anchors: 0; fallback anchors: 0; skipped: 0; inline failed: 0."])
    );
}

#[test]
fn check_runs_tell_the_score_or_the_errors() {
    assert_eq!(
        check_run_title(Some(5), ReviewStatus::Passed),
        "ReviewGate: 5/5 (passed, review completed)"
    );
    assert_eq!(
        check_run_title(Some(2), ReviewStatus::NeedsChanges),
        "ReviewGate: 2/5 (needs_changes, review completed)"
    );
    assert_eq!(
        check_run_title(None, ReviewStatus::ReviewError),
        "ReviewGate: review error (inconclusive)"
    );
    assert_eq!(
        check_run_summary("Clean.", ReviewStatus::Passed, &vec![]),
        "Clean."
    );
    let summary = check_run_summary(
        "ReviewGate could not complete every enabled review angle.",
        ReviewStatus::ReviewError,
        &vec![ReviewAngleError {
            angle_id: "general".to_string(),
            angle_name: "General".to_string(),
            kind: ReviewErrorKind::Timeout,
            retryable: true,
            message: "The request timed out.".to_string(),
            model: "balanced-sentinel-secret".to_string(),
        }],
    );
    assert!(summary.contains("Outcome: `review_error` (no numeric score)."));
    assert!(summary.contains("    "));
    assert!(summary.contains("\"kind\": \"timeout\""));
    assert!(summary.contains("\"retryable\": true"));
    assert!(!summary.contains("sentinel-secret"));
    assert_eq!(
        render_check_run_summary("V.", ReviewStatus::ReviewError, "[\n  1\n]"),
        "V.\n\nOutcome: `review_error` (no numeric score).\n\nTyped angle errors:\n\n    [\n      1\n    ]"
    );
    assert_eq!(check_run_head(Some("live"), Some("event"), "old"), "live");
    assert_eq!(check_run_head(None, Some("event"), "old"), "event");
    assert_eq!(check_run_head(None, None, "old"), "old");
    assert_eq!(
        check_run_head_without_review(None, None, Some("here")),
        Ok("here".to_string())
    );
    assert_eq!(
        check_run_head_without_review(None, None, None),
        Err("ReviewGate check run failed: could not determine head SHA".to_string())
    );
}

#[test]
fn outputs_are_single_lines() {
    assert_eq!(
        append_github_output("score", "5"),
        Ok("score=5\n".to_string())
    );
    assert_eq!(
        append_github_output("score", "5\nadmin=true"),
        Err("GitHub output score must be a single line".to_string())
    );
    assert_eq!(render_score(Some(4), "none"), "4");
    assert_eq!(render_score(None, "none"), "none");
    assert_eq!(
        github_actions_run_url(None, Some("a/b"), Some("12")).as_deref(),
        Some("https://github.com/a/b/actions/runs/12")
    );
    assert_eq!(github_actions_run_url(Some("https://x"), Some("a/b"), None), None);
    assert_eq!(
        unknown_thread_findings(texts(&["b", "a"]), texts(&["a", "c"])),
        texts(&["a", "b", "c"])
    );
}

fn followed(fingerprint: &str, history: &[&str]) -> TrackedHistory {
    TrackedHistory {
        semantic_fingerprint: fingerprint.to_string(),
        history: texts(history),
    }
}

#[test]
fn a_base_is_reconciled_once() {
    let previous = vec![followed("x", &["open"]), followed("y", &["open", "fixed"])];
    let same = vec![followed("x", &["open"]), followed("y", &["open", "fixed"])];
    assert!(publication_base_is_already_reconciled(&previous, &same));
    assert!(!prepare_summary_publication_artifact(&previous, &same));
    let fewer = vec![followed("x", &["open"])];
    assert!(!publication_base_is_already_reconciled(&previous, &fewer));
    assert!(prepare_summary_publication_artifact(&previous, &fewer));
    let rewritten = vec![followed("x", &["closed"]), followed("y", &["open", "fixed"])];
    assert!(!publication_base_is_already_reconciled(&previous, &rewritten));
    assert!(prepare_summary_publication_artifact(&previous, &vec![]));
}

fn update(disposition: &str) -> UpdateRecord {
    UpdateRecord {
        semantic_fingerprint: "x".to_string(),
        disposition: disposition.to_string(),
        evidence_summary: "e".to_string(),
        actor: "a".to_string(),
        reviewed_sha: "s".to_string(),
        code_fingerprint: "c".to_string(),
        resolution: String::new(),
    }
}

#[test]
fn updates_that_are_written_down_are_those_that_are_derived() {
    assert_eq!(
        validate_serialized_disposition_updates(&vec![], &vec![update("fixed")]),
        Ok(())
    );
    assert_eq!(
        validate_serialized_disposition_updates(&vec![update("fixed")], &vec![update("fixed")]),
        Ok(())
    );
    assert!(validate_serialized_disposition_updates(
        &vec![update("disputed")],
        &vec![update("fixed")]
    )
    .is_err());
    assert!(
        validate_serialized_disposition_updates(&vec![update("fixed")], &vec![]).is_err()
    );
}

// ---------------------------------------------------------------------------
// The publication of a summary
// ---------------------------------------------------------------------------

fn summary_job() -> SummaryJob {
    SummaryJob {
        repository: "a/b".to_string(),
        pr_number: 4,
    }
}

fn heads(last: &str) -> ReviewedHeads {
    ReviewedHeads {
        last: last.to_string(),
        last_valid: None,
    }
}

fn go_on(step: SummaryStep, event: SummaryEvent) -> SummaryStep {
    publish_summary(&summary_job(), step.state, event)
}

fn with_comments(records: Vec<IssueCommentRecord>, earlier: Option<EarlierSummary>) -> SummaryStep {
    let step = begin_summary();
    assert_eq!(step.action, SummaryAction::ReadHead);
    let step = go_on(
        step,
        SummaryEvent::Head {
            head_sha: "b".repeat(40),
        },
    );
    assert_eq!(
        step.action,
        SummaryAction::ListComments {
            endpoint: "repos/a/b/issues/4/comments".to_string()
        }
    );
    go_on(step, SummaryEvent::Comments { records, earlier })
}

#[test]
fn first_summaries_are_written_and_duplicates_removed() {
    let step = with_comments(vec![], None);
    assert_eq!(
        step.action,
        SummaryAction::ReadReview {
            head_sha: "b".repeat(40)
        }
    );
    let step = go_on(
        step,
        SummaryEvent::Review {
            given: vec![],
            previous: vec![],
            current: vec![],
        },
    );
    assert_eq!(
        step.action,
        SummaryAction::Compare {
            base: Base::FirstReview
        }
    );
    let step = go_on(step, SummaryEvent::Compared);
    assert_eq!(step.action, SummaryAction::WriteReview { reconcile: true });
    let step = go_on(
        step,
        SummaryEvent::Written {
            action: SummaryCommentAction::Create {
                body: "body".to_string(),
            },
            duplicates: vec![7, 8],
        },
    );
    assert_eq!(
        step.action,
        SummaryAction::Comment {
            method: "POST".to_string(),
            endpoint: "repos/a/b/issues/4/comments".to_string(),
            body: "body".to_string(),
        }
    );
    assert!(step.notices.is_empty());
    let step = go_on(step, SummaryEvent::Commented);
    assert_eq!(step.notices, texts(&["Created ReviewGate summary comment."]));
    assert_eq!(
        step.action,
        SummaryAction::Delete {
            endpoint: "repos/a/b/issues/comments/7".to_string()
        }
    );
    let step = go_on(step, SummaryEvent::Deleted);
    assert_eq!(
        step.notices,
        texts(&["Deleted duplicate ReviewGate summary comment 7."])
    );
    let step = go_on(step, SummaryEvent::Deleted);
    assert_eq!(
        step.notices,
        texts(&["Deleted duplicate ReviewGate summary comment 8."])
    );
    assert_eq!(step.action, SummaryAction::Done);
    assert_eq!(step.state, SummaryState::Finished);
}

#[test]
fn later_summaries_replay_attested_dispositions() {
    let body = "<!-- reviewgate-agent-dispositions e30 -->".to_string();
    let record = |id: u64, body: &str| IssueCommentRecord {
        id,
        author_login: Some("octocat".to_string()),
        body: body.to_string(),
    };
    let step = with_comments(
        vec![record(2, &body), record(1, "hello")],
        Some(EarlierSummary {
            heads: heads(&"a".repeat(40)),
            scope_error: None,
        }),
    );
    assert_eq!(
        step.action,
        SummaryAction::ListStatuses {
            endpoint: format!("repos/a/b/commits/{}/statuses?per_page=100", "a".repeat(40))
        }
    );
    let step = go_on(
        step,
        SummaryEvent::Statuses {
            statuses: vec![CommitStatusRecord {
                context: "reviewgate/disposition/2".to_string(),
                description: agent_disposition_digest(&body),
                creator_login: "octocat".to_string(),
                state: "success".to_string(),
            }],
        },
    );
    assert_eq!(step.action, SummaryAction::Replay { attested: vec![2] });
    let step = go_on(
        step,
        SummaryEvent::Replayed {
            outcomes: vec![CommentOutcome::Applied],
            heads: heads(&"a".repeat(40)),
        },
    );
    assert_eq!(
        step.notices,
        texts(&["ReviewGate agent dispositions (summary publish): 1 found; 1 applied; 0 duplicates; 0 unauthorized; 0 stale; 0 actor mismatch; 0 malformed; 0 invalid."])
    );
    let step = go_on(
        step,
        SummaryEvent::Review {
            given: vec![update("fixed")],
            previous: vec![followed("x", &["open"])],
            current: vec![followed("x", &["open", "fixed"])],
        },
    );
    assert_eq!(
        step.action,
        SummaryAction::Compare {
            base: Base::Earlier {
                plan: DeltaPlan::Compare {
                    previous_sha: "a".repeat(40),
                    range: format!("{}..{}", "a".repeat(40), "b".repeat(40)),
                }
            }
        }
    );
    let step = go_on(step, SummaryEvent::Compared);
    assert_eq!(step.action, SummaryAction::Derive);
    let step = go_on(
        step,
        SummaryEvent::Derived {
            derived: vec![update("fixed")],
        },
    );
    assert_eq!(step.action, SummaryAction::WriteReview { reconcile: false });
    let step = go_on(
        step,
        SummaryEvent::Written {
            action: SummaryCommentAction::Noop { id: 3 },
            duplicates: vec![],
        },
    );
    assert_eq!(
        step.notices,
        texts(&["ReviewGate summary comment 3 already up to date."])
    );
    assert_eq!(step.action, SummaryAction::Done);
}

#[test]
fn summaries_of_other_scopes_heads_or_evidence_fail() {
    let failed = |step: SummaryStep| match step.action {
        SummaryAction::Fail { error } => error,
        other => panic!("unexpected {other:?}"),
    };
    assert_eq!(
        failed(with_comments(
            vec![],
            Some(EarlierSummary {
                heads: heads("x"),
                scope_error: Some("scope".to_string()),
            }),
        )),
        "scope"
    );
    let review = |given: Vec<UpdateRecord>| SummaryEvent::Review {
        given,
        previous: vec![],
        current: vec![],
    };
    let step = with_comments(
        vec![],
        Some(EarlierSummary {
            heads: heads("not-a-sha"),
            scope_error: None,
        }),
    );
    assert_eq!(
        failed(go_on(step, review(vec![]))),
        "reviewed SHAs must be 40 or 64 hexadecimal characters"
    );
    let step = go_on(with_comments(vec![], None), review(vec![update("fixed")]));
    let step = go_on(step, SummaryEvent::Compared);
    assert_eq!(
        failed(go_on(step, SummaryEvent::Derived { derived: vec![] })),
        "serialized disposition updates do not match repository-grounded resolution evidence"
    );
}
