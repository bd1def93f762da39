use reviewgate::aggregate::{
    aggregate_angle_artifacts, AngleCost, AngleReview, ReviewAngleError, ReviewAngleResult,
    ReviewArtifact, ReviewCost, ReviewStage,
};
use reviewgate::angles::{
    adversarial_review_angle, general_review_angle, AngleReviewFailure, ReviewAngle,
    ReviewAngleSource, ReviewErrorKind,
};
use reviewgate::claims::{
    claim_asserts_trigger_present, claim_names_value_as_absent, contradicts_checked_contract,
    evidence_line_defines_value,
};
use reviewgate::context_files::{MAX_CHANGED_CONTEXT_BYTES, MAX_CHANGED_CONTEXT_FILES};
use reviewgate::context_plan::{ContextAnswer, ContextCollector, ContextRequest};
use reviewgate::diff::{DiffEvidenceSet, FindingEvidence, FindingEvidenceSide};
use reviewgate::findings::{
    compute_score, count_blockers, prefixed_angle_finding_id, stable_id_hash, status_for_score,
    EvidenceGateResult, Finding, FindingClassification, FindingDisposition, FindingGrounding,
    Severity, MAX_GENERATED_FINDING_ID_CHARS,
};
use reviewgate::grounding::{
    evidence_reference_matches, finding_grounding_rejection, ground_artifact_findings,
    resolution_replaces_prior_evidence, GroundingContext, PriorFinding, RepoFile,
};
use reviewgate::outcome::{
    append_failed_angle_reviews, append_missing_review_stages, apply_convergence_policy,
    finalize_review_artifact, operational_data_sync_review_needed, recompute_artifact_outcome,
    select_review_stages, FailedAngle,
};
use reviewgate::permissions::{workflow_declares_trigger, workflow_has_effective_write_for_step};
use reviewgate::status::ReviewStatus;

const MODEL: &str = "deepseek/deepseek-v4-flash";

fn texts(items: &[&str]) -> Vec<String> {
    items.iter().map(|item| item.to_string()).collect()
}

fn finding(id: &str, severity: Severity, blocking: bool) -> Finding {
    Finding {
        id: id.to_string(),
        angle_id: None,
        severity,
        classification: FindingClassification::Defect,
        blocking,
        requires_evidence_gate: blocking,
        uncertain: false,
        grounding: None,
        file: None,
        line: None,
        detail: None,
        semantic_fingerprint: format!("fingerprint:{id}"),
    }
}

fn angle_review(angle: ReviewAngle, verdict: &str, findings: Vec<Finding>) -> AngleReview {
    AngleReview {
        angle,
        models: texts(&[MODEL]),
        findings,
        verdict: verdict.to_string(),
        notes: vec![],
        cost: AngleCost::Estimate,
    }
}

// ---------------------------------------------------------------------------
// Angles
// ---------------------------------------------------------------------------

#[test]
fn aggregates_angle_artifacts_and_tags_findings_by_angle() {
    let aggregate = aggregate_angle_artifacts(
        MODEL,
        vec![
            angle_review(
                general_review_angle("g"),
                "General review found no issues.",
                vec![],
            ),
            angle_review(
                adversarial_review_angle("a"),
                "Adversarial review found one issue.",
                vec![finding("rg_001", Severity::P2, true)],
            ),
        ],
    )
    .expect("aggregate builds");

    assert_eq!(aggregate.score, Some(3));
    assert_eq!(aggregate.status, ReviewStatus::NeedsChanges);
    assert_eq!(aggregate.findings[0].id, "adversarial:rg_001");
    assert_eq!(
        aggregate.findings[0].angle_id.as_deref(),
        Some("adversarial")
    );
    assert_eq!(aggregate.angle_results.len(), 2);
    assert_eq!(aggregate.angle_results[0].id, "general");
    assert_eq!(aggregate.angle_results[0].score, 5);
    assert_eq!(aggregate.angle_results[1].id, "adversarial");
    assert_eq!(aggregate.angle_results[1].score, 3);
    assert_eq!(
        aggregate.angle_results[1].finding_ids,
        vec!["adversarial:rg_001".to_string()]
    );
    assert!(aggregate.cost.has_cost);
}

#[test]
fn failed_angle_reviews_are_recorded_without_discarding_successful_results() {
    let mut aggregate = aggregate_angle_artifacts(
        MODEL,
        vec![angle_review(
            general_review_angle("g"),
            "General review found no issues.",
            vec![],
        )],
    )
    .expect("aggregate builds");

    append_failed_angle_reviews(
        &mut aggregate,
        MODEL,
        vec![FailedAngle {
            angle: adversarial_review_angle("a"),
            failure: AngleReviewFailure::malformed_response(),
            message: "The model returned an invalid structured response.".to_string(),
        }],
    );

    assert_eq!(aggregate.score, None);
    assert_eq!(aggregate.status, ReviewStatus::ReviewError);
    assert_eq!(aggregate.angle_results.len(), 1);
    assert_eq!(aggregate.angle_results[0].score, 5);
    assert_eq!(aggregate.angle_errors.len(), 1);
    assert_eq!(aggregate.angle_errors[0].angle_id, "adversarial");
    assert_eq!(
        aggregate.angle_errors[0].kind,
        ReviewErrorKind::MalformedResponse
    );
    assert!(aggregate.angle_errors[0].retryable);
    assert!(aggregate.review_stages.iter().any(|stage| {
        stage.name == "adversarial"
            && stage.status == "failed"
            && stage.reason.contains("invalid structured response")
    }));
    assert!(!aggregate.verdict.contains("0/5"));
}

#[test]
fn no_failed_angles_preserve_the_completed_review_outcome() {
    let mut aggregate = aggregate_angle_artifacts(
        MODEL,
        vec![angle_review(
            general_review_angle("g"),
            "General review found no issues.",
            vec![],
        )],
    )
    .expect("aggregate builds");

    append_failed_angle_reviews(&mut aggregate, MODEL, vec![]);

    assert_eq!(aggregate.score, Some(5));
    assert_eq!(aggregate.status, ReviewStatus::Passed);
    assert!(aggregate.angle_errors.is_empty());
}

#[test]
fn aggregate_angle_artifacts_makes_prefixed_finding_ids_unique() {
    let aggregate = aggregate_angle_artifacts(
        MODEL,
        vec![angle_review(
            adversarial_review_angle("a"),
            "Adversarial review found duplicate model ids.",
            vec![
                finding("rg_001", Severity::P2, true),
                finding("adversarial:rg_001", Severity::P2, true),
            ],
        )],
    )
    .expect("aggregate builds");

    assert_eq!(aggregate.findings[0].id, "adversarial:rg_001");
    assert_eq!(aggregate.findings[1].id, "adversarial:rg_001~2");
    assert_eq!(
        aggregate.angle_results[0].finding_ids,
        vec![
            "adversarial:rg_001".to_string(),
            "adversarial:rg_001~2".to_string()
        ]
    );
}

#[test]
fn aggregate_angle_artifacts_bounds_long_generated_finding_ids() {
    let long_id = "x".repeat(MAX_GENERATED_FINDING_ID_CHARS + 100);
    let aggregate = aggregate_angle_artifacts(
        MODEL,
        vec![angle_review(
            adversarial_review_angle("a"),
            "Adversarial review found one issue.",
            vec![finding(&long_id, Severity::P2, true)],
        )],
    )
    .expect("aggregate builds");

    assert!(aggregate.findings[0].id.starts_with("adversarial:finding:"));
    assert!(aggregate.findings[0].id.chars().count() <= MAX_GENERATED_FINDING_ID_CHARS);
}

#[test]
fn aggregate_angle_artifacts_rejects_duplicate_angle_ids() {
    let general_angle = general_review_angle("g");
    let duplicate = ReviewAngle {
        id: general_angle.id.clone(),
        name: "Duplicate".to_string(),
        instructions: general_angle.instructions.clone(),
        reason: "Duplicate angle id.".to_string(),
        source: ReviewAngleSource::InlinePrompt,
    };

    let error = aggregate_angle_artifacts(
        MODEL,
        vec![
            angle_review(general_angle, "Review found no issues.", vec![]),
            angle_review(duplicate, "Review found no issues.", vec![]),
        ],
    )
    .expect_err("duplicate angle ids are rejected");

    assert!(error.contains("duplicate ReviewGate review angle id"));
}

#[test]
fn all_failed_angles_still_produce_an_inconclusive_artifact() {
    let mut artifact = aggregate_angle_artifacts(MODEL, vec![])
        .expect("empty completed angles initialize an artifact");
    append_failed_angle_reviews(
        &mut artifact,
        MODEL,
        vec![
            FailedAngle {
                angle: general_review_angle("g"),
                failure: AngleReviewFailure::empty_response(),
                message: "empty".to_string(),
            },
            FailedAngle {
                angle: adversarial_review_angle("a"),
                failure: AngleReviewFailure::Provider { retryable: true },
                message: "provider".to_string(),
            },
        ],
    );

    assert_eq!(artifact.score, None);
    assert_eq!(artifact.status, ReviewStatus::ReviewError);
    assert!(artifact.angle_results.is_empty());
    assert_eq!(artifact.angle_errors.len(), 2);
    assert_eq!(
        artifact.angle_errors[0].kind,
        ReviewErrorKind::EmptyResponse
    );
}

#[test]
fn scores_follow_the_worst_blocker() {
    assert_eq!(compute_score(&vec![]), 5);
    let findings = vec![
        finding("a", Severity::P0, false),
        finding("b", Severity::P3, true),
        finding("c", Severity::P1, true),
    ];
    assert_eq!(compute_score(&findings), 2);
    assert_eq!(count_blockers(&findings), 2);
    assert_eq!(status_for_score(5), ReviewStatus::Passed);
    assert_eq!(status_for_score(4), ReviewStatus::NeedsChanges);
    assert_eq!(Severity::P0.score_ceiling(), 1);
    assert_eq!(
        prefixed_angle_finding_id("general", "general:x"),
        "general:x"
    );
    assert_eq!(prefixed_angle_finding_id("general", "x"), "general:x");
    assert_eq!(stable_id_hash(""), "cbf29ce484222325");
    assert_eq!(stable_id_hash("a"), "af63dc4c8601ec8c");
}

// ---------------------------------------------------------------------------
// Stages
// ---------------------------------------------------------------------------

#[test]
fn selects_docs_stage_for_root_markdown_paths() {
    let stages = select_review_stages(&texts(&["CHANGELOG.md", "src/lib.rs"]), false, MODEL);

    assert!(stages.iter().any(|stage| stage.name == "docs"));
}

#[test]
fn selects_data_integrity_stage_for_deploy_orm_sync() {
    let stages = select_review_stages(
        &texts(&["apps/blog/services.py", "deployment/entrypoint.sh"]),
        true,
        MODEL,
    );

    assert!(stages.iter().any(|stage| stage.name == "data_integrity"));
}

#[test]
fn data_integrity_signal_ignores_broad_sync_substrings_without_orm_or_deploy_signal() {
    let changed_files = vec!["src/worker/sync_queue.rs".to_string()];
    let diff = "\
let async_result = SyncSender::new();
let resync_state = state.clone();
";

    assert!(!operational_data_sync_review_needed(&changed_files, diff));
}

#[test]
fn appends_dynamic_review_stages_without_duplicating_angle_stages() {
    let stage = |name: &str| ReviewStage {
        name: name.to_string(),
        model: MODEL.to_string(),
        status: "ran".to_string(),
        reason: "angle".to_string(),
    };
    let mut stages = vec![stage("general"), stage("adversarial")];

    append_missing_review_stages(
        &mut stages,
        select_review_stages(
            &texts(&["tests/review_test.rs", "src/security/token.rs"]),
            false,
            MODEL,
        ),
    );

    assert_eq!(
        stages
            .iter()
            .filter(|stage| stage.name == "general")
            .count(),
        1
    );
    assert!(stages.iter().any(|stage| stage.name == "adversarial"));
    assert!(stages.iter().any(|stage| stage.name == "testability"));
    assert!(stages.iter().any(|stage| stage.name == "security"));
}

// ---------------------------------------------------------------------------
// Outcomes
// ---------------------------------------------------------------------------

fn angle_result(id: &str, name: &str, finding_ids: &[&str]) -> ReviewAngleResult {
    ReviewAngleResult {
        id: id.to_string(),
        name: name.to_string(),
        score: 0,
        status: ReviewStatus::NeedsChanges,
        verdict: "Stale verdict.".to_string(),
        model: "balanced".to_string(),
        finding_ids: texts(finding_ids),
    }
}

fn artifact(results: Vec<ReviewAngleResult>, findings: Vec<Finding>) -> ReviewArtifact {
    ReviewArtifact {
        score: Some(0),
        status: ReviewStatus::NeedsChanges,
        verdict: "Stale verdict.".to_string(),
        models: texts(&["balanced"]),
        review_stages: vec![],
        angle_results: results,
        angle_errors: vec![],
        findings,
        tracked_angle_ids: vec![],
        notes: vec![],
        cost: ReviewCost {
            has_cost: false,
            source: None,
            mixed: false,
        },
    }
}

fn of_angle(angle: &str, finding: Finding) -> Finding {
    Finding {
        angle_id: Some(angle.to_string()),
        ..finding
    }
}

#[test]
fn outcomes_are_recomputed_from_the_findings_that_remain() {
    let mut a = artifact(
        vec![
            angle_result("general", "General", &["false-p0", "real-p2"]),
            angle_result("style", "Style", &["advisory"]),
        ],
        vec![
            of_angle("general", finding("real-p2", Severity::P2, true)),
            of_angle("style", finding("advisory", Severity::P4, false)),
            of_angle("gone", finding("orphan", Severity::P4, false)),
        ],
    );
    recompute_artifact_outcome(&mut a);

    assert_eq!(a.score, Some(3));
    assert_eq!(a.status, ReviewStatus::NeedsChanges);
    assert_eq!(
        a.findings
            .iter()
            .map(|finding| finding.id.as_str())
            .collect::<Vec<_>>(),
        vec!["real-p2", "advisory", "orphan"]
    );
    assert_eq!(a.findings[2].angle_id, None);
    assert_eq!(a.angle_results[0].score, 3);
    assert_eq!(a.angle_results[0].verdict, "1 validated blocker(s) remain.");
    assert_eq!(a.angle_results[1].score, 5);
    assert_eq!(a.angle_results[1].verdict, "No validated blockers.");
    let once = format!("{a:?}");
    recompute_artifact_outcome(&mut a);
    assert_eq!(format!("{a:?}"), once);
}

#[test]
fn failed_angles_leave_no_score_whatever_remains() {
    let mut a = artifact(vec![], vec![finding("x", Severity::P0, true)]);
    a.angle_errors.push(ReviewAngleError {
        angle_id: "security".to_string(),
        angle_name: "Security".to_string(),
        kind: ReviewErrorKind::Timeout,
        retryable: true,
        message: "The request timed out.".to_string(),
        model: "balanced".to_string(),
    });
    recompute_artifact_outcome(&mut a);
    assert_eq!(a.score, None);
    assert_eq!(a.status, ReviewStatus::ReviewError);
    assert_eq!(
        a.verdict,
        "ReviewGate could not complete every enabled review angle."
    );
}

#[test]
fn converged_findings_take_the_place_of_those_of_the_review() {
    let mut a = artifact(
        vec![angle_result("general", "General", &[])],
        vec![of_angle("general", finding("new", Severity::P0, true))],
    );
    apply_convergence_policy(
        &mut a,
        vec![of_angle("general", finding("carried", Severity::P3, true))],
        texts(&["note"]),
        vec![Some("general".to_string())],
    );
    assert_eq!(a.score, Some(4));
    assert_eq!(a.findings[0].id, "carried");
    assert_eq!(a.notes, texts(&["note"]));

    let mut b = artifact(vec![angle_result("general", "General", &[])], vec![]);
    b.models = vec![];
    finalize_review_artifact(&mut b, "m", &texts(&["README.md"]), false);
    assert_eq!(b.models, texts(&["m"]));
    assert!(b.review_stages.iter().any(|stage| stage.name == "docs"));
}

// ---------------------------------------------------------------------------
// Evidence
// ---------------------------------------------------------------------------

fn evidence(path: &str, line: u32, excerpt: &str, reason: &str) -> FindingEvidence {
    FindingEvidence {
        path: path.to_string(),
        side: FindingEvidenceSide::New,
        line,
        excerpt: excerpt.to_string(),
        reason: reason.to_string(),
    }
}

fn grounding(claim: &str, evidence: Vec<FindingEvidence>) -> FindingGrounding {
    FindingGrounding {
        semantic_key: "cli.parse.unsliced".to_string(),
        claim: claim.to_string(),
        causal_path: "The caller passes every argument on to parseFlags.".to_string(),
        test_assessment: "No test passes a positional argument.".to_string(),
        evidence,
        related_tests: vec![],
        reproduction: Some("Run the command with one positional argument.".to_string()),
        proof_text: None,
        resolution_disposition: None,
        resolution_evidence_summary: None,
    }
}

const SOURCE: &str = "func run(fs *FlagSet, args []string) error {\n\treturn parseFlags(fs, args)\n}\n";
const DIFF: &str = "diff --git a/cli/cli.go b/cli/cli.go\n--- a/cli/cli.go\n+++ b/cli/cli.go\n@@ -1,3 +1,3 @@\n func run(fs *FlagSet, args []string) error {\n-\treturn parseFlags(fs, args[1:])\n+\treturn parseFlags(fs, args)\n }\n";

fn repo_files() -> Vec<RepoFile> {
    vec![RepoFile {
        path: "cli/cli.go".to_string(),
        complete: true,
        text: SOURCE.to_string(),
    }]
}

fn grounded_finding(claim: &str, lines: Vec<FindingEvidence>) -> Finding {
    Finding {
        grounding: Some(grounding(claim, lines)),
        file: Some("cli/cli.go".to_string()),
        line: Some(2),
        detail: Some("The unsliced argument reaches parseFlags.".to_string()),
        ..finding("general:parse", Severity::P2, true)
    }
}

fn good_evidence() -> Vec<FindingEvidence> {
    vec![evidence(
        "cli/cli.go",
        2,
        "return parseFlags(fs, args)",
        "This line passes every argument on.",
    )]
}

#[test]
fn rejects_evidence_that_is_not_an_exact_confined_repository_line() {
    let diff = DiffEvidenceSet::from_unified_diff(DIFF);
    let claim = "parseFlags gets the unsliced arguments.";
    assert_eq!(
        finding_grounding_rejection(&repo_files(), &diff, &grounded_finding(claim, good_evidence())),
        None
    );

    for (label, mutate) in [
        (
            "missing path",
            ("missing.go", 2, "return parseFlags(fs, args)", "reason"),
        ),
        (
            "parent traversal",
            ("../cli/cli.go", 2, "return parseFlags(fs, args)", "reason"),
        ),
        (
            "wrong line",
            ("cli/cli.go", 1, "return parseFlags(fs, args)", "reason"),
        ),
        ("partial excerpt", ("cli/cli.go", 2, "parseFlags", "reason")),
        (
            "empty reason",
            ("cli/cli.go", 2, "return parseFlags(fs, args)", ""),
        ),
    ] {
        let candidate = grounded_finding(
            claim,
            vec![evidence(mutate.0, mutate.1, mutate.2, mutate.3)],
        );

        assert_eq!(
            finding_grounding_rejection(&repo_files(), &diff, &candidate),
            Some("repository evidence does not match the checked-out head"),
            "{label}",
        );
    }

    assert!(!evidence_reference_matches(
        &repo_files(),
        &DiffEvidenceSet::from_unified_diff(""),
        &evidence("linked.go", 1, "secret", "Must not escape repository.")
    ));
}

#[test]
fn unrelated_prose_cannot_suppress_a_repository_grounded_defect() {
    let diff = DiffEvidenceSet::from_unified_diff(DIFF);
    let mut candidate = grounded_finding(
        "parseFlags gets the unsliced arguments. An unrelated comment mentions upload-artifact actions:write.",
        good_evidence(),
    );
    candidate.detail = Some(
        "The literal text “this is fine” and “upload-artifact actions:write” is unrelated; the unsliced positional argument still reaches parseFlags."
            .to_string(),
    );

    assert_eq!(
        finding_grounding_rejection(&repo_files(), &diff, &candidate),
        None
    );
}

#[test]
fn claimed_value_requires_an_exact_assignment_key() {
    assert!(evidence_line_defines_value(
        "INDEXNOW_KEY: ${{ secrets.INDEXNOW_KEY }}",
        "indexnow_key"
    ));
    assert!(!evidence_line_defines_value(
        "INDEXNOW_KEY_BACKUP: fallback",
        "indexnow_key"
    ));
    assert!(!evidence_line_defines_value(
        "# missing INDEXNOW_KEY",
        "indexnow_key"
    ));
    assert!(evidence_line_defines_value(
        "contents: write",
        "contents:write"
    ));
}

#[test]
fn claims_are_held_against_what_the_repository_says() {
    assert!(claim_names_value_as_absent(
        "The step is missing INDEXNOW_KEY.",
        "indexnow_key"
    ));
    assert!(!claim_names_value_as_absent(
        "The step is missing validation for INDEXNOW_KEY.",
        "indexnow_key"
    ));
    assert!(claim_asserts_trigger_present(
        "the job runs on push",
        "push"
    ));
    assert!(!claim_asserts_trigger_present("the job runs", "push"));
    assert!(!contradicts_checked_contract(
        &finding("x", Severity::P1, true),
        "on: push\n"
    ));
}

fn context(files: Vec<RepoFile>, diff: &str, changed: &[&str]) -> GroundingContext {
    GroundingContext {
        files,
        diff_evidence: DiffEvidenceSet::from_unified_diff(diff),
        changed_files: texts(changed),
        prior: vec![],
    }
}

#[test]
fn grounding_suppresses_a_finding_with_a_blank_semantic_key() {
    let mut candidate = grounded_finding("claim", good_evidence());
    candidate
        .grounding
        .as_mut()
        .expect("grounding exists")
        .semantic_key = " ".to_string();

    let grounded = ground_artifact_findings(
        &context(repo_files(), DIFF, &["cli/cli.go"]),
        vec![candidate],
    );

    assert!(grounded.findings.is_empty());
    assert!(grounded
        .notes
        .iter()
        .any(|note| note.contains("missing stable semantic_key")));
}

#[test]
fn grounding_keeps_real_defects_and_says_what_it_drops() {
    let real = grounded_finding("parseFlags gets the unsliced arguments.", good_evidence());
    let mut invented = grounded_finding(
        "The parser reads a file that is not there.",
        vec![evidence("cli/cli.go", 9, "no such line", "reason")],
    );
    invented.id = "general:invented".to_string();
    let grounded = ground_artifact_findings(
        &context(repo_files(), DIFF, &["cli/cli.go"]),
        vec![real, invented],
    );
    assert_eq!(grounded.findings.len(), 1);
    assert_eq!(grounded.findings[0].id, "general:parse");
    assert_eq!(grounded.gates, vec![EvidenceGateResult::Passed]);
    assert!(grounded
        .notes
        .iter()
        .any(|note| note.contains("Suppressed ungrounded finding")));
    assert_eq!(grounded.findings.len() + grounded.notes.len(), 2);
}

#[test]
fn fixed_resolution_must_check_the_exact_replacement_for_prior_evidence() {
    let prior = || {
        evidence(
            "src/parser.rs",
            1,
            "allow_positional = true",
            "This prior line enabled the defect.",
        )
    };
    let replacement = || {
        evidence(
            "src/parser.rs",
            1,
            "allow_positional = false",
            "This replacement disables the defect.",
        )
    };
    let diff = DiffEvidenceSet::from_unified_diff(
        "diff --git a/src/parser.rs b/src/parser.rs\n--- a/src/parser.rs\n+++ b/src/parser.rs\n@@ -1 +1 @@\n-allow_positional = true\n+allow_positional = false\n",
    );

    assert!(resolution_replaces_prior_evidence(
        &vec![prior()],
        &vec![replacement()],
        &diff,
    ));

    let pure_deletion_diff = DiffEvidenceSet::from_unified_diff(
        "diff --git a/src/parser.rs b/src/parser.rs\n--- a/src/parser.rs\n+++ b/src/parser.rs\n@@ -1 +0,0 @@\n-allow_positional = true\n@@ -8,0 +8 @@\n+deletion_is_covered = true\n",
    );
    let deletion_test = evidence(
        "src/parser.rs",
        8,
        "deletion_is_covered = true",
        "This changed line validates the pure-deletion repair.",
    );
    assert!(!resolution_replaces_prior_evidence(
        &vec![prior()],
        &vec![deletion_test],
        &pure_deletion_diff,
    ));

    let mut unchanged_prior_evidence = prior();
    unchanged_prior_evidence.line = 2;
    unchanged_prior_evidence.excerpt = "another_defect = true".to_string();
    assert!(!resolution_replaces_prior_evidence(
        &vec![prior(), unchanged_prior_evidence],
        &vec![replacement()],
        &diff,
    ));

    let shifted_diff = DiffEvidenceSet::from_unified_diff(
        "diff --git a/src/parser.rs b/src/parser.rs\n--- a/src/parser.rs\n+++ b/src/parser.rs\n@@ -1 +1,2 @@\n-allow_positional = true\n+header = \"parser\"\n+allow_positional = false\n",
    );
    let mut shifted_replacement = replacement();
    shifted_replacement.line = 2;
    let shifted_header = evidence(
        "src/parser.rs",
        1,
        "header = \"parser\"",
        "This line is part of the same replacement block.",
    );
    assert!(resolution_replaces_prior_evidence(
        &vec![prior()],
        &vec![shifted_header, shifted_replacement],
        &shifted_diff,
    ));

    let restoration_diff = DiffEvidenceSet::from_unified_diff(
        "diff --git a/src/parser.rs b/src/parser.rs\n--- a/src/parser.rs\n+++ b/src/parser.rs\n@@ -1 +1,3 @@\n+header = \"parser\"\n+allow_positional = true\n existing = true\n",
    );
    let prior_deletion = || FindingEvidence {
        side: FindingEvidenceSide::Old,
        ..prior()
    };
    let mut shifted_restoration = prior();
    shifted_restoration.line = 2;
    assert!(!resolution_replaces_prior_evidence(
        &vec![prior_deletion()],
        &vec![shifted_restoration],
        &restoration_diff,
    ));

    let duplicate_elsewhere_diff = DiffEvidenceSet::from_unified_diff(
        "diff --git a/src/parser.rs b/src/parser.rs\n--- a/src/parser.rs\n+++ b/src/parser.rs\n@@ -1,2 +1,3 @@\n existing = true\n another = true\n+allow_positional = true\n",
    );
    let mut duplicate_elsewhere = prior();
    duplicate_elsewhere.line = 3;
    assert!(!resolution_replaces_prior_evidence(
        &vec![prior_deletion()],
        &vec![duplicate_elsewhere],
        &duplicate_elsewhere_diff,
    ));

    let mut unrelated = replacement();
    unrelated.line = 2;
    assert!(!resolution_replaces_prior_evidence(
        &vec![prior()],
        &vec![unrelated],
        &diff,
    ));

    let mut mismatched_prior = prior();
    mismatched_prior.excerpt = "an unrelated prior line".to_string();
    assert!(!resolution_replaces_prior_evidence(
        &vec![mismatched_prior],
        &vec![replacement()],
        &diff,
    ));
}

fn prior_finding() -> PriorFinding {
    PriorFinding {
        semantic_fingerprint: "fingerprint:retry".to_string(),
        disposition: FindingDisposition::StillOpen,
        severity: Severity::P2,
        file: Some("app/retry.py".to_string()),
        grounding: Some(grounding(
            "Retries are not covered.",
            vec![evidence(
                "app/retry.py",
                1,
                "retry_is_covered = false",
                "Not covered.",
            )],
        )),
    }
}

fn resolution(line: u32, excerpt: &str) -> Finding {
    let mut g = grounding(
        "Retries are covered now.",
        vec![evidence("app/retry.py", line, excerpt, "Covered now.")],
    );
    g.resolution_disposition = Some(FindingDisposition::Fixed);
    g.resolution_evidence_summary = Some("The retry is covered.".to_string());
    Finding {
        grounding: Some(g),
        file: Some("app/retry.py".to_string()),
        line: Some(line),
        semantic_fingerprint: "fingerprint:retry".to_string(),
        ..finding("general:retry", Severity::P2, true)
    }
}

#[test]
fn current_head_evidence_records_a_prior_finding_as_fixed() {
    let grounded = ground_artifact_findings(
        &GroundingContext {
            files: vec![RepoFile {
                path: "app/retry.py".to_string(),
                complete: true,
                text: "retry_is_covered = true\n".to_string(),
            }],
            diff_evidence: DiffEvidenceSet::from_unified_diff(
                "diff --git a/app/retry.py b/app/retry.py\n--- a/app/retry.py\n+++ b/app/retry.py\n@@ -1 +1 @@\n-retry_is_covered = false\n+retry_is_covered = true\n",
            ),
            changed_files: texts(&["app/retry.py"]),
            prior: vec![prior_finding()],
        },
        vec![resolution(1, "retry_is_covered = true")],
    );
    assert!(grounded.findings.is_empty());
    assert_eq!(grounded.resolutions.len(), 1);
    assert_eq!(
        grounded.resolutions[0].evidence_summary,
        "The retry is covered."
    );
}

#[test]
fn invalid_fixed_resolution_keeps_the_prior_finding_open() {
    let grounded = ground_artifact_findings(
        &GroundingContext {
            files: vec![RepoFile {
                path: "app/retry.py".to_string(),
                complete: true,
                text: "retry_is_covered = false\nlogging_enabled = true\n".to_string(),
            }],
            diff_evidence: DiffEvidenceSet::from_unified_diff(
                "diff --git a/app/retry.py b/app/retry.py\n--- a/app/retry.py\n+++ b/app/retry.py\n@@ -1 +1,2 @@\n retry_is_covered = false\n+logging_enabled = true\n",
            ),
            changed_files: texts(&["app/retry.py"]),
            prior: vec![prior_finding()],
        },
        vec![resolution(2, "logging_enabled = true")],
    );
    assert!(grounded.resolutions.is_empty());
    assert_eq!(grounded.notes.len(), 1);
}

// ---------------------------------------------------------------------------
// Workflows
// ---------------------------------------------------------------------------

#[test]
fn workflow_permission_checks_respect_inheritance_and_job_overrides() {
    for (name, source, expected) in [
        (
            "workflow map inherited",
            "permissions:\n  packages: write\njobs:\n  publish:\n    steps:\n      - run: docker buildx imagetools create example\n",
            true,
        ),
        (
            "workflow write-all inherited",
            "permissions: write-all\njobs:\n  publish:\n    steps:\n      - run: docker buildx imagetools create example\n",
            true,
        ),
        (
            "job inline permission",
            "permissions: read-all\njobs:\n  publish:\n    permissions: { packages: write }\n    steps:\n      - run: docker buildx imagetools create example\n",
            true,
        ),
        (
            "job override removes inherited package permission",
            "permissions:\n  packages: write\njobs:\n  publish:\n    permissions:\n      contents: read\n    steps:\n      - run: docker buildx imagetools create example\n",
            false,
        ),
        (
            "different job has permission",
            "jobs:\n  prepare:\n    permissions:\n      packages: write\n    steps:\n      - run: echo prepare\n  publish:\n    steps:\n      - run: docker buildx imagetools create example\n",
            false,
        ),
        (
            "all matching jobs must be authorized",
            "jobs:\n  signed:\n    permissions:\n      packages: write\n    steps:\n      - run: docker buildx imagetools create signed\n  unsigned:\n    permissions:\n      contents: read\n    steps:\n      - run: docker buildx imagetools create unsigned\n",
            false,
        ),
        (
            "permission mentioned only in comment",
            "jobs:\n  publish:\n    permissions: read-all # packages: write is not granted\n    steps:\n      - run: docker buildx imagetools create example\n",
            false,
        ),
    ] {
        assert_eq!(
            workflow_has_effective_write_for_step(source, "packages", "imagetools create"),
            expected,
            "{name}"
        );
    }
}

#[test]
fn workflow_trigger_checks_cover_scalar_list_and_mapping_forms() {
    for (name, source, trigger, expected) in [
        ("scalar", "on: push\n", "push", true),
        (
            "list",
            "on: [push, workflow_dispatch]\n",
            "workflow_dispatch",
            true,
        ),
        (
            "mapping",
            "on:\n  pull_request:\n    branches: [main]\n",
            "pull_request",
            true,
        ),
        (
            "absent",
            "on:\n  push:\n    branches: [main]\n",
            "workflow_dispatch",
            false,
        ),
        (
            "nested trigger-like job key",
            "on: push\njobs:\n  workflow_dispatch:\n    steps:\n      - run: echo nested\n",
            "workflow_dispatch",
            false,
        ),
    ] {
        assert_eq!(
            workflow_declares_trigger(source, trigger),
            expected,
            "{name}"
        );
    }
}

// ---------------------------------------------------------------------------
// Context
// ---------------------------------------------------------------------------

fn collect_context_files(
    repository: &[(&str, String)],
    changed: &[String],
) -> Result<Vec<(String, String)>, String> {
    let mut collector = ContextCollector::start(changed.to_vec(), "GUIDE.md")?;
    loop {
        let nothing = || ContextAnswer {
            contents: None,
            names: vec![],
        };
        let answer = match collector.request() {
            ContextRequest::Done => break,
            ContextRequest::Nothing => nothing(),
            ContextRequest::Read { path, limit } => ContextAnswer {
                contents: repository
                    .iter()
                    .find(|(name, _)| *name == path)
                    .map(|(_, text)| text.chars().take(limit + 1).collect()),
                names: vec![],
            },
            ContextRequest::List { directory } => ContextAnswer {
                contents: None,
                names: repository
                    .iter()
                    .filter_map(|(name, _)| name.strip_prefix(&format!("{directory}/")))
                    .filter(|name| !name.contains('/'))
                    .map(|name| name.to_string())
                    .collect(),
            },
        };
        collector = collector.record(answer)?;
    }
    Ok(collector
        .finish()
        .into_iter()
        .map(|file| (file.path, file.contents))
        .collect())
}

#[test]
fn evidence_context_includes_changed_files_related_tests_and_local_workflows() {
    let repository = [
        (
            "src/cli.go",
            "package cli\nfunc parse(args []string) error { return nil }\n".to_string(),
        ),
        (
            "src/cli_test.go",
            "package cli\nfunc TestParse(t *testing.T) {}\n".to_string(),
        ),
        (
            "src/other.go",
            "package cli\nfunc other() {}\n".to_string(),
        ),
        (
            ".github/workflows/caller.yml",
            "jobs:\n  publish:\n    uses: ./.github/workflows/publish.yml\n".to_string(),
        ),
        (
            ".github/workflows/publish.yml",
            "on: workflow_call\njobs:\n  image:\n    permissions:\n      packages: write\n"
                .to_string(),
        ),
    ];
    let files = collect_context_files(
        &repository,
        &[
            "src/cli.go".to_string(),
            "src/other.go".to_string(),
            ".github/workflows/caller.yml".to_string(),
        ],
    )
    .expect("collect evidence context");
    let has = |path: &str| files.iter().any(|(name, _)| name == path);

    assert!(has("src/cli.go"));
    assert!(has("src/other.go"));
    assert!(has("src/cli_test.go"));
    assert_eq!(
        files
            .iter()
            .filter(|(name, _)| name == "src/cli_test.go")
            .count(),
        1
    );
    assert!(has(".github/workflows/caller.yml"));
    assert!(has(".github/workflows/publish.yml"));
}

#[test]
fn context_cap_includes_every_changed_file_and_reports_supplementary_omissions() {
    let changed_files = (0..50)
        .map(|index| format!("src/changed-{index:02}.rs"))
        .collect::<Vec<_>>();
    let mut repository = changed_files
        .iter()
        .map(|path| (path.as_str(), "pub fn changed() {}\n".to_string()))
        .collect::<Vec<_>>();
    repository.push(("README.md", "default context\n".to_string()));

    let files = collect_context_files(&repository, &changed_files).expect("bounded context");
    let has = |path: &str| files.iter().any(|(name, _)| name == path);
    let omissions = files
        .iter()
        .find(|(name, _)| name == "[ReviewGate context omissions]")
        .expect("omission manifest");

    assert_eq!(
        files
            .iter()
            .filter(|(name, _)| name.starts_with("src/changed-"))
            .count(),
        changed_files.len()
    );
    assert!(has("src/changed-48.rs"));
    assert!(has("src/changed-49.rs"));
    assert!(!has("README.md"));
    assert!(omissions.1.contains("README.md"));
}

#[test]
fn context_collection_rejects_more_changed_files_than_the_bounded_limit() {
    let changed_files = (0..=MAX_CHANGED_CONTEXT_FILES)
        .map(|index| format!("src/changed-{index:03}.rs"))
        .collect::<Vec<_>>();

    let error = collect_context_files(&[], &changed_files)
        .expect_err("oversized changed-file set must fail closed");

    assert!(error.contains("changed-file repository-context limit"));
}

#[test]
fn context_collection_rejects_incomplete_changed_file_contents() {
    let relative = "src/oversized.rs";
    let repository = [(relative, "x".repeat(MAX_CHANGED_CONTEXT_BYTES + 1))];

    let error = collect_context_files(&repository, &[relative.to_string()])
        .expect_err("truncated changed-file context must fail closed");

    assert!(error.contains("complete current-head contents exceed"));
}
