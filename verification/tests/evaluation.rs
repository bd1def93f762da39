use reviewgate::benchmark::{
    benchmark_passed, build_report, runs_are_stable, BenchmarkConfiguration,
    BenchmarkConfigurationRole, BenchmarkObservedFinding, BenchmarkRunScore, ConfigurationRuns,
    EvaluatedCase, EvaluatedRun,
};
use reviewgate::evaluation::{
    artifact_from_findings, case_expectation, case_file_path, case_identifier, cases_to_run,
    configured_findings, confined_input_path, count_added_lines, eval_fixtures, evidence_layout,
    format_optional, infer_language, is_fixture, merge_json_objects, observed_findings,
    parse_evidence_cases, path_within, render_markdown_report, require_live_api_key,
    unreadable_input, validate_live_request_count, BenchmarkCaseExpectation, EvalReplayOptions,
    EvidenceLayout, FixtureMetrics, MarkdownReport, ReportRow, ReportThreshold, TempCaseRoot,
};
use reviewgate::findings::{Finding, FindingClassification, FindingGrounding, Severity};
use reviewgate::json::parse_json;
use reviewgate::live::{LiveAnswer, LiveEvaluation, LiveStep, ObservedRun, PreparedCase};
use reviewgate::status::ReviewStatus;

fn texts(items: &[&str]) -> Vec<String> {
    items.iter().map(|item| item.to_string()).collect()
}

#[test]
fn live_mode_requires_an_explicit_non_blank_api_key() {
    let name = "OPENROUTER_API_KEY";
    assert!(require_live_api_key(None, name)
        .expect_err("missing key")
        .contains("OPENROUTER_API_KEY"));
    assert!(require_live_api_key(Some("  ".to_string()), name).is_err());
    assert_eq!(
        require_live_api_key(Some("test-key".to_string()), name).expect("key accepted"),
        "test-key"
    );
}

#[test]
fn live_mode_bounds_model_request_count_before_dispatch() {
    assert!(validate_live_request_count(44, 2).is_ok());
    assert!(validate_live_request_count(51, 2)
        .expect_err("request count must be bounded")
        .contains("maximum is 100"));
    assert_eq!(
        validate_live_request_count(51, 2),
        Err("live benchmark requires 102 model requests; maximum is 100. Use --max-cases or lower repetitions".to_string())
    );
    assert_eq!(
        validate_live_request_count(usize::MAX, 2),
        Err("live benchmark request count overflowed".to_string())
    );
    assert!(validate_live_request_count(50, 2).is_ok());
}

#[test]
fn limits_on_cases_hold_over_all_sources() {
    assert_eq!(cases_to_run(None, 3, 10), (10, false));
    assert_eq!(cases_to_run(Some(5), 3, 10), (2, true));
    assert_eq!(cases_to_run(Some(5), 0, 4), (4, false));
    assert_eq!(cases_to_run(Some(5), 5, 4), (0, true));
    let options = EvalReplayOptions {
        repo: ".".to_string(),
        manifest: "fixtures/evaluation/manifest-v1.json".to_string(),
        json_out: None,
        markdown_out: None,
        live: false,
        model: None,
        openrouter_base_url: None,
        max_cases: Some(2),
    };
    assert_eq!(cases_to_run(options.max_cases, 0, 9), (2, true));
}

#[test]
fn inputs_stay_inside_the_repository() {
    assert_eq!(
        confined_input_path("/repo", "/repo/./fixtures//a.json", "benchmark manifest"),
        Ok("fixtures//a.json".to_string())
    );
    assert_eq!(
        confined_input_path("/repo", "fixtures\\a.json", "benchmark manifest"),
        Ok("fixtures/a.json".to_string())
    );
    assert_eq!(
        confined_input_path("/repo", "/other/a.json", "benchmark manifest"),
        Err("benchmark manifest /other/a.json must stay inside /repo".to_string())
    );
    assert_eq!(path_within("/repo/", "/repo/x/."), Some("x".to_string()));
    assert_eq!(path_within("/repo", "/repository"), None);
    assert_eq!(path_within("/repo", "/repo"), Some(String::new()));
    assert_eq!(
        unreadable_input("a.json", "benchmark source"),
        "benchmark source `a.json` must be a regular non-symlink repository file"
    );
    assert!(case_file_path("src/a.rs").is_ok());
    assert_eq!(
        case_file_path("../a.rs"),
        Err("benchmark case file `../a.rs` must be a safe repo-relative path".to_string())
    );
}

#[test]
fn sources_are_lists_or_objects_with_cases() {
    assert_eq!(
        parse_evidence_cases("[]"),
        Ok(EvidenceLayout {
            shared_provenance: false,
            listed: false
        })
    );
    assert_eq!(
        parse_evidence_cases(r#"{"provenance":{"head_sha":"x"},"cases":[]}"#),
        Ok(EvidenceLayout {
            shared_provenance: true,
            listed: true
        })
    );
    let source = parse_json(r#"{"provenance":"not-an-object","cases":[]}"#).expect("source");
    assert_eq!(
        evidence_layout(&source),
        Err("shared benchmark provenance must be an object".to_string())
    );
    assert_eq!(
        parse_evidence_cases("{"),
        Err("failed to parse evidence benchmark source".to_string())
    );
    let merged = merge_json_objects(
        vec![("a".to_string(), 1), ("b".to_string(), 2)],
        Some(vec![("b".to_string(), 3)]),
    );
    let last = |key: &str| merged.iter().rev().find(|(k, _)| k == key).map(|(_, v)| *v);
    assert_eq!(last("a"), Some(1));
    assert_eq!(last("b"), Some(3));
}

#[test]
fn cases_get_names_languages_and_directories() {
    assert_eq!(case_identifier(None, "grounding", 0), "grounding-001");
    assert_eq!(case_identifier(None, "grounding", 41), "grounding-042");
    assert_eq!(case_identifier(None, "grounding", 999), "grounding-1000");
    assert_eq!(case_identifier(Some("own"), "grounding", 0), "own");
    assert_eq!(
        infer_language(&texts(&["a.rs", "b.go", "c.rs", "d.txt"])),
        "go+rust"
    );
    assert_eq!(infer_language(&texts(&["d.txt"])), "other");
    assert_eq!(
        infer_language(&texts(&["a.tsx", "b.mjs", "c.yaml", "d.sh", "e.py"])),
        "javascript+python+shell+typescript+yaml"
    );
    let root = TempCaseRoot::new("/tmp", 7, 3, "case #1/é");
    assert_eq!(root.path(), "/tmp/reviewgate-benchmark-7-3-case--1--");
    assert_eq!(count_added_lines("+++ b/x\n+a\n-b\n+c\n"), 2);
    assert_eq!(
        configured_findings(&texts(&["baseline", "candidate"]), "candidate"),
        Some(1)
    );
    assert_eq!(configured_findings(&texts(&["baseline"]), "other"), None);
    assert!(is_fixture("fixtures/a.json"));
    assert!(!is_fixture("fixtures/.json"));
    assert!(!is_fixture("fixtures/a.txt"));
}

fn finding(id: &str, key: Option<&str>, blocking: bool) -> Finding {
    Finding {
        id: id.to_string(),
        angle_id: None,
        severity: Severity::P1,
        classification: FindingClassification::Defect,
        blocking,
        requires_evidence_gate: true,
        uncertain: false,
        grounding: key.map(|key| FindingGrounding {
            semantic_key: key.to_string(),
            claim: "claim".to_string(),
            causal_path: String::new(),
            test_assessment: String::new(),
            evidence: vec![],
            related_tests: vec![],
            reproduction: None,
            proof_text: None,
            resolution_disposition: None,
            resolution_evidence_summary: None,
        }),
        file: None,
        line: None,
        detail: None,
        semantic_fingerprint: format!("print:{id}"),
    }
}

#[test]
fn captured_answers_are_reviews_of_the_general_angle() {
    let artifact = artifact_from_findings(vec![finding("a", Some("key"), true)]);
    assert_eq!(artifact.score, Some(2));
    assert_eq!(artifact.status, ReviewStatus::NeedsChanges);
    assert_eq!(artifact.findings[0].angle_id.as_deref(), Some("general"));
    assert_eq!(artifact.angle_results[0].finding_ids, texts(&["a"]));
    assert_eq!(artifact.verdict, "Captured benchmark response.");
    let observed = observed_findings(&vec![
        finding("a", Some("key"), true),
        finding("b", None, false),
    ]);
    assert_eq!(observed[0].semantic_key, "key");
    assert!(observed[0].blocking);
    assert_eq!(observed[1].semantic_key, "print:b");
    match case_expectation("case", &finding("a", Some("key"), true), true) {
        Ok(BenchmarkCaseExpectation::Finding(claim)) => assert_eq!(claim.semantic_key, "key"),
        other => panic!("unexpected {other:?}"),
    }
    assert!(matches!(
        case_expectation("case", &finding("a", Some("key"), true), false),
        Ok(BenchmarkCaseExpectation::NonFinding(_))
    ));
    assert_eq!(
        case_expectation("case", &finding("a", None, true), true),
        Err("benchmark case `case` finding must have grounding".to_string())
    );
}

fn score(observed: usize, right: usize, wrong: usize) -> BenchmarkRunScore {
    BenchmarkRunScore {
        observed_blockers: observed,
        true_blockers: right,
        false_blockers: wrong,
        missed_serious_defects: vec![],
        contradicted_non_findings: vec![],
        unexpected_blockers: vec![],
        duplicate_findings: vec![],
    }
}

fn run(case_id: &str, keys: &[&str], score: BenchmarkRunScore) -> EvaluatedRun {
    EvaluatedRun {
        case_id: case_id.to_string(),
        review_complete: true,
        findings: keys
            .iter()
            .map(|key| BenchmarkObservedFinding {
                semantic_key: key.to_string(),
                blocking: true,
            })
            .collect(),
        score,
        cost_estimated: true,
        cost_spent: false,
        latency_ms: Some(10),
        agent_time_ms: None,
    }
}

fn case(id: &str, language: &str, baseline: Vec<EvaluatedRun>, candidate: Vec<EvaluatedRun>) -> EvaluatedCase {
    EvaluatedCase {
        id: id.to_string(),
        name: format!("case {id}"),
        language: language.to_string(),
        risk_class: "p1".to_string(),
        expected_blocking: true,
        runs: vec![
            ConfigurationRuns {
                configuration_id: "baseline".to_string(),
                runs: baseline,
            },
            ConfigurationRuns {
                configuration_id: "candidate".to_string(),
                runs: candidate,
            },
        ],
    }
}

fn configurations() -> Vec<BenchmarkConfiguration> {
    vec![
        BenchmarkConfiguration {
            id: "baseline".to_string(),
            role: BenchmarkConfigurationRole::Baseline,
        },
        BenchmarkConfiguration {
            id: "candidate".to_string(),
            role: BenchmarkConfigurationRole::Candidate,
        },
    ]
}

#[test]
fn runs_are_stable_whatever_the_order_of_their_findings() {
    let runs = |second: &[&str]| {
        vec![
            run("a", &["x", "y", "x"], score(1, 1, 0)),
            run("a", second, score(1, 1, 0)),
        ]
    };
    assert!(runs_are_stable(&runs(&["x", "x", "y"])));
    assert!(!runs_are_stable(&runs(&["x", "y", "y"])));
    assert!(!runs_are_stable(&runs(&["x", "y"])));
    assert!(!runs_are_stable(&vec![]));
}

#[test]
fn reports_count_what_the_runs_came_to() {
    let cases = vec![
        case(
            "b",
            "rust",
            vec![run("b", &["x"], score(2, 1, 1)), run("b", &["y"], score(1, 1, 1))],
            vec![run("b", &["x"], score(1, 1, 0)), run("b", &["x"], score(1, 1, 0))],
        ),
        case(
            "a",
            "go",
            vec![run("a", &[], score(0, 0, 0))],
            vec![
                EvaluatedRun {
                    review_complete: false,
                    latency_ms: None,
                    agent_time_ms: Some(u64::MAX),
                    ..run("a", &["x"], score(1, 1, 0))
                },
                EvaluatedRun {
                    agent_time_ms: Some(5),
                    ..run("a", &["x"], score(1, 1, 0))
                },
            ],
        ),
    ];
    let report = build_report(&configurations(), 2, &cases).expect("report builds");

    assert_eq!(report.baseline, 0);
    assert_eq!(report.candidate, 1);
    assert!(report.corpus_complete);
    assert_eq!(report.languages, texts(&["go", "rust"]));
    assert_eq!(report.risk_classes, texts(&["p1"]));
    let baseline = &report.configurations[0];
    assert_eq!(baseline.completed, 2);
    assert_eq!(baseline.stable, 1);
    assert_eq!(baseline.converged, 0);
    assert_eq!(baseline.totals.latency_total, 30);
    assert_eq!(baseline.totals.latency_coverage, 3);
    assert_eq!(baseline.totals.estimated_cost_coverage, 3);
    assert_eq!(baseline.totals.spent_cost_coverage, 0);
    assert_eq!(baseline.totals.agent_time_coverage, 0);
    let candidate = &report.configurations[1];
    assert_eq!(candidate.completed, 1);
    assert_eq!(candidate.stable, 2);
    assert_eq!(candidate.converged, 2);
    assert_eq!(candidate.totals.agent_time_total, u64::MAX);
    assert_eq!(candidate.totals.agent_time_coverage, 2);
    assert_eq!(
        candidate
            .cases
            .iter()
            .map(|case| (case.case_id.as_str(), case.position))
            .collect::<Vec<_>>(),
        vec![("a", 1), ("b", 0)]
    );
    assert!(!candidate.cases[0].review_complete);
    assert!(benchmark_passed(&report, &vec![true, true]));
    assert!(!benchmark_passed(&report, &vec![true, false]));
    let small = build_report(&configurations(), 3, &cases).expect("report builds");
    assert!(!benchmark_passed(&small, &vec![true]));
}

#[test]
fn reports_need_cases_runs_and_both_configurations() {
    let full = || {
        vec![case(
            "a",
            "go",
            vec![run("a", &[], score(0, 0, 0))],
            vec![run("a", &[], score(0, 0, 0))],
        )]
    };
    assert_eq!(
        build_report(&configurations(), 0, &vec![]).expect_err("no cases"),
        "benchmark corpus contains no cases"
    );
    let mut missing = full();
    missing[0].runs.pop();
    assert_eq!(
        build_report(&configurations(), 0, &missing).expect_err("no runs"),
        "benchmark case `a` has no runs for configuration `candidate`"
    );
    assert_eq!(
        build_report(
            &configurations(),
            0,
            &vec![case("a", "go", vec![], vec![])]
        )
        .expect_err("no repetitions"),
        "benchmark case `a` has no repetitions for configuration `baseline`"
    );
    let mut only = configurations();
    let candidate = only.pop().expect("candidate");
    assert_eq!(
        build_report(&only, 0, &full()).expect_err("no candidate"),
        "benchmark report has no candidate configuration"
    );
    assert_eq!(
        build_report(&vec![candidate], 0, &full()).expect_err("no baseline"),
        "benchmark report has no baseline configuration"
    );
}

#[test]
fn reports_are_written_as_tables() {
    let report = MarkdownReport {
        passed: true,
        mode: "deterministic".to_string(),
        case_count: 41,
        repetitions: 2,
        blinded: true,
        rows: vec![ReportRow {
            id: "baseline".to_string(),
            blocking_precision: Some("50.00%".to_string()),
            serious_defect_recall: None,
            false_blockers_per_case: "0.1000".to_string(),
            contradiction_rate: None,
            rereview_stability: Some("100.00%".to_string()),
            spent_cost_usd: None,
            estimated_cost_usd: Some("0.0300".to_string()),
            mean_latency_ms: None,
        }],
        thresholds: vec![ReportThreshold {
            name: "blocking_precision".to_string(),
            passed: false,
            actual: None,
            required: ">= 0.9".to_string(),
        }],
    };
    assert_eq!(
        render_markdown_report(&report),
        "# ReviewGate replacement benchmark\n\n- Result: **PASS**\n- Mode: `deterministic`\n- Corpus: 41 cases, 2 repetitions, blinded: true\n\n| Configuration | Precision | Serious recall | False blockers/case | Contradictions | Stability | Cost (USD) | Mean latency (ms) |\n| --- | ---: | ---: | ---: | ---: | ---: | ---: | ---: |\n| baseline | 50.00% | n/a | 0.1000 | n/a | 100.00% | 0.0300 | n/a |\n\n## Rollout gate\n\n- [ ] `blocking_precision`: actual n/a, required >= 0.9\n"
    );
    assert_eq!(format_optional(&None), "n/a");
}

#[test]
fn fixtures_are_summed_up() {
    let totals = eval_fixtures(&vec![
        FixtureMetrics {
            score: Some(5),
            finding_count: 2,
            blocking_finding_count: 0,
        },
        FixtureMetrics {
            score: None,
            finding_count: 3,
            blocking_finding_count: 1,
        },
    ]);
    assert_eq!(totals.score_sum, 5);
    assert_eq!(totals.scored_fixture_count, 1);
    assert_eq!(totals.finding_count, 5);
    assert_eq!(totals.blocking_finding_count, 1);
}

fn prepared(id: &str) -> PreparedCase {
    PreparedCase {
        id: id.to_string(),
        name: format!("case {id}"),
        language: "rust".to_string(),
        risk_class: "p1".to_string(),
        expected_blocking: true,
    }
}

fn answer(complete: bool, latency: u64, blockers: &[usize]) -> LiveAnswer {
    LiveAnswer {
        review_complete: complete,
        cost_estimated: true,
        cost_spent: false,
        latency_ms: Some(latency),
        observed: blockers
            .iter()
            .map(|count| ObservedRun {
                findings: vec![],
                score: score(*count, *count, 0),
            })
            .collect(),
    }
}

#[test]
fn every_case_is_reviewed_as_often_as_it_is_to_be() {
    let mut evaluation = LiveEvaluation::start(2, 2, texts(&["candidate", "baseline"]));
    assert_eq!(
        evaluation.next_step(true),
        LiveStep::Prepare { position: 0 }
    );
    evaluation.prepared(prepared("a"));
    assert_eq!(evaluation.next_step(false), LiveStep::Ask { repetition: 1 });
    evaluation.answered(answer(true, 10, &[1, 2]));
    assert_eq!(evaluation.next_step(false), LiveStep::Ask { repetition: 2 });
    assert_eq!(evaluation.next_step(true), LiveStep::Stop { repetition: 2 });
    evaluation.answered(answer(false, 20, &[3, 4]));
    assert_eq!(
        evaluation.next_step(false),
        LiveStep::Prepare { position: 1 }
    );
    evaluation.prepared(prepared("b"));
    evaluation.answered(answer(true, 30, &[5, 6]));
    evaluation.answered(answer(true, 40, &[7, 8]));
    assert_eq!(evaluation.next_step(true), LiveStep::Done);

    let cases = evaluation.finish();
    assert_eq!(cases.len(), 2);
    assert_eq!(cases[0].id, "a");
    assert_eq!(cases[1].name, "case b");
    let blockers = |case: usize, configuration: usize| {
        let runs = &cases[case].runs[configuration];
        (
            runs.configuration_id.as_str(),
            runs.runs
                .iter()
                .map(|run| run.score.observed_blockers)
                .collect::<Vec<_>>(),
        )
    };
    assert_eq!(blockers(0, 0), ("baseline", vec![2, 4]));
    assert_eq!(blockers(0, 1), ("candidate", vec![1, 3]));
    assert_eq!(blockers(1, 0), ("baseline", vec![6, 8]));
    assert!(!cases[0].runs[0].runs[1].review_complete);
    assert_eq!(cases[0].runs[1].runs[1].latency_ms, Some(20));
    assert_eq!(cases[0].runs[1].runs[1].case_id, "a");
    assert!(build_report(&configurations(), 2, &cases).is_ok());
}

#[test]
fn cases_that_are_never_reviewed_have_no_runs() {
    let mut evaluation = LiveEvaluation::start(1, 0, texts(&["baseline"]));
    evaluation.prepared(prepared("a"));
    assert_eq!(evaluation.next_step(false), LiveStep::Done);
    let cases = evaluation.finish();
    assert!(cases[0].runs[0].runs.is_empty());
    assert_eq!(
        build_report(&configurations(), 0, &cases).expect_err("no repetitions"),
        "benchmark case `a` has no repetitions for configuration `baseline`"
    );
}
