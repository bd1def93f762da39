use reviewgate::collector::{
    find_candidates, finish_semantic_context, unavailable_semantic_context, SearchBackend,
    SearchError, SearchOutput, SearchProgress, SearchStep, SemanticContext, SemanticContextStatus,
    TrackedScan,
};
use reviewgate::excerpts::{load_semantic_source, truncate_utf8};
use reviewgate::extract::{
    extract_deleted_symbols, extract_rust_changed_symbols, extract_text_changed_symbols,
};
use reviewgate::search::{
    bound_source_candidates, candidate_rank_and_reason, is_configuration_path, is_test_path,
    looks_like_definition, parse_rg_matches, SearchMatch, MAX_SEMANTIC_SOURCE_CANDIDATES,
    MAX_SEMANTIC_SOURCE_PATHS,
};
use reviewgate::semantic::collect_changed_symbols;
use reviewgate::symbols::{identifiers, parse_diff_lines, stable_identifier};

fn texts(items: &[&str]) -> Vec<String> {
    items.iter().map(|item| item.to_string()).collect()
}

fn rg_match(path: &str, line: usize, text: &str) -> String {
    format!(
        "{{\"type\":\"match\",\"data\":{{\"path\":{{\"text\":\"./{path}\"}},\"lines\":{{\"text\":\"{text}\\n\"}},\"line_number\":{line}}}}}\n"
    )
}

fn rg_search_output(output: String, truncated: bool, symbol: &str, origin: &str) -> SearchOutput {
    SearchOutput {
        matches: if truncated {
            vec![]
        } else {
            parse_rg_matches(output.as_bytes(), symbol, origin)
        },
        output_bytes: output.len(),
        truncated,
        backend: SearchBackend::Ripgrep,
    }
}

/// Runs every step of a collection against files that are given.
fn collect_semantic_context_with_search(
    repository: &[(&str, &str)],
    reviewed_sha: &str,
    changed_files: &[&str],
    diff: &str,
    mut search: impl FnMut(&str, &str) -> Result<SearchOutput, SearchError>,
) -> SemanticContext {
    let changed_files = texts(changed_files);
    let read = |path: &str| {
        repository
            .iter()
            .find(|(name, _)| *name == path)
            .map(|(_, text)| text.to_string())
    };
    let parsed = parse_diff_lines(diff);
    let sources = changed_files.iter().map(|path| read(path)).collect();
    let changed = collect_changed_symbols(&changed_files, &parsed, &sources);
    let mut progress = SearchProgress::start(&changed.symbols);
    loop {
        match progress.next_step(&changed.origins, 0) {
            SearchStep::Search { symbol, origin, .. } => {
                let answer = search(&symbol, &origin);
                progress.record(answer);
            }
            SearchStep::SearchTrackedFiles {
                max_output_bytes, ..
            } => {
                let mut scan = TrackedScan::start(false);
                for (path, source) in repository {
                    scan.scan(
                        path,
                        source,
                        &progress.symbols,
                        &changed.origins,
                        max_output_bytes,
                    );
                }
                progress.record_tracked(Some(scan.output()));
            }
            SearchStep::Finish => break,
        }
    }
    let found = find_candidates(&progress, &changed_files);
    let loaded = found
        .candidates
        .iter()
        .map(|candidate| load_semantic_source(read(&candidate.path)))
        .collect();
    finish_semantic_context(reviewed_sha, &changed, &progress, &found, &loaded)
}

#[test]
fn rust_parser_selects_only_definitions_touched_by_added_lines() {
    let source = r#"
pub fn unchanged() -> bool {
    true
}

pub fn changed(value: bool) -> bool {
    !value
}
"#;
    let symbols = extract_rust_changed_symbols(source, &vec![7]);

    assert_eq!(symbols, vec!["changed"]);
}

#[test]
fn text_fallback_extracts_stable_identifiers_from_added_lines() {
    let diff = r#"diff --git a/action.yml b/action.yml
--- a/action.yml
+++ b/action.yml
@@ -1,2 +1,4 @@
 queue_ms=""
+created_ms="$(date -d "$created_at" +%s%3N)"
+run_started_ms="$(date -d "$run_started_at" +%s%3N)"
 "#;
    let parsed = parse_diff_lines(diff);
    let symbols = extract_text_changed_symbols(&parsed.added_in("action.yml"));

    assert!(symbols.contains(&"created_at".to_string()));
    assert!(symbols.contains(&"run_started_at".to_string()));
}

#[test]
fn deleted_identifiers_keep_renamed_symbol_references_discoverable() {
    let diff = r#"diff --git a/src/lib.rs b/src/lib.rs
--- a/src/lib.rs
+++ b/src/lib.rs
@@ -1 +1 @@
-pub fn old_handler() {}
+pub fn new_handler() {}
"#;
    let parsed = parse_diff_lines(diff);
    let symbols = extract_deleted_symbols("src/lib.rs", &parsed.deleted_in("src/lib.rs"));

    assert!(symbols.contains(&"old_handler".to_string()));
}

#[test]
fn source_candidates_are_bounded_before_loading_paths() {
    let matches = (0..MAX_SEMANTIC_SOURCE_CANDIDATES + 5)
        .map(|index| SearchMatch {
            path: format!("src/path-{index}.rs"),
            line: 1,
            text: "changed();".to_string(),
            symbol: "changed".to_string(),
            origin: "src/lib.rs".to_string(),
        })
        .collect();

    let (bounded, truncated) = bound_source_candidates(matches);
    let mut unique_paths = bounded
        .iter()
        .map(|candidate| candidate.path.as_str())
        .collect::<Vec<_>>();
    unique_paths.sort();
    unique_paths.dedup();

    assert!(truncated);
    assert!(bounded.len() <= MAX_SEMANTIC_SOURCE_CANDIDATES);
    assert!(unique_paths.len() <= MAX_SEMANTIC_SOURCE_PATHS);
}

#[test]
fn deleted_rust_body_lines_anchor_the_enclosing_new_side_definition() {
    let diff = r#"diff --git a/src/lib.rs b/src/lib.rs
--- a/src/lib.rs
+++ b/src/lib.rs
@@ -1,4 +1,3 @@
 pub fn changed() -> bool {
-    let obsolete = false;
     true
 }
"#;
    let parsed = parse_diff_lines(diff);
    let mut searched = Vec::new();

    let context = collect_semantic_context_with_search(
        &[
            ("src/lib.rs", "pub fn changed() -> bool {\n    true\n}\n"),
            ("src/caller.rs", "let result = changed();\n"),
        ],
        "head",
        &["src/lib.rs"],
        diff,
        |symbol, origin| {
            searched.push(symbol.to_string());
            Ok(rg_search_output(
                rg_match("src/caller.rs", 1, &format!("let result = {symbol}();")),
                false,
                symbol,
                origin,
            ))
        },
    );

    assert!(extract_deleted_symbols("src/lib.rs", &parsed.deleted_in("src/lib.rs")).is_empty());
    assert_eq!(searched, vec!["changed"]);
    assert!(context.excerpts.iter().any(|excerpt| {
        excerpt.path == "src/caller.rs"
            && excerpt.relation == "symbol:changed;changed_in:src/lib.rs"
    }));
}

#[test]
fn later_search_failure_discards_matches_from_earlier_symbols() {
    let diff = r#"diff --git a/src/lib.rs b/src/lib.rs
--- /dev/null
+++ b/src/lib.rs
@@ -0,0 +1,2 @@
+pub fn changed_one() {}
+pub fn changed_two() {}
"#;
    let mut calls = 0;

    let context = collect_semantic_context_with_search(
        &[
            (
                "src/lib.rs",
                "pub fn changed_one() {}\npub fn changed_two() {}\n",
            ),
            ("src/caller.rs", "changed_one();\n"),
        ],
        "head",
        &["src/lib.rs"],
        diff,
        |symbol, origin| {
            calls += 1;
            if calls == 1 {
                Ok(rg_search_output(
                    rg_match("src/caller.rs", 1, &format!("{symbol}();")),
                    false,
                    symbol,
                    origin,
                ))
            } else {
                Err(SearchError::Failed("synthetic rg failure".to_string()))
            }
        },
    );

    assert_eq!(context.report.status, SemanticContextStatus::Unavailable);
    assert_eq!(context.report.candidate_count, 0);
    assert_eq!(context.report.selected_count, 0);
    assert_eq!(context.report.selected_bytes, 0);
    assert!(context.report.excerpts.is_empty());
    assert!(context.excerpts.is_empty());
}

#[test]
fn collector_searches_references_to_a_deleted_rust_symbol() {
    let diff = r#"diff --git a/src/removed.rs b/src/removed.rs
--- a/src/removed.rs
+++ /dev/null
@@ -1 +0,0 @@
-pub fn old_handler() {}
"#;

    let context = collect_semantic_context_with_search(
        &[(
            "src/caller.rs",
            "pub fn caller() {\n    old_handler();\n}\n",
        )],
        "head",
        &["src/removed.rs"],
        diff,
        |symbol, origin| {
            assert_eq!(symbol, "old_handler");
            Ok(rg_search_output(
                rg_match("src/caller.rs", 2, "    old_handler();"),
                false,
                symbol,
                origin,
            ))
        },
    );

    assert!(context.excerpts.iter().any(|excerpt| {
        excerpt.path == "src/caller.rs"
            && excerpt
                .relation
                .starts_with("symbol:old_handler;changed_in:")
    }));
}

#[test]
fn collector_finds_bounded_ranked_references_without_persisting_source() {
    let diff = r#"diff --git a/src/lib.rs b/src/lib.rs
--- /dev/null
+++ b/src/lib.rs
@@ -0,0 +1,3 @@
+pub fn changed(value: bool) -> bool {
+    !value
+}
"#;

    let context = collect_semantic_context_with_search(
        &[
            (
                "src/lib.rs",
                "pub fn changed(value: bool) -> bool {\n    !value\n}\n",
            ),
            (
                "tests/changed_test.rs",
                "#[test]\nfn changed_is_inverted() {\n    assert!(!crate::changed(true));\n}\n",
            ),
            (
                "src/caller.rs",
                "pub fn caller() -> bool {\n    crate::changed(false)\n}\n",
            ),
        ],
        "0123456789abcdef",
        &["src/lib.rs"],
        diff,
        |symbol, origin| {
            assert_eq!(symbol, "changed");
            let output = rg_match(
                "tests/changed_test.rs",
                3,
                "    assert!(!crate::changed(true));",
            ) + &rg_match("src/caller.rs", 2, "    crate::changed(false)");
            Ok(rg_search_output(output, false, symbol, origin))
        },
    );

    assert_eq!(context.report.status, SemanticContextStatus::Collected);
    assert!(context.report.rg_calls > 0);
    assert!(context
        .excerpts
        .iter()
        .any(|excerpt| excerpt.path == "tests/changed_test.rs"));
    assert!(context
        .excerpts
        .iter()
        .any(|excerpt| excerpt.path == "src/caller.rs"));
    assert!(context
        .report
        .excerpts
        .iter()
        .all(|excerpt| excerpt.reviewed_sha == "0123456789abcdef"));
}

#[test]
fn builtin_search_finds_tracked_references_when_ripgrep_is_unavailable() {
    let diff = r#"diff --git a/src/permissions.js b/src/permissions.js
--- a/src/permissions.js
+++ b/src/permissions.js
@@ -1 +1,3 @@
-export function canExportBillingData(requester, owner) {
+export function canExportBillingData(
+  requester,
+  owner,
"#;

    let context = collect_semantic_context_with_search(
        &[
            (
                "src/permissions.js",
                "export function canExportBillingData(requester, owner) {\n  return requester === owner;\n}\n",
            ),
            (
                "tests/permissions.test.js",
                "assert.equal(canExportBillingData(\"owner\", \"owner\"), true);\n",
            ),
        ],
        "head",
        &["src/permissions.js"],
        diff,
        |_, _| Err(SearchError::RipgrepNotFound),
    );

    assert_eq!(context.report.status, SemanticContextStatus::Fallback);
    assert_eq!(context.report.parser, "text+builtin_search");
    assert!(context.report.changed_symbol_count > 0);
    assert_eq!(context.report.selected_count, 1);
    assert_eq!(context.report.rg_calls, 1);
    assert_eq!(context.report.rg_output_bytes, 0);
    assert!(context
        .report
        .fallback_reason
        .as_deref()
        .is_some_and(|reason| reason.contains("built-in tracked-file search was used")));
    assert!(context
        .excerpts
        .iter()
        .any(|excerpt| excerpt.path == "tests/permissions.test.js"));
    assert!(context.report.excerpts.iter().all(|excerpt| {
        excerpt.path != "src/permissions.js" && excerpt.reviewed_sha == "head"
    }));
}

#[test]
fn builtin_search_batches_multiple_symbols_in_one_tracked_file_scan() {
    let symbols = texts(&["firstChanged", "secondChanged"]);
    let origins = vec![
        ("firstChanged".to_string(), "src/lib.js".to_string()),
        ("secondChanged".to_string(), "src/lib.js".to_string()),
    ];
    let mut scan = TrackedScan::start(false);
    for (path, source) in [
        ("tests/first.test.js", "firstChanged();\n"),
        ("tests/second.test.js", "secondChanged();\n"),
    ] {
        scan.scan(path, source, &symbols, &origins, 32 * 1024);
    }
    let output = scan.output();

    assert!(!output.truncated);
    assert_eq!(output.backend, SearchBackend::Builtin);
    assert!(output
        .matches
        .iter()
        .any(|found| found.symbol == "firstChanged" && found.path == "tests/first.test.js"));
    assert!(output
        .matches
        .iter()
        .any(|found| found.symbol == "secondChanged" && found.path == "tests/second.test.js"));
}

#[test]
fn builtin_search_caps_dense_match_allocations() {
    let mut scan = TrackedScan::start(false);
    scan.scan(
        "dense.txt",
        &"changed\n".repeat(100),
        &texts(&["changed"]),
        &vec![("changed".to_string(), "src/lib.rs".to_string())],
        1024,
    );
    let output = scan.output();

    assert!(output.truncated);
    assert!(output.matches.len() <= 4);
}

#[test]
fn references_are_ranked_by_where_they_stand() {
    let found = |path: &str, text: &str| SearchMatch {
        path: path.to_string(),
        line: 1,
        text: text.to_string(),
        symbol: "changed".to_string(),
        origin: "src/lib.rs".to_string(),
    };
    assert_eq!(
        candidate_rank_and_reason(&found("tests/x.rs", "changed();")),
        (0, "test_reference")
    );
    assert!(is_test_path("a/tests/b.rs"));
    assert!(is_configuration_path("action.yml"));
    assert!(looks_like_definition("pub fn changed() {", "changed"));
    assert!(!looks_like_definition("changed();", "changed"));
    assert_eq!(
        identifiers("let a_b = c1(dd);"),
        texts(&["let", "a_b", "c1", "dd"])
    );
    assert!(stable_identifier("abcd"));
    assert!(!stable_identifier("abc"));
    let mut text = "aéb".to_string();
    truncate_utf8(&mut text, 2);
    assert_eq!(text, "a");
    let none = unavailable_semantic_context("head", "no repository");
    assert_eq!(none.report.status, SemanticContextStatus::Unavailable);
    assert_eq!(none.report.fallback_reason.as_deref(), Some("no repository"));
}

#[test]
fn output_that_is_no_report_of_a_match_is_passed_over() {
    let mut output = b"\xff\xfe not json\n{\"type\":\"begin\"}\n".to_vec();
    output.extend(rg_match("src/caller.rs", 2, "changed()").into_bytes());
    let matches = parse_rg_matches(&output, "changed", "src/lib.rs");
    assert_eq!(matches.len(), 1);
    assert_eq!(matches[0].path, "src/caller.rs");
    assert_eq!(matches[0].line, 2);
    assert_eq!(matches[0].text.trim_end(), "changed()");
}
