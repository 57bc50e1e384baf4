use statsai::classify::classify_code_path;
use statsai::code_types::{
    CodeCategory, CodeChangeMetricKind, CoverageStatus, MutationKind, TraceEditContext,
};
use statsai::ids::SourceId;
use statsai::metrics::build_code_change_metrics;
use statsai::patch::{
    parse_full_file_write, parse_structured_edit, parse_unified_patch, repository_relative_path,
};
use statsai::time::{parse_rfc3339, parse_ymd, Timestamp};

fn at(text: &str) -> Timestamp {
    parse_rfc3339(text).unwrap()
}

fn day(text: &str) -> i64 {
    parse_ymd(text).unwrap()
}

fn context(source: &SourceId) -> TraceEditContext<'_> {
    TraceEditContext {
        provider: "codex",
        source_id: source,
        cache_key: "archive.jsonl",
        conversation_id: "conversation",
        source_record_id: "record:1",
        occurred_at: Some(at("2026-08-01T10:00:00Z")),
        project: None,
        repository_path: None,
    }
}

#[test]
fn mixed_available_and_unavailable_inputs_report_partial_coverage() {
    assert_eq!(
        CoverageStatus::Complete.combine(CoverageStatus::Unavailable),
        CoverageStatus::Partial
    );
    assert_eq!(
        CoverageStatus::Unavailable.combine(CoverageStatus::Unavailable),
        CoverageStatus::Unavailable
    );
}

#[test]
fn ignores_lockfiles_generated_directories_and_minified_files() {
    assert!(classify_code_path("Cargo.lock").is_none());
    assert!(classify_code_path("node_modules/pkg/index.js").is_none());
    assert!(classify_code_path("src/app.min.js").is_none());
    assert_eq!(
        classify_code_path("src/app.rs"),
        Some(CodeCategory::Source)
    );
}

#[test]
fn ignores_documentation_configuration_manifests_and_unknown_text() {
    for path in [
        "README.md",
        "docs/guide.txt",
        "Cargo.toml",
        "package.json",
        ".github/workflows/ci.yml",
        "tests/fixtures/example.md",
    ] {
        assert_eq!(classify_code_path(path), None, "{path}");
    }
    assert_eq!(
        classify_code_path("src/component.tsx"),
        Some(CodeCategory::Source)
    );
    assert_eq!(
        classify_code_path("tests/component_test.py"),
        Some(CodeCategory::Test)
    );
}

#[test]
fn an_already_relative_edit_path_is_never_rebased_a_second_time() {
    // Providers record a project path as a display label, which is not
    // guaranteed to be absolute. When both it and the edited path are
    // relative, stripping the prefix would drop a directory level and
    // attribute the edit to a file that was never touched.
    assert_eq!(
        repository_relative_path(
            Some("crates/statsai-core"),
            "crates/statsai-core/src/lib.rs".to_string()
        ),
        "crates/statsai-core/src/lib.rs".to_string()
    );
    // An absolute path is still rebased onto the repository holding it.
    assert_eq!(
        repository_relative_path(Some("/repo"), "/repo/src/lib.rs".to_string()),
        "src/lib.rs".to_string()
    );
    // One that lies outside the repository keeps its own path.
    assert_eq!(
        repository_relative_path(
            Some("/repo"),
            "/elsewhere/src/lib.rs".to_string()
        ),
        "/elsewhere/src/lib.rs".to_string()
    );
}

#[test]
fn parses_apply_patch_and_separates_test_code() {
    let source = SourceId("source".to_string());
    let parsed = parse_unified_patch(
        &context(&source),
        "*** Begin Patch\r\n*** Update File: src/lib.rs\r\n@@\r\n-old\r\n+new\r\n*** Add File: tests/new_test.rs\r\n+one\r\n+two\r\n*** End Patch\r\n",
    );
    assert_eq!(parsed.coverage, CoverageStatus::Complete);
    assert_eq!(parsed.edits.len(), 2);
    assert_eq!(parsed.edits[0].counts.source_additions, 1);
    assert_eq!(parsed.edits[0].counts.source_deletions, 1);
    assert_eq!(parsed.edits[1].counts.test_additions, 2);
}

#[test]
fn repeated_identical_patch_sections_have_distinct_stable_trace_ids() {
    let source = SourceId("source".to_string());
    let patch = "*** Begin Patch\n*** Update File: src/lib.rs\n@@\n-old\n+new\n*** Update File: src/lib.rs\n@@\n-old\n+new\n*** End Patch\n";

    let first = parse_unified_patch(&context(&source), patch);
    let repeated = parse_unified_patch(&context(&source), patch);

    assert_eq!(first.edits.len(), 2);
    assert_ne!(first.edits[0].trace_edit_id, first.edits[1].trace_edit_id);
    assert_eq!(
        first
            .edits
            .iter()
            .map(|edit| edit.trace_edit_id.as_str())
            .collect::<Vec<_>>(),
        repeated
            .edits
            .iter()
            .map(|edit| edit.trace_edit_id.as_str())
            .collect::<Vec<_>>()
    );
}

#[test]
fn apply_patch_move_uses_the_destination_path() {
    let source = SourceId("source".to_string());
    let parsed = parse_unified_patch(
        &context(&source),
        "*** Begin Patch\n*** Update File: src/old.rs\n*** Move to: src/new.rs\n@@\n-old\n+new\n*** End Patch\n",
    );
    assert_eq!(parsed.edits.len(), 1);
    assert_eq!(parsed.edits[0].relative_path, "src/new.rs");
}

#[test]
fn apply_patch_delete_without_body_is_unavailable_instead_of_zero_lines() {
    let source = SourceId("source".to_string());
    let parsed = parse_unified_patch(
        &context(&source),
        "*** Begin Patch\n*** Delete File: src/old.rs\n*** End Patch\n",
    );

    assert!(parsed.edits.is_empty());
    assert_eq!(parsed.unsupported_sections, 1);
    assert_eq!(parsed.coverage, CoverageStatus::Unavailable);
}

#[test]
fn non_code_patch_is_ignored_with_complete_coverage() {
    let source = SourceId("source".to_string());
    for patch in [
        "*** Begin Patch\n*** Update File: README.md\n@@\n-old\n+new\n*** End Patch\n",
        "*** Begin Patch\n*** Delete File: README.md\n*** End Patch\n",
    ] {
        let parsed = parse_unified_patch(&context(&source), patch);
        assert!(parsed.edits.is_empty());
        assert_eq!(parsed.unsupported_sections, 0);
        assert_eq!(parsed.coverage, CoverageStatus::Complete);
    }
}

#[test]
fn apply_patch_keeps_literal_paths_that_look_like_git_prefixes() {
    let source = SourceId("source".to_string());
    let parsed = parse_unified_patch(
        &context(&source),
        "*** Begin Patch\n*** Update File: a/lib.rs\n@@\n-old\n+new\n*** End Patch\n",
    );

    assert_eq!(parsed.edits.len(), 1);
    assert_eq!(parsed.edits[0].relative_path, "a/lib.rs");
}

#[test]
fn git_patch_body_lines_are_not_mistaken_for_file_headers() {
    let source = SourceId("source".to_string());
    let parsed = parse_unified_patch(
        &context(&source),
        "diff --git a/src/lib.rs b/src/lib.rs\n--- a/src/lib.rs\n+++ b/src/lib.rs\n@@ -1,0 +1,2 @@\n+++ still a body line\n+--- /dev/null\n",
    );

    assert_eq!(parsed.edits.len(), 1);
    assert_eq!(parsed.edits[0].relative_path, "src/lib.rs");
    assert_eq!(parsed.edits[0].counts.source_additions, 2);
    assert_eq!(parsed.edits[0].mutation_kind, MutationKind::UnifiedPatch);
}

#[test]
fn plain_unified_diffs_separate_files_without_git_headers() {
    let source = SourceId("source".to_string());
    let parsed = parse_unified_patch(
        &context(&source),
        "--- a/src/first.rs\n+++ b/src/first.rs\n@@ -1,0 +1,1 @@\n+one\n--- a/src/second.rs\n+++ b/src/second.rs\n@@ -1,1 +1,1 @@\n-old\n+new\n",
    );

    assert_eq!(parsed.edits.len(), 2);
    assert_eq!(parsed.edits[0].relative_path, "src/first.rs");
    assert_eq!(parsed.edits[0].counts.source_additions, 1);
    assert_eq!(parsed.edits[0].counts.source_deletions, 0);
    assert_eq!(parsed.edits[1].relative_path, "src/second.rs");
    assert_eq!(parsed.edits[1].counts.source_additions, 1);
    assert_eq!(parsed.edits[1].counts.source_deletions, 1);
}

#[test]
fn plain_unified_diff_deletions_keep_the_source_side_path() {
    let source = SourceId("source".to_string());
    let parsed = parse_unified_patch(
        &context(&source),
        "--- a/src/gone.rs\n+++ /dev/null\n@@ -1,2 +0,0 @@\n-one\n-two\n",
    );

    assert_eq!(parsed.edits.len(), 1);
    assert_eq!(parsed.edits[0].relative_path, "src/gone.rs");
    assert_eq!(parsed.edits[0].counts.source_deletions, 2);
}

#[test]
fn absolute_patch_paths_are_normalized_to_the_repository_root() {
    let source = SourceId("source".to_string());
    let repository = "/repo".to_string();
    let mut context = context(&source);
    context.repository_path = Some(&repository);

    let parsed = parse_unified_patch(
        &context,
        "*** Begin Patch\n*** Update File: /repo/src/lib.rs\n@@\n-old\n+new\n*** End Patch\n",
    );

    assert_eq!(parsed.edits.len(), 1);
    assert_eq!(parsed.edits[0].relative_path, "src/lib.rs");
}

#[test]
fn structured_edit_uses_line_diff_and_handles_missing_final_newline() {
    let source = SourceId("source".to_string());
    let parsed = parse_structured_edit(
        &context(&source),
        "src/lib.rs",
        "same\nold",
        "same\nnew",
        0,
    );
    assert_eq!(parsed.edits[0].counts.source_additions, 1);
    assert_eq!(parsed.edits[0].counts.source_deletions, 1);
}

#[test]
fn overwrite_reports_lines_written_without_inventing_a_diff() {
    let source = SourceId("source".to_string());
    let parsed = parse_full_file_write(
        &context(&source),
        "src/lib.rs",
        "one\ntwo\n",
        false,
    );
    assert_eq!(parsed.edits[0].counts.additions(), 0);
    assert_eq!(parsed.edits[0].counts.unclassified_lines_written, 2);
}

#[test]
fn a_hunk_before_any_file_header_is_not_charged_to_the_next_file() {
    let source = SourceId("source".to_string());
    let parsed = parse_unified_patch(
        &context(&source),
        "@@ -1 +1 @@\n-old\n+new\n\
         diff --git a/src/b.rs b/src/b.rs\n--- a/src/b.rs\n+++ b/src/b.rs\n@@ -1 +1 @@\n-x\n+y\n",
    );

    assert_eq!(parsed.edits.len(), 1, "only the headed section is measured");
    assert_eq!(parsed.edits[0].relative_path, "src/b.rs");
    assert_eq!(parsed.edits[0].counts.source_additions, 1);
    assert_eq!(parsed.edits[0].counts.source_deletions, 1);
    assert_eq!(parsed.unsupported_sections, 1);
    assert_eq!(parsed.coverage, CoverageStatus::Partial);
}

#[test]
fn agent_edits_are_published_per_day_project_and_repository() {
    let source = SourceId("source".to_string());
    let edit_at = |timestamp: &str, path: &str| {
        let mut context = context(&source);
        context.occurred_at = Some(at(timestamp));
        parse_full_file_write(&context, path, "one\ntwo\n", true)
            .edits
            .remove(0)
    };
    let edits = vec![
        edit_at("2026-08-01T10:00:00Z", "src/first.rs"),
        edit_at("2026-08-01T18:00:00Z", "src/second.rs"),
        edit_at("2026-08-02T10:00:00Z", "src/third.rs"),
    ];

    let metrics = build_code_change_metrics(
        at("2026-08-03T00:00:00Z"),
        "device",
        &edits,
        &[],
        &[],
        &[],
        CoverageStatus::Complete,
        &[],
    )
    .unwrap();

    let agent_edits = metrics
        .metrics
        .iter()
        .filter(|metric| metric.kind == CodeChangeMetricKind::AgentEdit)
        .collect::<Vec<_>>();
    assert_eq!(agent_edits.len(), 2, "one metric per observed day");
    let first_day = agent_edits
        .iter()
        .find(|metric| metric.day == day("2026-08-01"))
        .expect("first day");
    assert_eq!(first_day.counts.source_additions, 4);
    assert!(agent_edits
        .iter()
        .all(|metric| metric.metric_id.len() == 64));
}

#[test]
fn future_dated_agent_edits_are_not_published() {
    let source = SourceId("source".to_string());
    let mut context = context(&source);
    context.occurred_at = Some(
        at("2027-01-01T00:00:00Z"),
    );
    let edits = parse_full_file_write(&context, "src/lib.rs", "one\n", true).edits;

    let metrics = build_code_change_metrics(
        at("2026-08-03T00:00:00Z"),
        "device",
        &edits,
        &[],
        &[],
        &[],
        CoverageStatus::Complete,
        &[],
    )
    .unwrap();

    assert!(metrics.metrics.is_empty());
    assert_eq!(
        metrics.trace_coverage,
        CoverageStatus::Partial,
        "an edit the build declined to publish is unmeasured churn"
    );
}

#[test]
fn a_skipped_future_edit_downgrades_coverage_for_the_edits_that_are_published() {
    let source = SourceId("source".to_string());
    let edit_at = |timestamp: &str, path: &str| {
        let mut context = context(&source);
        context.occurred_at = Some(at(timestamp));
        parse_full_file_write(&context, path, "one\n", true)
            .edits
            .remove(0)
    };
    let edits = vec![
        edit_at("2026-08-01T10:00:00Z", "src/current.rs"),
        edit_at("2027-01-01T10:00:00Z", "src/skewed.rs"),
    ];

    let build = build_code_change_metrics(
        at("2026-08-03T00:00:00Z"),
        "device",
        &edits,
        &[],
        &[],
        &[],
        CoverageStatus::Complete,
        &[],
    )
    .unwrap();

    assert_eq!(build.metrics.len(), 1);
    assert_eq!(build.trace_coverage, CoverageStatus::Partial);
    assert!(
        build
            .metrics
            .iter()
            .all(|metric| metric.trace_coverage == CoverageStatus::Partial),
        "the surviving metrics must not claim they describe the period completely"
    );
}

#[test]
fn edits_of_a_patch_have_no_unclassified_lines() {
    let source = SourceId("source".to_string());
    let parsed = parse_unified_patch(
        &context(&source),
        "*** Begin Patch\n*** Add File: src/a.rs\n+one\n+two\n*** Update File: tests/b.rs\n@@\n-old\n+new\n*** End Patch\n",
    );
    assert_eq!(parsed.edits.len(), 2);
    for edit in &parsed.edits {
        assert_eq!(edit.counts.unclassified_lines_written, 0);
    }
    assert_eq!(parsed.edits[0].counts.source_additions, 2);
    assert_eq!(parsed.edits[1].counts.test_additions, 1);
    assert_eq!(parsed.edits[1].counts.test_deletions, 1);
}
