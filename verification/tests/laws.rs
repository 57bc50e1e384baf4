use statsai::assignments::{assignment_for_timestamp, validate_source_assignment_overlap};
use statsai::classify::{classify_code_path, is_excluded_code_path};
use statsai::code_types::{
    git_observation_start_day, max_reportable_day, CodeCategory, CodeChangeMetric,
    CodeChangeMetricKind, CodeLineCounts, CoverageStatus,
};
use statsai::diff::changed_lines;
use statsai::git::{committer_identity_hash, judge_log_entry, scan_of_heads, CommitHead, LogEntry, ReadLine};
use statsai::hashing::hash_text;
use statsai::json_limit::{within_limit, JsonLimitError};
use statsai::sync::format_month;
use statsai::ids::{
    semantic_event_fingerprint, source_account_assignment_id, ProviderAccountId,
    SemanticFingerprintInput, SourceId,
};
use statsai::matching::{canonical_candidates, canonical_path, ResolvedPath};
use statsai::overlap::ordered_overlap_count;
use statsai::metrics::{agent_edit_metric_id, aggregate_code_change_metrics};
use statsai::paths::{
    extension, file_name, parent_path, path_starts_with, paths_equal, stays_inside, strip_base,
};
use statsai::periods::{date_bound, period_between, ReportBound, ReportPeriod, ReportRangeError};
use statsai::records::{
    periods_overlap, timestamp_in_period, IdentitySource, SourceAccountAssignment, UsageCounts,
};
use statsai::sorted::sort_texts;
use statsai::sync_flow::sanitize_source_account_assignment_for_sync;
use statsai::time::{format_date, parse_rfc3339, parse_ymd, Timestamp, MAX_DAY};
use statsai::usage::{micro_usd_to_cents_rounded, EventSample, EventUsageSeries};

fn at(text: &str) -> Timestamp {
    parse_rfc3339(text).unwrap()
}

fn texts(list: &[&str]) -> Vec<String> {
    list.iter().map(|t| t.to_string()).collect()
}

#[test]
fn excluded_paths_are_no_code() {
    for path in ["node_modules/a/index.js", "target/debug/a.rs", "Cargo.lock"] {
        assert!(is_excluded_code_path(path), "{path}");
        assert_eq!(classify_code_path(path), None, "{path}");
    }
    assert!(!is_excluded_code_path("src/a.rs"));
    assert_eq!(classify_code_path("src/a_test.go"), Some(CodeCategory::Test));
}

#[test]
fn the_case_of_letters_never_matters_to_a_path() {
    for path in ["Node_Modules/a/index.js", "a\\TARGET\\b.rs", "x/CARGO.LOCK", "a.MIN.js"] {
        assert!(is_excluded_code_path(path), "{path}");
        assert!(is_excluded_code_path(&path.to_ascii_lowercase()), "{path}");
        assert!(is_excluded_code_path(&path.to_ascii_uppercase()), "{path}");
    }
    for path in ["src/A.Rs", "Tests/b.PY", "src/a_TEST.go", "notes"] {
        let found = classify_code_path(path);
        assert_eq!(classify_code_path(&path.to_ascii_lowercase()), found, "{path}");
        assert_eq!(classify_code_path(&path.to_ascii_uppercase()), found, "{path}");
    }
}

#[test]
fn only_whole_directory_names_are_left_out() {
    assert!(!is_excluded_code_path("src/targets/a.rs"));
    assert!(!is_excluded_code_path("src/my_vendor/a.rs"));
    assert!(!is_excluded_code_path("building/a.rs"));
    assert!(is_excluded_code_path("src/target"));
}

#[test]
fn differences_are_smallest_and_split_both_texts() {
    let old = texts(&["a", "b", "c", "d"]);
    let new = texts(&["a", "x", "c", "y", "d"]);
    let (added, deleted) = changed_lines(&old, &new);
    assert_eq!(added, texts(&["x", "y"]));
    assert_eq!(deleted, texts(&["b"]));
    assert_eq!(changed_lines(&old, &old), (Vec::new(), Vec::new()));
    assert_eq!(changed_lines(&[], &new), (new.clone(), Vec::new()));
}

#[test]
fn overlaps_are_counted_in_order() {
    let needle = texts(&["a", "b", "c"]);
    assert_eq!(ordered_overlap_count(&needle, &texts(&["x", "a", "c", "b"])), 2);
    assert_eq!(ordered_overlap_count(&needle, &texts(&["c", "b", "a"])), 1);
    assert_eq!(ordered_overlap_count(&needle, &needle), 3);
}

#[test]
fn only_candidates_decide_where_a_path_lies() {
    let path = "/link/project/src/lib.rs";
    let candidates = canonical_candidates(path);
    assert!(candidates.contains(&"/link/project".to_string()));
    let resolved = |path: &str, canonical: &str| ResolvedPath {
        path: path.to_string(),
        canonical: canonical.to_string(),
    };
    let known = [resolved("/link", "/real")];
    let more = [resolved("/link", "/real"), resolved("/elsewhere", "/other")];
    assert_eq!(canonical_path(path, &known), "/real/project/src/lib.rs");
    assert_eq!(canonical_path(path, &known), canonical_path(path, &more));
    assert_eq!(canonical_path(path, &[]), path);
}

#[test]
fn periods_overlap_where_they_share_an_instant() {
    let may = at("2026-05-01T00:00:00Z");
    let june = at("2026-06-01T00:00:00Z");
    let july = at("2026-07-01T00:00:00Z");
    assert!(periods_overlap(may, None, june, Some(july)));
    assert!(periods_overlap(june, Some(july), may, None));
    assert!(!periods_overlap(may, Some(june), june, Some(july)));
    assert!(!periods_overlap(june, Some(july), may, Some(june)));
    assert!(timestamp_in_period(may, may, Some(june)));
    assert!(!timestamp_in_period(june, may, Some(june)));
    assert!(timestamp_in_period(july, may, None));
}

#[test]
fn a_range_that_starts_later_holds_nothing() {
    let now = at("2026-05-25T12:00:00Z");
    let bound = |text: &str| ReportBound {
        timestamp: at(text),
        date_only: true,
    };
    let period = || ReportPeriod::Range {
        since: Some(bound("2026-06-01T00:00:00Z")),
        until: bound("2026-06-10T23:59:59.999999999Z"),
    };
    let (since, until) = period().window(now);
    assert!(until.before(&since.unwrap()));
    let (since, until) = period().published_window(now);
    assert!(since.unwrap().not_after(&until));
    assert!(until.not_after(&now));
}

fn sample(text: &str, total: u64, cost: Option<i64>) -> EventSample {
    EventSample {
        at: at(text),
        usage: UsageCounts {
            total_tokens: Some(total),
            ..UsageCounts::default()
        },
        cost,
    }
}

#[test]
fn usage_between_two_instants_is_a_sum() {
    let series = EventUsageSeries::from_events(vec![
        sample("2026-05-03T00:00:00Z", 30, None),
        sample("2026-05-01T00:00:00Z", 10, Some(5_000)),
        sample("2026-05-02T00:00:00Z", 20, Some(9_999)),
    ]);
    let start = at("2026-05-01T00:00:00Z");
    let end = at("2026-05-03T00:00:00Z");
    let (events, usage) = series.usage_between(start, end, false);
    assert_eq!((events, usage.total_tokens), (2, 30));
    assert_eq!(usage.estimated_cost_micro_usd, Some(14_999));
    assert_eq!(usage.estimated_cost_usd, Some(1));
    let (events, usage) = series.usage_between(start, end, true);
    assert_eq!((events, usage.total_tokens), (3, 60));
    assert_eq!(micro_usd_to_cents_rounded(15_000), 2);
    assert_eq!(micro_usd_to_cents_rounded(-15_000), -2);
}

#[test]
fn sorting_keeps_every_text() {
    assert_eq!(
        sort_texts(&texts(&["b", "a", "ab", "a", ""])),
        texts(&["", "a", "a", "ab", "b"])
    );
}

#[test]
fn fingerprints_follow_the_counts() {
    let source = SourceId("src".to_string());
    let input = |output_tokens: Option<u64>| {
        semantic_event_fingerprint(&SemanticFingerprintInput {
            provider: "codex",
            source_id: &source,
            started_at: at("2026-05-01T00:00:00Z"),
            session_hash: None,
            project_key: Some("project"),
            model_name: None,
            input_tokens: Some(1),
            cache_read_tokens: None,
            cache_creation_tokens: None,
            output_tokens,
            reasoning_tokens: None,
            total_tokens: 3,
        })
    };
    assert_eq!(
        input(Some(2)),
        hash_text("codex:src:2026-05-01T00:00:00+00:00::project:unknown:1:0:0:2:0:3")
    );
    assert_eq!(input(None), input(Some(0)));
    assert_ne!(input(None), input(Some(2)));
}

fn metric(day: &str, kind: CodeChangeMetricKind, additions: u64) -> CodeChangeMetric {
    CodeChangeMetric {
        schema_version: "code_change_metric.v1".to_string(),
        metric_id: format!("{day}-{additions}"),
        device_id: "device".to_string(),
        day: parse_ymd(day).unwrap(),
        project_id: None,
        repository_hash: None,
        commit_hash: None,
        kind,
        counts: CodeLineCounts::classified(CodeCategory::Source, additions, 0),
        attribution_confidence: None,
        trace_coverage: CoverageStatus::Complete,
        git_coverage: CoverageStatus::Complete,
    }
}

#[test]
fn metrics_add_up_by_day_and_kind() {
    let totals = aggregate_code_change_metrics(&[
        metric("2026-08-02", CodeChangeMetricKind::Committed, 1),
        metric("2026-08-01", CodeChangeMetricKind::AgentEdit, 2),
        metric("2026-08-02", CodeChangeMetricKind::Committed, 4),
        metric("2026-08-02", CodeChangeMetricKind::AgentEdit, 8),
    ]);
    assert_eq!(totals.len(), 3);
    assert_eq!(totals[0].day, parse_ymd("2026-08-01").unwrap());
    let committed = totals
        .iter()
        .find(|t| t.kind == CodeChangeMetricKind::Committed)
        .unwrap();
    assert_eq!(committed.counts.source_additions, 5);
    let day = parse_ymd("2026-08-01").unwrap();
    assert_ne!(
        agent_edit_metric_id("a", day, &None, &None),
        agent_edit_metric_id("b", day, &None, &None)
    );
}

#[test]
fn observation_days_are_bounded() {
    let now = at("2026-08-10T12:00:00Z");
    assert_eq!(git_observation_start_day(now), parse_ymd("2026-05-12").unwrap());
    assert_eq!(max_reportable_day(now), parse_ymd("2026-08-11").unwrap());
}

fn assignment(start: &str, end: Option<&str>) -> SourceAccountAssignment {
    let source = SourceId("src".to_string());
    let account = ProviderAccountId("acct".to_string());
    SourceAccountAssignment {
        schema_version: "source_account_assignment.v1".to_string(),
        assignment_id: source_account_assignment_id(&source, &account, at(start)),
        source_id: source,
        provider: "codex".to_string(),
        provider_account_id: account,
        started_at: at(start),
        ended_at: end.map(at),
        record_source: IdentitySource::UserConfigured,
        verified_at: None,
        created_at: at(start),
        updated_at: at(start),
    }
}

#[test]
fn overlapping_connections_are_refused() {
    let source = SourceId("src".to_string());
    let held = [assignment("2026-05-01T00:00:00Z", Some("2026-06-01T00:00:00Z"))];
    let may = at("2026-05-15T00:00:00Z");
    let june = at("2026-06-01T00:00:00Z");
    assert_eq!(
        validate_source_assignment_overlap(&held, &source, may, None, None),
        Err("source connection overlaps an existing connection for source src".to_string())
    );
    let ignored = Some(&held[0].assignment_id);
    assert!(validate_source_assignment_overlap(&held, &source, may, None, ignored).is_ok());
    assert!(validate_source_assignment_overlap(&held, &source, june, None, None).is_ok());
    assert_eq!(assignment_for_timestamp(&held, may), Some(&held[0]));
    assert_eq!(assignment_for_timestamp(&held, june), None);
    assert_eq!(
        sanitize_source_account_assignment_for_sync(held[0].clone()),
        held[0]
    );
}

#[test]
fn paths_are_compared_by_their_parts() {
    assert!(paths_equal("/a//b/./c/", "/a/b/c"));
    assert!(!paths_equal("a/b", "/a/b"));
    assert!(path_starts_with("/a/b/c", "/a/b"));
    assert!(!path_starts_with("/a/bc", "/a/b"));
    assert_eq!(strip_base("/a/b/c", "/a/b").as_deref(), Some("c"));
    assert_eq!(file_name("/a/b.tar.gz").as_deref(), Some("b.tar.gz"));
    assert_eq!(file_name("/a/.."), None);
    assert_eq!(extension("/a/b.tar.gz").as_deref(), Some("gz"));
    assert_eq!(extension("/a/.hidden"), None);
    assert_eq!(parent_path("/a/b").as_deref(), Some("/a"));
    assert_eq!(parent_path("/"), None);
    assert!(stays_inside("a/../b"));
    assert!(!stays_inside("a/../../b"));
}

#[test]
fn dates_that_were_read_become_bounds() {
    let day = parse_ymd("2026-05-20");
    let noon = at("2026-05-20T12:00:00Z");
    assert_eq!(date_bound("x", Some(noon), day, true), Ok(noon));
    assert_eq!(date_bound("x", None, day, false), Ok(at("2026-05-20T00:00:00Z")));
    assert_eq!(
        date_bound("x", None, day, true),
        Ok(at("2026-05-20T23:59:59.999999999Z"))
    );
    assert_eq!(
        date_bound("x", None, None, true),
        Err(ReportRangeError::InvalidDate { value: "x".to_string() })
    );
    assert_eq!(
        date_bound("x", None, Some(MAX_DAY), true),
        Err(ReportRangeError::DateOutOfRange)
    );
    let bound = |timestamp: Timestamp| ReportBound {
        timestamp,
        date_only: false,
    };
    let now = at("2026-05-25T12:00:00Z");
    assert!(period_between(None, None, now).is_err());
    assert!(period_between(Some(bound(now)), Some(bound(noon)), now).is_err());
    // A start after `now` is valid where no end is given.
    assert_eq!(
        period_between(Some(bound(at("2027-01-01T00:00:00Z"))), None, noon),
        Ok(ReportPeriod::Range {
            since: Some(bound(at("2027-01-01T00:00:00Z"))),
            until: bound(noon),
        })
    );
    assert_eq!(format_date(-5, 3, 1), "-0005-03-01");
    assert_eq!(format_date(12345, 12, 31), "+12345-12-31");
    assert_eq!(format_month(2026, 5), "2026-05");
    assert_eq!(format_month(-5, 5), "-005-05");
}

#[test]
fn log_entries_are_judged_by_committer_parents_and_times() {
    let identities = [committer_identity_hash("me@example.com")];
    let entry = |parents: &str, email: &str| LogEntry {
        hash: "c1".to_string(),
        committed: "written".to_string(),
        parents: parents.to_string(),
        email: email.to_string(),
    };
    let time = at("2026-08-10T12:00:00Z");
    let day = time.day();
    let judge = |entry: LogEntry, committed: Option<Timestamp>, last_day: i64| {
        judge_log_entry(entry, committed, None, &identities, last_day)
    };
    let head = CommitHead {
        commit_hash: "c1".to_string(),
        committed_at: time,
        authored_at: None,
        parent_count: 1,
    };
    assert_eq!(
        judge(entry("c0", "Me@Example.com"), Some(time), day),
        ReadLine::Counted(head.clone())
    );
    assert_eq!(judge(entry("c0 d0", "me@example.com"), Some(time), day), ReadLine::Skipped);
    assert_eq!(judge(entry("c0", "you@example.com"), None, day), ReadLine::Skipped);
    assert_eq!(judge(entry("c0", "me@example.com"), Some(time), day - 1), ReadLine::Ahead);
    assert_eq!(
        judge(entry("c0", "me@example.com"), None, day),
        ReadLine::Unreadable("written".to_string())
    );
    assert!(scan_of_heads("/r", "h", None, &[], &identities, &[head], false, &[]).is_err());
    let empty = scan_of_heads("/r", "h", None, &[], &identities, &[], true, &[]).unwrap();
    assert_eq!(empty.coverage, CoverageStatus::Partial);
}

#[test]
fn decoded_payloads_are_held_to_the_limit() {
    assert_eq!(within_limit(None, 3), Err(JsonLimitError::Read));
    assert_eq!(within_limit(Some(vec![1, 2, 3]), 3), Ok(vec![1, 2, 3]));
    assert_eq!(
        within_limit(Some(vec![1, 2, 3, 4]), 3),
        Err(JsonLimitError::TooLarge { limit: 3 })
    );
}
