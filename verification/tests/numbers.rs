use statsai::binary64::{divide, from_count, less, multiply, plus, Binary64};
use statsai::code_types::{
    AttributionConfidence, CodeCategory, CoverageStatus, GitCommitChange, GitFileChange, GitScan,
    TraceEdit, TraceEditContext,
};
use statsai::hashing::hash_text;
use statsai::ids::SourceId;
use statsai::matching::match_trace_edits_to_commits;
use statsai::overlap::{ordered_overlap_ratio, weighted_overlap};
use statsai::patch::parse_structured_edit;
use statsai::render::{format_cost, format_ratio};
use statsai::time::parse_rfc3339;
use statsai::usage::UsageTotals;

fn value(b: Binary64) -> f64 {
    b.mantissa as f64 * 2f64.powi(b.exponent)
}

/// Numbers of many sizes, the same in every run.
fn numbers(seed: u64, count: usize) -> Vec<u64> {
    let mut state = seed;
    (0..count)
        .map(|i| {
            state = state
                .wrapping_mul(6364136223846793005)
                .wrapping_add(1442695040888963407);
            state >> (i % 64)
        })
        .collect()
}

#[test]
fn rounded_arithmetic_is_that_of_the_machine() {
    let all = numbers(7, 400);
    for pair in all.windows(2) {
        let (a, b) = (pair[0], pair[1]);
        let (x, y) = (a as f64, b as f64);
        let (p, q) = (from_count(a), from_count(b));
        assert_eq!(value(p), x, "{a}");
        assert_eq!(value(plus(p, q)), x + y, "{a} {b}");
        assert_eq!(value(multiply(p, q)), x * y, "{a} {b}");
        assert_eq!(less(p, q), x < y, "{a} {b}");
        if b > 0 {
            let r = divide(p, q);
            assert_eq!(value(r), x / y, "{a} {b}");
            assert_eq!(value(multiply(r, q)), x / y * y, "{a} {b}");
            assert_eq!(value(plus(r, p)), x / y + x, "{a} {b}");
        }
    }
    assert_eq!(value(from_count(0)), 0.0);
    assert_eq!(value(from_count(u64::MAX)), u64::MAX as f64);
}

fn lines(prefix: &str, count: usize) -> Vec<String> {
    (0..count).map(|i| format!("{prefix}{i}")).collect()
}

#[test]
fn shares_are_weighted_as_the_machine_rounds() {
    for added in 0..=12usize {
        for deleted in 0..=40usize {
            for matched in 0..=deleted {
                let whole = lines("d", deleted);
                let a = ordered_overlap_ratio(&lines("a", added), &lines("a", added));
                let d = ordered_overlap_ratio(&whole, &whole[..matched]);
                let x = 1.0f64;
                let y = if deleted == 0 {
                    1.0
                } else {
                    matched as f64 / deleted as f64
                };
                assert_eq!(value(a), x);
                assert_eq!(value(d), y);
                let total = added + deleted;
                let expected = if total == 0 {
                    0.0
                } else {
                    (x * added as f64 + y * deleted as f64) / total as f64
                };
                assert_eq!(value(weighted_overlap(a, added, d, deleted)), expected);
            }
        }
    }
}

fn edit(old: &str, new: &str) -> TraceEdit {
    let source = SourceId("source".to_string());
    let context = TraceEditContext {
        provider: "codex",
        source_id: &source,
        cache_key: "archive.jsonl",
        conversation_id: "conversation",
        source_record_id: "record:1",
        occurred_at: Some(parse_rfc3339("2026-08-01T10:00:00Z").unwrap()),
        project: None,
        repository_path: None,
    };
    let mut trace = parse_structured_edit(&context, "src/lib.rs", old, new, 0)
        .edits
        .remove(0);
    trace.repository_path = Some("/repo".to_string());
    trace
}

fn scan(hash: &str, trace: &TraceEdit, added: usize, deleted: usize) -> GitScan {
    GitScan {
        repository_root: "/repo".to_string(),
        repository_hash: "repository".to_string(),
        commits: vec![GitCommitChange {
            deduplication_id: format!("dedup-{hash}"),
            repository_hash: "repository".to_string(),
            commit_hash: hash.to_string(),
            committed_at: parse_rfc3339("2026-08-02T10:00:00Z").unwrap(),
            authored_at: None,
            parent_count: 1,
            project_id: None,
            files: vec![GitFileChange {
                relative_path: "src/lib.rs".to_string(),
                category: CodeCategory::Source,
                counts: trace.counts,
                added_line_fingerprints: trace.added_line_fingerprints[..added].to_vec(),
                deleted_line_fingerprints: trace.deleted_line_fingerprints[..deleted].to_vec(),
            }],
        }],
        committer_identities: Vec::new(),
        coverage: CoverageStatus::Complete,
    }
}

fn text(prefix: &str, count: usize) -> String {
    lines(prefix, count)
        .iter()
        .map(|line| format!("{line}\n"))
        .collect()
}

#[test]
fn a_share_just_under_four_fifths_is_no_match() {
    // One of one and 31 of 39 lines: 32 of 40, but the share of the 39 is rounded
    // before it is weighted.
    assert!((1.0 + 31.0 / 39.0 * 39.0) / 40.0 < 0.8f64);
    let trace = edit(&text("old-", 39), &text("new-", 1));
    assert_eq!(trace.added_line_fingerprints.len(), 1);
    assert_eq!(trace.deleted_line_fingerprints.len(), 39);
    let found = match_trace_edits_to_commits(&[trace.clone()], &[scan("a", &trace, 1, 31)], &[]);
    assert!(found.is_empty());
    let found = match_trace_edits_to_commits(&[trace.clone()], &[scan("a", &trace, 1, 32)], &[]);
    assert_eq!(found.len(), 1);
    assert_eq!(found[0].confidence, AttributionConfidence::Medium);
    assert_eq!(
        value(found[0].ordered_line_overlap),
        (1.0 + 32.0 / 39.0 * 39.0) / 40.0
    );

    let trace = edit("", &text("new-", 40));
    let found = match_trace_edits_to_commits(&[trace.clone()], &[scan("a", &trace, 32, 0)], &[]);
    assert_eq!(found.len(), 1);
    assert_eq!(value(found[0].ordered_line_overlap), 0.8);
    assert_eq!(
        found[0].match_id,
        hash_text(&format!(
            "code-match.v1:{}:dedup-a:src/lib.rs",
            trace.trace_edit_id
        ))
    );
    let found = match_trace_edits_to_commits(&[trace.clone()], &[scan("a", &trace, 31, 0)], &[]);
    assert!(found.is_empty());
}

#[test]
fn shares_are_compared_as_they_were_rounded() {
    // 29 of 36 lines both times, and rounding sets the two shares apart.
    let share = |a: f64, d: f64| (a + d / 35.0 * 35.0) / 36.0;
    assert!(share(1.0, 28.0) < share(0.0, 29.0));
    let trace = edit(&text("old-", 35), &text("new-", 1));
    let scans = [scan("a", &trace, 1, 28), scan("b", &trace, 0, 29)];
    let found = match_trace_edits_to_commits(&[trace.clone()], &scans, &[]);
    assert_eq!(found.len(), 1);
    assert_eq!(found[0].commit_hash, "b");
    // Equal shares leave the edit unattributed.
    let scans = [scan("a", &trace, 0, 29), scan("b", &trace, 0, 29)];
    assert!(match_trace_edits_to_commits(&[trace.clone()], &scans, &[]).is_empty());
}

#[test]
fn amounts_and_ratios_are_written_as_the_machine_writes_them() {
    let mut cents: Vec<i64> = numbers(11, 600).iter().map(|n| *n as i64).collect();
    cents.extend([0, 1, -1, 99, 100, i64::MAX, i64::MIN, 9_007_199_254_740_993]);
    for c in &cents {
        assert_eq!(format_cost(Some(*c)), format!("${:.2}", *c as f64 / 100.0), "{c}");
    }
    for pair in cents.windows(2) {
        let (v, p) = (pair[0], pair[1]);
        assert_eq!(
            format_ratio(Some((v, p))),
            format!("{:.2}x", v as f64 / p as f64),
            "{v} {p}"
        );
    }
    for v in -300..300i64 {
        for p in [1i64, 3, 7, 8, 200, -200, 400, 2000, 0] {
            assert_eq!(
                format_ratio(Some((v, p))),
                format!("{:.2}x", v as f64 / p as f64),
                "{v} {p}"
            );
        }
    }
    assert_eq!(format_ratio(None), "unknown");
    assert_eq!(format_ratio(Some((250, 2000))), "0.12x");
    assert_eq!(format_ratio(Some((-1, 2000))), "-0.00x");
}

#[test]
fn totals_come_out_the_same_in_any_order() {
    let total = |n: u64, cost: Option<i64>| UsageTotals {
        input_tokens: n,
        cache_creation_tokens: n / 2,
        cached_input_tokens: n / 3,
        output_tokens: n / 5,
        reasoning_tokens: n / 7,
        total_tokens: n.saturating_mul(2),
        estimated_cost_usd: None,
        estimated_cost_micro_usd: cost,
    };
    let parts = [
        total(10, Some(5)),
        total(u64::MAX - 3, None),
        total(77, Some(20_000)),
    ];
    let add = |order: [usize; 3]| {
        let mut sum = UsageTotals::default();
        for k in order {
            sum.add_totals(&parts[k]);
        }
        sum
    };
    let first = add([0, 1, 2]);
    assert_eq!(first.input_tokens, u64::MAX);
    assert_eq!(first.estimated_cost_micro_usd, Some(20_005));
    for order in [[0, 2, 1], [1, 0, 2], [1, 2, 0], [2, 0, 1], [2, 1, 0]] {
        assert_eq!(add(order), first);
    }
}
