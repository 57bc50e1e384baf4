use statsai::ids::{ProviderAccountId, SubscriptionId};
use statsai::paths::{
    canonical_display, default_store_path, device_id_path, display_path, expand_cli_path,
    expand_home_path, generate_device_id, known_device_id, path_hash,
};
use statsai::periods::{
    parse_report_date_bound, report_period_from_range, ReportPeriod, ReportRangeError,
};
use statsai::records::{BillingPeriod, LocationOrigin, SubscriptionStatus};
use statsai::render::{
    format_cache_key_sample, format_cost, format_subscription_price, format_u64,
    import_complete_line, import_preview_line, known_usage, known_usage_lines,
    report_table_lines, reported_source_line, scan_total_lines, status_report_lines,
    summary_count_total, summary_direct_total, truncate_label, uncovered_tokens,
};
use statsai::report::{
    SubscriptionReportRow, SummaryReportRow, UsageReport, UsageReportRow,
};
use statsai::hashing::hash_text;
use statsai::sources::{location_origin_label, ScanTotals};
use statsai::time::{parse_rfc3339, Timestamp};
use statsai::usage::UsageTotals;

fn at(text: &str) -> Timestamp {
    parse_rfc3339(text).unwrap()
}

fn usage(total: u64, cents: Option<i64>) -> UsageTotals {
    UsageTotals {
        input_tokens: total,
        total_tokens: total,
        estimated_cost_usd: cents,
        estimated_cost_micro_usd: cents.map(|c| c * 10_000),
        ..UsageTotals::default()
    }
}

#[test]
fn counts_are_grouped_by_thousands() {
    assert_eq!(format_u64(0), "0");
    assert_eq!(format_u64(999), "999");
    assert_eq!(format_u64(1000), "1,000");
    assert_eq!(format_u64(u64::MAX), "18,446,744,073,709,551,615");
    assert_eq!(
        format_u64(1_234_567).replace(',', ""),
        "1234567"
    );
}

#[test]
fn amounts_have_two_decimals() {
    assert_eq!(format_cost(Some(125)), "$1.25");
    assert_eq!(format_cost(Some(5)), "$0.05");
    assert_eq!(format_cost(Some(-5)), "$-0.05");
    assert_eq!(format_cost(Some(-12345)), "$-123.45");
    assert_eq!(format_cost(None), "unknown");
    assert_eq!(format_subscription_price(2000, "usd"), "$20.00");
    assert_eq!(format_subscription_price(2000, "EUR"), "20.00 EUR");
}

#[test]
fn long_labels_are_cut() {
    assert_eq!(truncate_label("short", 5), "short");
    assert_eq!(truncate_label("longer", 5), "long…");
    assert_eq!(truncate_label("é…", 1), "…");
    assert_eq!(truncate_label("x", 0), "…");
}

#[test]
fn samples_name_three_keys() {
    let keys = |n: usize| -> Vec<String> { (0..n).map(|i| format!("/home/me/{i}")).collect() };
    assert_eq!(format_cache_key_sample(&keys(0), None), "none");
    assert_eq!(format_cache_key_sample(&keys(2), Some("/home/me")), "~/0, ~/1");
    assert_eq!(
        format_cache_key_sample(&keys(5), Some("/home/me")),
        "~/0, ~/1, ~/2 (+2 more)"
    );
}

#[test]
fn scan_totals_are_told_in_lines() {
    let mut totals = ScanTotals::default();
    totals.sources = 1;
    totals.events = 1200;
    totals.usage = usage(5000, Some(7));
    let lines = scan_total_lines(&totals, true, false, false);
    assert_eq!(
        lines,
        vec![
            "preview total: sources=1 usage_events=1,200 summaries=0 input=5,000 cache_create=0 \
             cache_read=0 output=0 total=5,000 est_cost=$0.07 summary_total=0 written=0"
        ]
    );
    let lines = scan_total_lines(&totals, false, false, true);
    assert_eq!(lines.len(), 3);
    assert_eq!(lines[1], "replace removed: events=0 summaries=0");
    assert_eq!(
        lines[2],
        "diagnostics: files=0 cached=0 raw_rows=0 candidates=0 duplicates=0 skipped_zero=0 \
         invalid=0 timestamp_fallbacks=0 model_fallbacks=0"
    );
    assert_eq!(scan_total_lines(&totals, true, true, false).len(), 2);
}

#[test]
fn imports_are_told_in_lines() {
    let totals = usage(1000, None);
    assert_eq!(
        import_preview_line(1, 2, 3, &totals),
        "import preview: sources=1 summaries=2 replace_existing=3 input=1,000 cache_create=0 \
         cache_read=0 output=0 total=1,000 cost=unknown written=0"
    );
    assert_eq!(
        import_complete_line(1, 2, 3, 4, &totals),
        "import complete: sources=1 summaries=2 replaced=3 summaries_written=4 input=1,000 \
         cache_create=0 cache_read=0 output=0 total=1,000 cost=unknown"
    );
    assert_eq!(
        reported_source_line("/home/me/a.json", Some("/home/me"), 1000, 0),
        "reported source path=~/a.json summaries=1000 warnings=0"
    );
    assert_eq!(
        status_report_lines(1, 2000, 3),
        vec![
            "stored all-time events: 1",
            "stored all-time tokens: 2000",
            "stored usage summaries: 3"
        ]
    );
}

fn report() -> UsageReport {
    UsageReport {
        label: "last 7 days".to_string(),
        since: Some(at("2026-05-18T12:00:00Z")),
        until: at("2026-05-25T12:00:00Z"),
        rows: vec![UsageReportRow {
            provider: "codex".to_string(),
            account: "personal".to_string(),
            events: 3,
            usage: usage(1500, Some(250)),
            sources: vec!["src_1".to_string(), "src_2".to_string()],
            paths: vec!["~/.codex".to_string()],
        }],
        summary_rows: vec![SummaryReportRow {
            provider: "claude_code".to_string(),
            account: "personal".to_string(),
            kind: "external_daily".to_string(),
            summaries: 2,
            usage: usage(900, None),
            direct_event_usage: usage(400, None),
            exact_overlap_summaries: 1,
            observed_at: Some(at("2026-05-25T00:00:00Z")),
            sources: vec!["src_3".to_string()],
            paths: vec![],
        }],
        subscription_rows: vec![SubscriptionReportRow {
            subscription_id: SubscriptionId("sub_1".to_string()),
            provider: "codex".to_string(),
            provider_account_id: ProviderAccountId("acct_1".to_string()),
            account: "a very long account name".to_string(),
            plan_name: "Plus".to_string(),
            price: 2000,
            currency: "USD".to_string(),
            billing_period: BillingPeriod::Monthly,
            started_at: at("2026-05-01T00:00:00Z"),
            ended_at: None,
            status: SubscriptionStatus::Active,
            events: 3,
            usage: usage(1500, Some(250)),
            value_minus_price_usd: Some(-1750),
            value_to_price: Some((250, 2000)),
        }],
        total_events: 3,
        total_usage: usage(1500, Some(250)),
        total_summary_usage: usage(900, None),
    }
}

#[test]
fn reports_are_tables() {
    let report = report();
    let lines = report_table_lines(&report, false, true);
    assert_eq!(lines[0], "statsai report: last 7 days");
    assert_eq!(
        lines[1],
        "range: 2026-05-18T12:00:00+00:00 to 2026-05-25T12:00:00+00:00"
    );
    assert_eq!(
        lines[2],
        format!(
            "{:<14} {:<16} {:>10} {:>12} {:>12} {:>12} {:>12} {:>12} {:>12}",
            "provider",
            "account",
            "events",
            "input",
            "cache_create",
            "cache_read",
            "output",
            "total",
            "est_cost"
        )
    );
    assert_eq!(
        lines[3],
        format!(
            "{:<14} {:<16} {:>10} {:>12} {:>12} {:>12} {:>12} {:>12} {:>12}",
            "codex", "personal", "3", "1,500", "0", "0", "0", "1,500", "$2.50"
        )
    );
    assert_eq!(lines[5], "subscription value:");
    assert_eq!(
        lines[7],
        format!(
            "{:<14} {:<16} {:<14} {:>10} {:>12} {:>12} {:>12} {:>12}",
            "codex", "a very long acc…", "Plus", "3", "1,500", "$2.50", "$20.00", "0.12x"
        )
    );
    assert_eq!(
        lines[10],
        format!(
            "{:<14} {:<16} {:<18} {:>10} {:>12} {:>12} {:>12} {:>12} {:>12} {:>12} {:>12}",
            "claude_code",
            "personal",
            "external_daily",
            "2",
            "900",
            "0",
            "0",
            "0",
            "900",
            "unknown",
            "500"
        )
    );
    assert_eq!(lines.len(), 16);
    let verbose = report_table_lines(&report, true, true);
    assert!(verbose.contains(&"  sources: src_1, src_2".to_string()));
    assert!(verbose.contains(&"  paths: ~/.codex".to_string()));
    assert!(verbose.contains(&"  reasoning: 0".to_string()));
    assert!(verbose.contains(&"  value_minus_price_usd: $-17.50".to_string()));
    assert!(verbose.contains(&"  exact_overlap_summaries: 1".to_string()));
    assert!(verbose.contains(&"  observed_at: 2026-05-25T00:00:00+00:00".to_string()));
}

#[test]
fn known_usage_is_direct_and_reported_usage_together() {
    let report = report();
    let lines = known_usage_lines(&report);
    assert_eq!(
        lines[2],
        format!(
            "{:<14} {:>14} {:>14} {:>14} {:>12} {:>12} {:>12}",
            "claude_code", "0", "900", "900", "unknown", "unknown", "unknown"
        )
    );
    assert_eq!(
        lines[3],
        format!(
            "{:<14} {:>14} {:>14} {:>14} {:>12} {:>12} {:>12}",
            "codex", "1,500", "0", "1,500", "$2.50", "unknown", "$2.50"
        )
    );
    assert_eq!(known_usage(&report).total_tokens, 2400);
    assert_eq!(uncovered_tokens(&report.summary_rows[0]), 500);
    assert_eq!(summary_count_total(&report.summary_rows), Some(2));
    assert_eq!(summary_direct_total(&report.summary_rows), Some(400));
    let mut huge = report.summary_rows.clone();
    huge[0].summaries = u64::MAX;
    huge.push(report.summary_rows[0].clone());
    assert_eq!(summary_count_total(&huge), None);
}

#[test]
fn an_empty_report_says_so() {
    let mut report = report();
    report.since = None;
    report.rows.clear();
    report.summary_rows.clear();
    report.subscription_rows.clear();
    let lines = report_table_lines(&report, false, true);
    assert_eq!(
        lines[1],
        "range: all stored events through 2026-05-25T12:00:00+00:00"
    );
    assert_eq!(
        lines.last().map(String::as_str),
        Some("subscription value: no matching subscription periods")
    );
    assert_eq!(location_origin_label(&LocationOrigin::Env), "env");
}

#[test]
fn ranges_are_read_and_refused() {
    let now = at("2026-05-25T12:00:00Z");
    assert_eq!(
        parse_report_date_bound("2026-05-20", false),
        Ok(at("2026-05-20T00:00:00Z"))
    );
    assert_eq!(
        parse_report_date_bound("2026-05-20", true),
        Ok(at("2026-05-20T23:59:59.999999999Z"))
    );
    assert!(matches!(
        parse_report_date_bound("soon", false),
        Err(ReportRangeError::InvalidDate { .. })
    ));
    assert_eq!(
        report_period_from_range(None, None, now),
        Err(ReportRangeError::MissingBound)
    );
    assert!(matches!(
        report_period_from_range(Some("2026-05-20"), Some("2026-05-10"), now),
        Err(ReportRangeError::InvertedRange { .. })
    ));
    let period = report_period_from_range(Some("2026-05-10"), Some("2026-05-20"), now).unwrap();
    let (since, until) = period.window(now);
    assert_eq!(since, Some(at("2026-05-10T00:00:00Z")));
    assert!(until.not_after(&now));
    assert_eq!(ReportPeriod::LastDays(7).window(now).0, Some(at("2026-05-18T12:00:00Z")));
}

#[test]
fn paths_are_expanded_and_hashed() {
    let home = Some("/home/me");
    assert_eq!(expand_home_path("~", home), "/home/me");
    assert_eq!(expand_home_path("~/a", home), "/home/me/a");
    assert_eq!(expand_home_path("~/a", None), "~/a");
    assert_eq!(expand_home_path("/x", home), "/x");
    assert_eq!(display_path("~/a", home), "/home/me/a");
    assert_eq!(canonical_display("~/a", Some("/real/a"), home), "/real/a");
    assert_eq!(path_hash("/x", None, None), hash_text("/x"));
    assert_eq!(path_hash("~/a", Some("/real/a"), home), hash_text("/real/a"));
    assert_eq!(expand_cli_path("a", home, Some("/work")), Ok("/work/a".to_string()));
    assert_eq!(expand_cli_path("~/a", home, None), Ok("/home/me/a".to_string()));
    assert!(expand_cli_path("~/a", None, Some("/work")).is_err());
    assert_eq!(default_store_path(home), "/home/me/.statsai/statsai.sqlite");
    assert_eq!(device_id_path(None), "./.statsai/device-id");
    assert_eq!(known_device_id(Some(" "), Some("dev_1\n")), Some("dev_1".to_string()));
    assert_eq!(known_device_id(None, None), None);
    assert_eq!(
        generate_device_id("host", "me", "/home/me", 7, 9),
        format!("dev_{}", &hash_text("host:me:/home/me:7:9")[..16])
    );
}
