use statsai::accounts::{
    account_events, account_reference_counts, account_resolution,
    account_subscriptions, account_summaries, canonical_provider,
    check_account_removal, claude_first_word,
    normalize_email, provider_matches,
    resolve_existing_provider_account, resolve_existing_provider_account_selector,
};
use statsai::assignments::{
    connect_source_to_account, disconnect_source_from_account, reattribute_source_records,
    validate_time_window, AssignmentPlan,
};
use statsai::batch_ids::logical_http_rollup_batch_id;
use statsai::code_types::ProjectInfo;
use statsai::hashing::hash_text;
use statsai::identities::{
    close_active_verified_source_linkages, find_existing_provider_account,
    has_active_verified_source_assignment, upsert_provider_account,
};
use statsai::ids::{
    event_id, provider_account_id, source_account_assignment_id, source_id, subscription_id,
    summary_id, ProviderAccountId, SourceId, SourceKind, SummaryId,
};
use statsai::imports::{
    import_reported_summary_records, matching_reported_summary_ids, ReportedImportReport,
    ReportedUsageSummaryRecord,
};
use statsai::merge::{
    carry_out_assignment_plan, merge_provider_accounts, remove_orphan_provider_account,
    AccountMergeReport, AccountRecords,
};
use statsai::paths::path_hash;
use statsai::periods::ReportPeriod;
use statsai::records::{
    BillingPeriod, Confidence, CostInfo, EventSource, IdentitySource, LocationOrigin, ModelInfo,
    ParseEvidence, PrivacyInfo, PrivacyMode, ProviderAccount, SessionInfo,
    SourceAccountAssignment, SourceLocation, SourceVerificationMode, Subscription,
    SubscriptionStatus, SummaryMetadata, UsageCounts, UsageEvent, UsageSummary,
    PROVIDER_ACCOUNT_SCHEMA_VERSION, SOURCE_ACCOUNT_ASSIGNMENT_SCHEMA_VERSION,
    SOURCE_LOCATION_SCHEMA_VERSION, SUBSCRIPTION_SCHEMA_VERSION, USAGE_EVENT_SCHEMA_VERSION,
    USAGE_SUMMARY_SCHEMA_VERSION,
};
use statsai::report::build_usage_report;
use statsai::rollups::build_sync_rollup_stats_summaries;
use statsai::sources::{
    configured_source_root, default_source_paths, entries_to_record,
    parse_source_verification_mode,
    path_label_from_hashless_source, plan_source_scan, preview_path_label,
    resolve_source_reference, scan_sources_for_adapter, select_scan_file_entries,
    set_verification_mode, should_replace_source_records_for_scan, source_outcome, DefaultPath,
    ScanDiagnostics, ScanFileStateEntry, SourceFindings, SourceOutcome, SourceProbe,
};
use statsai::subscriptions::{
    active_subscription, add_subscription, change_subscription, check_period_choice,
    close_active_subscription,
    end_active_subscription, move_subscription_to_account, subscription_for_period,
    subscription_to_remove, SubscriptionRequest,
};
use statsai::sync::{
    estimate_http_rollup_d1_queries, split_http_rollup_sync_batch_after_budget_error,
    split_http_rollup_sync_batches, SyncBatch, HTTP_ROLLUP_D1_QUERY_BUDGET,
    HTTP_ROLLUP_SUMMARIES_PER_BATCH, SYNC_BATCH_SCHEMA_VERSION,
};
use statsai::sync_queue::SendQueue;
use statsai::sync_flow::{
    build_sync_batch, explicit_auth_token, format_cursor, http_reset_url, http_sync_endpoint,
    http_verify_status_url, is_daily_rollup_summary, is_full_rollup_sync, passthrough_summaries,
    remote_metadata_gap_reason, remote_sync_batch_matches_local_state, remote_sync_status,
    reset_action, retry_batches, rollup_preparation, sanitize_account_for_sync,
    sanitize_event_for_sync, sanitize_source_for_sync, sanitize_subscription_for_sync,
    sanitize_summary_for_sync, sent_summaries, sink_kind, stored_auth_token, sync_action,
    sync_local_verify, sync_payload_mode, sync_records, sync_target, tracking_reset_reason,
    PendingCounts, ResetAction, RollupPreparation, SinkKind, SyncAction, SyncPayloadMode,
};
use statsai::time::{parse_rfc3339, Timestamp};

fn at(text: &str) -> Timestamp {
    parse_rfc3339(text).unwrap()
}

fn days(t: Timestamp, n: i64) -> Timestamp {
    t.plus_days(n).unwrap()
}

/// A text that starts with the first word of `claude_code`.
fn word(rest: &str) -> String {
    format!("{}{rest}", claude_first_word())
}

fn source_at(
    provider: &str,
    kind: SourceKind,
    origin: LocationOrigin,
    adapter_id: &str,
    adapter_version: &str,
    key: &str,
    path: Option<&str>,
) -> SourceLocation {
    let now = at("2026-05-01T00:00:00Z");
    SourceLocation {
        schema_version: SOURCE_LOCATION_SCHEMA_VERSION.to_string(),
        source_id: source_id(provider, kind, key),
        provider: provider.to_string(),
        source_kind: kind,
        location_origin: origin,
        adapter_id: adapter_id.to_string(),
        adapter_version: adapter_version.to_string(),
        path_hash: path.map(|p| path_hash(p, None, None)),
        path_label: path.map(|p| p.to_string()),
        enabled: true,
        verification_mode: SourceVerificationMode::Auto,
        verified_state_hash: None,
        created_at: now,
        updated_at: now,
    }
}

fn local_adapter(
    provider: &str,
    adapter_id: &str,
    adapter_version: &str,
    path: &str,
    origin: LocationOrigin,
) -> SourceLocation {
    let key = format!("{adapter_id}:{path}");
    source_at(
        provider,
        SourceKind::LocalAdapter,
        origin,
        adapter_id,
        adapter_version,
        &key,
        Some(path),
    )
}

fn reported_usage(
    provider: &str,
    kind: SourceKind,
    adapter_id: &str,
    adapter_version: &str,
    key: &str,
) -> SourceLocation {
    source_at(
        provider,
        kind,
        LocationOrigin::Configured,
        adapter_id,
        adapter_version,
        key,
        None,
    )
}

#[test]
fn provider_aliases_match_canonical_provider() {
    assert!(provider_matches("claude_code", &word("")));
    assert!(provider_matches(&word("-code"), "claude_code"));
    assert!(provider_matches("codex", "codex"));
    assert_eq!(
        canonical_provider(&word("")).expect("provider"),
        "claude_code"
    );
    assert_eq!(claude_first_word().len(), 6);
    assert_eq!(
        canonical_provider("other"),
        Err("unsupported provider other".to_string())
    );
    assert!(provider_matches("open-code", "open_code"));
    assert!(!provider_matches("codex", "claude_code"));
}

#[test]
fn sync_sanitization_removes_record_level_evidence() {
    let source = local_adapter("codex", "test", "0", "/tmp/.codex", LocationOrigin::Configured);
    let now = at("2026-05-25T12:00:00Z");
    let mut event = test_event("codex", &source, now, None, TokenParts::total(100));
    event.source.source_record_id = Some("/tmp/.codex/sessions/log.jsonl:12".to_string());
    event.parse_evidence = Some(ParseEvidence {
        event_key_version: "test.v1".to_string(),
        source_file_path_hash: Some("hash".to_string()),
        source_line_number: Some(12),
        source_record_id: Some("/tmp/.codex/sessions/log.jsonl:12".to_string()),
        model_inferred: false,
        timestamp_inferred: false,
        account_identity_source: IdentitySource::ManualHint,
    });

    let mut summary = test_summary("codex", &source, now, 100, None);
    summary.source.source_record_id = Some("reported_jul11.json:daily:2025-07-11".to_string());
    summary.parse_evidence = event.parse_evidence.clone();

    let event = sanitize_event_for_sync(event);
    let summary = sanitize_summary_for_sync(summary);

    assert!(event.source.source_record_id.is_none());
    let event_evidence = event.parse_evidence.clone().expect("event evidence");
    assert!(event_evidence.source_record_id.is_none());
    assert!(event_evidence.source_line_number.is_none());
    assert_eq!(
        event_evidence.source_file_path_hash.as_deref(),
        Some("hash")
    );

    assert!(summary.source.source_record_id.is_none());
    let summary_evidence = summary.parse_evidence.clone().expect("summary evidence");
    assert!(summary_evidence.source_record_id.is_none());
    assert!(summary_evidence.source_line_number.is_none());
    assert_eq!(
        summary_evidence.source_file_path_hash.as_deref(),
        Some("hash")
    );
    assert_eq!(sanitize_event_for_sync(event.clone()), event);
    assert_eq!(sanitize_summary_for_sync(summary.clone()), summary);
}

#[test]
fn replace_matching_summaries_targets_reported_imports_only() {
    let source = reported_usage(
        "claude_code",
        SourceKind::ExternalReport,
        "reported-usage-summary",
        "0",
        "external-report",
    );
    let local_source = local_adapter(
        "claude_code",
        &word("-code-local-jsonl"),
        "0",
        &format!("/tmp/.{}", word("")),
        LocationOrigin::Configured,
    );
    let now = at("2026-05-25T12:00:00Z");
    let mut reported = test_summary("claude_code", &source, now, 100, None);
    reported.source.source_kind = SourceKind::ExternalReport;
    reported.metadata.summary_format = "external_daily".to_string();
    let mut local = test_summary("claude_code", &local_source, now, 200, None);
    local.source.source_kind = SourceKind::LocalSummary;
    local.metadata.summary_format = "external_daily".to_string();
    let stored = vec![reported.clone(), local];

    let record = ReportedUsageSummaryRecord {
        source,
        summary: reported.clone(),
    };
    let report = ReportedImportReport {
        path: "reported_usage_summaries.json".to_string(),
        records: vec![record],
        warnings: Vec::new(),
    };

    let matches = matching_reported_summary_ids(&stored, &[report]);
    assert_eq!(matches, vec![reported.summary_id]);
}

#[test]
fn replace_matching_summaries_is_scoped_to_source_and_period() {
    let source = reported_usage(
        "claude_code",
        SourceKind::ExternalReport,
        "reported-usage-summary",
        "0",
        "reported-file-a",
    );
    let other_source = reported_usage(
        "claude_code",
        SourceKind::ExternalReport,
        "reported-usage-summary",
        "0",
        "reported-file-b",
    );
    let now = at("2026-05-25T12:00:00Z");

    let mut matching = test_summary("claude_code", &source, now, 100, None);
    matching.source.source_kind = SourceKind::ExternalReport;
    matching.metadata.summary_format = "external_daily".to_string();
    matching.period_start = Some(days(now, -1));
    matching.period_end = Some(now);

    let mut same_file_different_day = test_summary("claude_code", &source, now, 200, None);
    same_file_different_day.summary_id = summary_id("claude_code", &source.source_id, "other-day");
    same_file_different_day.source.source_kind = SourceKind::ExternalReport;
    same_file_different_day.metadata.summary_format = "external_daily".to_string();
    same_file_different_day.period_start = Some(days(now, -2));
    same_file_different_day.period_end = Some(days(now, -1));

    let mut same_period_different_file = test_summary("claude_code", &other_source, now, 300, None);
    same_period_different_file.source.source_kind = SourceKind::ExternalReport;
    same_period_different_file.metadata.summary_format = "external_daily".to_string();
    same_period_different_file.period_start = matching.period_start;
    same_period_different_file.period_end = matching.period_end;

    let stored = vec![
        matching.clone(),
        same_file_different_day,
        same_period_different_file,
    ];

    let incoming = ReportedUsageSummaryRecord {
        source,
        summary: matching.clone(),
    };
    let report = ReportedImportReport {
        path: "reported-file-a.json".to_string(),
        records: vec![incoming],
        warnings: Vec::new(),
    };

    let reports = [report];
    let matches = matching_reported_summary_ids(&stored, &reports);

    assert_eq!(matches, vec![matching.summary_id.clone()]);
    let plan = import_reported_summary_records(&stored, &reports, true);
    assert_eq!(plan.deletes, vec![matching.summary_id]);
    assert_eq!(plan.records.len(), 1);
    assert_eq!(plan.usage.total_tokens, 100);
    let plan = import_reported_summary_records(&stored, &reports, false);
    assert!(plan.deletes.is_empty());
}

#[test]
fn generated_record_identifiers_do_not_keep_summaries_apart() {
    let source = reported_usage("codex", SourceKind::Manual, "reported", "0", "file");
    let now = at("2026-05-25T12:00:00Z");
    let mut stored = test_summary("codex", &source, now, 100, None);
    stored.source.source_kind = SourceKind::Manual;
    stored.source.source_record_id = Some("summary_key_1".to_string());
    let mut incoming = stored.clone();
    incoming.source.source_record_id = Some("summary_key_2".to_string());
    let report = |summary: UsageSummary| ReportedImportReport {
        path: "file.json".to_string(),
        records: vec![ReportedUsageSummaryRecord {
            source: source.clone(),
            summary,
        }],
        warnings: Vec::new(),
    };
    let all = [stored.clone()];
    assert_eq!(
        matching_reported_summary_ids(&all, &[report(incoming.clone())]).len(),
        1
    );
    incoming.source.source_record_id = Some("own".to_string());
    assert!(matching_reported_summary_ids(&all, &[report(incoming)]).is_empty());
}

#[test]
fn configured_claude_projects_path_normalizes_to_config_root() {
    assert_eq!(
        configured_source_root("claude_code", "/data/dir/projects"),
        "/data/dir"
    );
    assert_eq!(
        configured_source_root("codex", "/data/dir/projects"),
        "/data/dir/projects"
    );
    assert_eq!(configured_source_root("claude_code", "/data/dir"), "/data/dir");
}

fn request(plan: &str, price: i64, started_at: &str) -> SubscriptionRequest {
    SubscriptionRequest {
        plan: plan.to_string(),
        price,
        currency: "USD".to_string(),
        paid_at: Some(at(started_at)),
        started_at: at(started_at),
        ended_at: None,
    }
}

#[test]
fn subscription_add_uses_canonical_provider_for_account_id() {
    let provider = canonical_provider(&word("")).expect("provider");
    let account = provider_account_id(&provider, "personal@example.com");
    let subscription = add_subscription(
        &[],
        &provider,
        &account,
        request("Pro", 2000, "2026-05-15T00:00:00Z"),
    )
    .expect("subscription");

    assert_eq!(subscription.provider, "claude_code");
    assert_eq!(
        subscription.provider_account_id,
        provider_account_id("claude_code", "personal@example.com")
    );
    assert_eq!(subscription.renewal_day, Some(15));
}

#[test]
fn configured_source_overrides_discovered_source_for_same_path() {
    let discovered = local_adapter(
        "codex",
        "test",
        "0",
        "/tmp/codex-merge",
        LocationOrigin::Default,
    );
    let configured = local_adapter(
        "codex",
        "test",
        "0",
        "/tmp/codex-merge",
        LocationOrigin::Configured,
    );

    let sources = scan_sources_for_adapter("codex", &[discovered], &[configured], &[], &[]);

    assert_eq!(sources.len(), 1);
    assert_eq!(sources[0].location_origin, LocationOrigin::Configured);
}

#[test]
fn configured_parent_source_suppresses_discovered_child_source() {
    let parent = format!("/tmp/statsai-{}", word(""));
    let discovered = local_adapter(
        "claude_code",
        "test",
        "0",
        &format!("{parent}/projects"),
        LocationOrigin::Default,
    );
    let configured = local_adapter(
        "claude_code",
        "test",
        "0",
        &parent,
        LocationOrigin::Configured,
    );

    let sources = scan_sources_for_adapter("claude_code", &[discovered], &[configured], &[], &[]);

    assert_eq!(sources.len(), 1);
    assert_eq!(sources[0].location_origin, LocationOrigin::Configured);
    assert_eq!(sources[0].path_label.as_deref(), Some(parent.as_str()));
}

#[test]
fn non_local_sources_are_ignored_for_adapter_scans() {
    let configured_local = local_adapter(
        "codex",
        "test",
        "0",
        "/tmp/codex-local",
        LocationOrigin::Configured,
    );
    let configured_manual = reported_usage(
        "codex",
        SourceKind::Manual,
        "reported-usage-summary",
        "0",
        "manual-note",
    );

    let sources = scan_sources_for_adapter(
        "codex",
        &[],
        &[configured_local.clone(), configured_manual],
        &[],
        &[],
    );

    assert_eq!(sources, vec![configured_local]);
}

fn apply(plan: AssignmentPlan, assignments: &mut Vec<SourceAccountAssignment>) {
    *assignments = carry_out_assignment_plan(assignments, &plan);
    assignments.sort_by_key(|a| (a.started_at.secs, a.started_at.nanos));
}

fn connect(
    source: &SourceLocation,
    email: &str,
    assignments: &mut Vec<SourceAccountAssignment>,
    started_at: Timestamp,
    ended_at: Option<Timestamp>,
) {
    let account = provider_account_id(&source.provider, email);
    let now = at("2026-07-01T00:00:00Z");
    let plan = connect_source_to_account(source, &account, assignments, started_at, ended_at, now)
        .expect("connect");
    apply(plan, assignments);
}

#[test]
fn connect_source_to_account_closes_existing_open_connection() {
    let source = local_adapter(
        "codex",
        "test",
        "0",
        "/tmp/codex-connect",
        LocationOrigin::Configured,
    );
    let first_start = at("2026-05-01T00:00:00Z");
    let second_start = at("2026-06-01T00:00:00Z");
    let mut assignments = Vec::new();

    connect(&source, "first@example.com", &mut assignments, first_start, None);
    connect(&source, "second@example.com", &mut assignments, second_start, None);

    assert_eq!(assignments.len(), 2);
    assert_eq!(assignments[0].ended_at, Some(second_start));
    assert_eq!(assignments[1].started_at, second_start);
}

#[test]
fn connect_source_to_account_preserves_tail_when_replacing_finite_window() {
    let source = local_adapter(
        "codex",
        "test",
        "0",
        "/tmp/codex-connect-tail",
        LocationOrigin::Configured,
    );
    let period_start = at("2026-05-01T00:00:00Z");
    let split_at = at("2026-05-15T00:00:00Z");
    let period_end = at("2026-06-01T00:00:00Z");
    let before_split = at("2026-05-10T12:00:00Z");
    let after_split = at("2026-05-20T12:00:00Z");
    let events = vec![
        test_event("codex", &source, before_split, None, TokenParts::total(1)),
        test_event("codex", &source, after_split, None, TokenParts::total(1)),
    ];
    let mut assignments = Vec::new();

    connect(
        &source,
        "first@example.com",
        &mut assignments,
        period_start,
        Some(period_end),
    );
    connect(
        &source,
        "second@example.com",
        &mut assignments,
        period_start,
        Some(split_at),
    );

    let first_account = provider_account_id("codex", "first@example.com");
    let second_account = provider_account_id("codex", "second@example.com");
    assert_eq!(assignments.len(), 2);
    assert!(assignments.iter().any(|assignment| {
        assignment.provider_account_id == second_account
            && assignment.started_at == period_start
            && assignment.ended_at == Some(split_at)
    }));
    assert!(assignments.iter().any(|assignment| {
        assignment.provider_account_id == first_account
            && assignment.started_at == split_at
            && assignment.ended_at == Some(period_end)
    }));

    let (events, _) = reattribute_source_records(&assignments, &events, &[]);
    assert_eq!(events.len(), 2);
    let before = events
        .iter()
        .find(|event| event.session.started_at == before_split)
        .expect("before event");
    let after = events
        .iter()
        .find(|event| event.session.started_at == after_split)
        .expect("after event");
    assert_eq!(before.provider_account_id, Some(second_account));
    assert_eq!(after.provider_account_id, Some(first_account));
    let (again, _) = reattribute_source_records(&assignments, &events, &[]);
    assert_eq!(again, events);
}

#[test]
fn connect_source_to_account_merges_same_account_and_backfills_boundary_events() {
    let source = local_adapter(
        "codex",
        "test",
        "0",
        "/tmp/codex-connect-merge",
        LocationOrigin::Configured,
    );
    let original_start = at("2026-05-28T11:31:09Z");
    let extended_start = at("2026-05-28T00:00:00Z");
    let boundary_event_at = at("2026-05-28T07:23:28Z");

    let event = test_event(
        "codex",
        &source,
        boundary_event_at,
        None,
        TokenParts::total(1),
    );
    let mut assignments = Vec::new();

    connect(
        &source,
        "same-account@example.com",
        &mut assignments,
        original_start,
        None,
    );
    connect(
        &source,
        "same-account@example.com",
        &mut assignments,
        extended_start,
        None,
    );

    assert_eq!(assignments.len(), 1);
    assert_eq!(assignments[0].started_at, extended_start);

    let (events, _) = reattribute_source_records(&assignments, &[event], &[]);
    assert_eq!(events.len(), 1);
    assert_eq!(
        events[0].provider_account_id,
        Some(provider_account_id("codex", "same-account@example.com"))
    );
}

#[test]
fn a_connection_is_ended_once() {
    let source = local_adapter("codex", "test", "0", "/tmp/codex-end", LocationOrigin::Configured);
    let start = at("2026-05-01T00:00:00Z");
    let end = at("2026-06-01T00:00:00Z");
    let now = at("2026-07-01T00:00:00Z");
    let mut assignments = Vec::new();
    connect(&source, "one@example.com", &mut assignments, start, None);
    let ended = disconnect_source_from_account(&source, &assignments, None, end, now).unwrap();
    assert_eq!(ended.ended_at, Some(end));
    assert_eq!(ended.updated_at, now);
    let other = provider_account_id("codex", "two@example.com");
    assert!(disconnect_source_from_account(&source, &assignments, Some(&other), end, now).is_err());
    assert!(disconnect_source_from_account(&source, &[ended], None, end, now).is_err());
    assert!(validate_time_window(end, Some(start), "link").is_err());
    assert!(validate_time_window(start, Some(end), "link").is_ok());
}

#[test]
fn upsert_provider_account_rejects_conflicting_email_and_provider_user_id() {
    let now = at("2026-06-01T12:00:00Z");
    let email_account = upsert_provider_account(
        &[],
        "codex",
        None,
        Some("conflict@example.com"),
        Some("email".to_string()),
        now,
    )
    .expect("email account");
    let mut accounts = vec![email_account.clone()];
    let user_account = upsert_provider_account(
        &accounts,
        "codex",
        Some("acct-conflict"),
        None,
        Some("user".to_string()),
        now,
    )
    .expect("user account");
    accounts.push(user_account.clone());

    let error = upsert_provider_account(
        &accounts,
        "codex",
        Some("acct-conflict"),
        Some("conflict@example.com"),
        None,
        now,
    )
    .expect_err("conflicting identity");

    assert!(error.contains("conflicting provider account identifiers"));
    assert_eq!(accounts.len(), 2);
    assert!(accounts.iter().any(|account| {
        account.provider_account_id == email_account.provider_account_id
            && account.provider_user_id.is_none()
            && account.email.as_deref() == Some("conflict@example.com")
    }));
    assert!(accounts.iter().any(|account| {
        account.provider_account_id == user_account.provider_account_id
            && account.provider_user_id.as_deref() == Some("acct-conflict")
            && account.email.is_none()
    }));
    assert_eq!(
        find_existing_provider_account(&accounts, "codex", Some(" acct-conflict "), None),
        Ok(Some(user_account))
    );
    assert_eq!(
        find_existing_provider_account(&accounts, "claude_code", Some("acct-conflict"), None),
        Ok(None)
    );
    let completed = upsert_provider_account(
        &accounts[..1],
        "codex",
        Some("acct-new"),
        Some(" Conflict@Example.com"),
        None,
        now,
    )
    .unwrap();
    assert_eq!(completed.provider_account_id, email_account.provider_account_id);
    assert_eq!(completed.provider_user_id_hash, Some(hash_text("acct-new")));
    assert_eq!(completed.account_label.as_deref(), Some("email"));
    assert!(upsert_provider_account(&[], "codex", None, None, None, now).is_err());
}

/// A source with an open assignment and an open subscription that a login
/// vouched for.
fn vouched_linkages(
    path: &str,
) -> (SourceLocation, Vec<SourceAccountAssignment>, Vec<Subscription>) {
    let started_at = at("2026-05-29T10:12:43Z");
    let source = local_adapter("codex", "test", "0", path, LocationOrigin::Configured);
    let account = provider_account_id("codex", "acct-verified");
    let mut assignment = test_assignment(&source, &account, started_at, None, started_at);
    assignment.record_source = IdentitySource::LocalAuth;
    assignment.verified_at = Some(started_at);
    let mut subscription =
        add_subscription(&[], "codex", &account, request("Plus", 2000, "2026-05-29T10:12:43Z"))
            .unwrap();
    subscription.record_source = IdentitySource::LocalAuth;
    (source, vec![assignment], vec![subscription])
}

#[test]
fn disabled_source_mode_closes_verified_linkages() {
    let (source, assignments, subscriptions) =
        vouched_linkages("/tmp/codex-disable-verification");
    let now = at("2026-06-01T00:00:00Z");
    let (assignments, subscriptions) = close_active_verified_source_linkages(
        &assignments,
        &subscriptions,
        &source.source_id,
        now,
    );
    let source = set_verification_mode(source, SourceVerificationMode::Disabled, now);

    assert_eq!(source.verification_mode, SourceVerificationMode::Disabled);
    assert_eq!(source.verified_state_hash, None);
    assert_eq!(assignments.len(), 1);
    assert!(assignments[0].ended_at.is_some());
    assert_eq!(subscriptions.len(), 1);
    assert!(subscriptions[0].ended_at.is_some());
}

/// What a scan finds of a source whose login has gone.
fn scan_without_login(
    source: &SourceLocation,
    assignments: &[SourceAccountAssignment],
) -> SourceOutcome {
    let plan = plan_source_scan(&SourceProbe {
        mode: source.verification_mode,
        stored_state: source.verified_state_hash.as_deref(),
        next_state: None,
        state_missing: true,
        has_verified_assignment: has_active_verified_source_assignment(
            assignments,
            &source.source_id,
        ),
        candidates: 0,
        pending: 0,
        replace: false,
        no_cache: false,
    });
    let findings = SourceFindings {
        events: 0,
        summaries: 0,
        pending: 0,
        diagnostics: ScanDiagnostics::default(),
    };
    source_outcome(&findings, &plan, false, false)
}

#[test]
fn scan_closes_verified_assignment_when_auto_source_loses_auth() {
    let (mut source, assignments, subscriptions) =
        vouched_linkages("/tmp/codex-unassign-on-missing-auth");
    source.verified_state_hash = Some(hash_text("verified"));
    assert_eq!(scan_without_login(&source, &assignments), SourceOutcome::Stored);
    let (assignments, _) = close_active_verified_source_linkages(
        &assignments,
        &subscriptions,
        &source.source_id,
        at("2026-06-01T00:00:00Z"),
    );
    assert_eq!(assignments.len(), 1);
    assert!(assignments[0].ended_at.is_some());
    assert!(!has_active_verified_source_assignment(&assignments, &source.source_id));
}

#[test]
fn scan_closes_legacy_verified_assignment_without_state_hash_when_auth_is_missing() {
    let (source, assignments, _) =
        vouched_linkages("/tmp/codex-legacy-unassign-on-missing-auth");
    assert_eq!(source.verified_state_hash, None);
    assert_eq!(scan_without_login(&source, &assignments), SourceOutcome::Stored);
    let (assignments, _) = close_active_verified_source_linkages(
        &assignments,
        &[],
        &source.source_id,
        at("2026-06-01T00:00:00Z"),
    );
    assert_eq!(assignments.len(), 1);
    assert!(assignments[0].ended_at.is_some());
}

#[test]
fn manual_only_source_ignores_verified_state_mutations() {
    let (source, assignments, _) = vouched_linkages("/tmp/codex-manual-only");
    let source =
        set_verification_mode(source, SourceVerificationMode::ManualOnly, at("2026-06-01T00:00:00Z"));
    // A login is found and was never seen before.
    let login = hash_text("acct-manual-only");
    let found = |mode: SourceVerificationMode| {
        let plan = plan_source_scan(&SourceProbe {
            mode,
            stored_state: source.verified_state_hash.as_deref(),
            next_state: Some(login.as_str()),
            state_missing: false,
            has_verified_assignment: false,
            candidates: 0,
            pending: 0,
            replace: false,
            no_cache: false,
        });
        assert_eq!(
            plan.verified_state_changed,
            mode == SourceVerificationMode::Auto
        );
        let findings = SourceFindings {
            events: 0,
            summaries: 0,
            pending: 0,
            diagnostics: ScanDiagnostics::default(),
        };
        source_outcome(&findings, &plan, false, false)
    };
    assert_eq!(found(source.verification_mode), SourceOutcome::Ignored);
    assert_eq!(found(SourceVerificationMode::Auto), SourceOutcome::Stored);
    // Nor does a login that has gone change anything.
    assert_eq!(scan_without_login(&source, &assignments), SourceOutcome::Ignored);
}

#[test]
fn lookup_provider_account_does_not_create_orphans() {
    let accounts: Vec<ProviderAccount> = vec![];
    let found =
        find_existing_provider_account(&accounts, "codex", None, Some("typo@example.com")).unwrap();
    assert_eq!(found, None);
    let error =
        resolve_existing_provider_account(&accounts, "codex", None, None, found.as_ref(), None)
            .expect_err("missing account");

    assert!(error.contains("unknown provider account selector"));
    assert!(accounts.is_empty());
}

#[test]
fn provider_account_id_lookup_rejects_wrong_provider() {
    let now = at("2026-06-01T12:00:00Z");
    let account = test_account(
        "claude_code",
        None,
        Some(&word("@example.com")),
        None,
        None,
        now,
    );
    let id = account.provider_account_id.0.clone();

    let existing_error = resolve_existing_provider_account(
        std::slice::from_ref(&account),
        "codex",
        Some(&id),
        Some(&account),
        None,
        None,
    )
    .expect_err("wrong existing provider");
    let create_error = account_resolution("codex", Some(&id), Some(&account), true, false)
        .expect_err("wrong create provider");

    assert!(existing_error.contains("belongs to claude_code"));
    assert!(create_error.contains("belongs to claude_code"));
}

#[test]
fn accounts_are_found_by_label_only_where_it_names_one() {
    let now = at("2026-06-01T12:00:00Z");
    let a = test_account("codex", Some("work"), None, None, None, now);
    let b = test_account("codex", Some("work"), Some("b@example.com"), None, None, now);
    let one = [a.clone()];
    let two = [a.clone(), b.clone()];
    let by_label = |accounts: &[ProviderAccount]| {
        resolve_existing_provider_account(accounts, "codex", None, None, None, Some("work"))
    };
    assert_eq!(by_label(&one), Ok(a.clone()));
    assert_eq!(
        by_label(&two),
        Err("provider account label work is ambiguous for codex".to_string())
    );
    assert!(by_label(&[]).is_err());
    assert_eq!(
        resolve_existing_provider_account_selector(&two, "codex", " B@Example.com "),
        Ok(b.clone())
    );
    assert_eq!(
        resolve_existing_provider_account_selector(&two, "codex", &a.provider_account_id.0),
        Ok(a)
    );
    assert!(resolve_existing_provider_account_selector(&two, "codex", "nobody").is_err());
}

#[test]
fn subscription_change_requires_active_existing_subscription() {
    let account = upsert_provider_account(
        &[],
        "codex",
        None,
        Some("change@example.com"),
        None,
        at("2026-05-01T00:00:00Z"),
    )
    .expect("account");
    let accounts = vec![account.clone()];
    let subscriptions: Vec<Subscription> = vec![];
    let found = resolve_existing_provider_account(
        &accounts,
        "codex",
        Some(account.provider_account_id.0.as_str()),
        Some(&account),
        None,
        None,
    )
    .expect("known account");
    let error = change_subscription(
        &subscriptions,
        "codex",
        &found.provider_account_id,
        request("Pro", 20000, "2026-06-01T00:00:00Z"),
    )
    .expect_err("missing active subscription");

    assert!(error.contains("subscription change requires an active subscription"));
    assert!(subscriptions.is_empty());
    assert_eq!(accounts.len(), 1);
}

#[test]
fn scan_skips_full_scan_when_usage_and_verified_state_are_unchanged() {
    let state = hash_text("verified");
    let mut probe = SourceProbe {
        mode: SourceVerificationMode::Auto,
        stored_state: Some(&state),
        next_state: Some(&state),
        state_missing: false,
        has_verified_assignment: false,
        candidates: 0,
        pending: 0,
        replace: false,
        no_cache: false,
    };
    let plan = plan_source_scan(&probe);
    assert!(!plan.full_scan);
    assert!(!plan.verified_state_changed);
    assert!(!plan.legacy_reconciliation);
    let findings = SourceFindings {
        events: 0,
        summaries: 0,
        pending: 0,
        diagnostics: ScanDiagnostics::default(),
    };
    assert_eq!(source_outcome(&findings, &plan, false, false), SourceOutcome::Ignored);

    probe.next_state = None;
    let plan = plan_source_scan(&probe);
    assert!(plan.verified_state_changed);
    assert_eq!(source_outcome(&findings, &plan, false, false), SourceOutcome::Stored);
    assert_eq!(source_outcome(&findings, &plan, false, true), SourceOutcome::Previewed);

    probe.stored_state = None;
    probe.state_missing = true;
    probe.has_verified_assignment = true;
    assert!(plan_source_scan(&probe).legacy_reconciliation);
    probe.mode = SourceVerificationMode::ManualOnly;
    assert!(!plan_source_scan(&probe).legacy_reconciliation);
    probe.no_cache = true;
    assert!(plan_source_scan(&probe).full_scan);
}

#[test]
fn a_disabled_source_forgets_its_login() {
    let mut source = local_adapter(
        "codex",
        "test",
        "0",
        "/tmp/codex-disable-verification",
        LocationOrigin::Configured,
    );
    source.verified_state_hash = Some("verified-state".to_string());
    let mode = parse_source_verification_mode("disabled").unwrap();
    let now = at("2026-07-01T00:00:00Z");
    let source = set_verification_mode(source, mode, now);
    assert_eq!(source.verification_mode, SourceVerificationMode::Disabled);
    assert_eq!(source.verified_state_hash, None);
    assert_eq!(source.updated_at, now);
    assert!(parse_source_verification_mode("sometimes").is_err());
}

#[test]
fn subscription_change_closes_existing_period() {
    let account = provider_account_id("codex", "personal@example.com");
    let plus = add_subscription(
        &[],
        "codex",
        &account,
        request("Plus", 2000, "2026-05-01T00:00:00Z"),
    )
    .expect("subscription add");
    let (closed, pro) = change_subscription(
        &[plus],
        "codex",
        &account,
        request("Pro", 20000, "2026-06-01T00:00:00Z"),
    )
    .expect("subscription change");

    assert_eq!(closed.plan_name, "Plus");
    assert_eq!(closed.ended_at, Some(at("2026-06-01T00:00:00Z")));
    assert_eq!(pro.plan_name, "Pro");
    assert!(pro.ended_at.is_none());
    assert_eq!(pro.price, 20000);
}

#[test]
fn active_subscription_treats_legacy_verified_cycle_rows_as_current_periods() {
    let account_id = provider_account_id("codex", "verified@example.com");
    let started_at = at("2026-04-30T07:43:17Z");
    let period_end = at("2026-05-30T07:43:17Z");
    let stored = Subscription {
        schema_version: SUBSCRIPTION_SCHEMA_VERSION.to_string(),
        subscription_id: subscription_id("codex", &account_id, "Plus", started_at),
        provider: "codex".to_string(),
        provider_account_id: account_id.clone(),
        plan_name: "Plus".to_string(),
        price: 2000,
        currency: "USD".to_string(),
        billing_period: BillingPeriod::Monthly,
        paid_at: Some(started_at),
        renewal_day: Some(30),
        started_at,
        ended_at: Some(period_end),
        current_period_ends_at: Some(period_end),
        status: SubscriptionStatus::Active,
        record_source: IdentitySource::LocalAuth,
        verified_at: Some(at("2026-05-03T10:54:50Z")),
        notes: None,
    };

    let active = active_subscription(
        &[stored],
        "codex",
        &account_id,
        Some("Plus"),
        at("2026-06-01T00:00:00Z"),
    )
    .expect("active subscription");

    assert_eq!(active.provider_account_id, account_id);
    assert_eq!(active.plan_name, "Plus");
}

#[test]
fn subscriptions_are_ended_removed_and_moved() {
    let account = provider_account_id("codex", "personal@example.com");
    let other = provider_account_id("codex", "other@example.com");
    let may = at("2026-05-01T00:00:00Z");
    let june = at("2026-06-01T00:00:00Z");
    let plus = add_subscription(
        &[],
        "codex",
        &account,
        request("Plus", 2000, "2026-05-01T00:00:00Z"),
    )
    .unwrap();
    let all = [plus.clone()];
    assert!(add_subscription(
        &all,
        "codex",
        &account,
        request("Pro", 2000, "2026-07-01T00:00:00Z")
    )
    .is_err());
    let ended = end_active_subscription(&all, "codex", &account, june).unwrap();
    assert_eq!(ended.ended_at, Some(june));
    assert!(end_active_subscription(&[], "codex", &account, june).is_err());
    assert_eq!(close_active_subscription(&[], "codex", &account, june), Ok(None));
    assert_eq!(
        subscription_for_period(&all, "codex", &account, may, None),
        Ok(plus.clone())
    );
    assert!(subscription_for_period(&all, "codex", &account, june, None).is_err());
    assert_eq!(
        subscription_to_remove(&all, "codex", &account, None, None, true, june),
        Ok(plus.clone())
    );
    assert_eq!(
        subscription_to_remove(&all, "codex", &account, Some("Plus"), Some(may), false, june),
        Ok(plus.clone())
    );
    let moved = move_subscription_to_account(&all, &plus, &other).unwrap();
    assert!(moved.delete_old && moved.write);
    assert_eq!(moved.subscription.provider_account_id, other);
    assert_eq!(
        moved.subscription.subscription_id,
        subscription_id("codex", &other, "Plus", may)
    );
}

#[test]
fn preview_path_label_abbreviates_home_paths() {
    let home = "/home/someone";
    let source = local_adapter(
        "codex",
        "test",
        "0",
        &format!("{home}/.codex"),
        LocationOrigin::Default,
    );

    assert!(preview_path_label(&source, Some(home)).starts_with("~/.codex"));
    assert_eq!(preview_path_label(&source, None), "/home/someone/.codex");
}

#[test]
fn default_sources_are_found_by_their_hash() {
    let home = "/home/someone";
    let candidates: Vec<DefaultPath> = default_source_paths("codex", home)
        .into_iter()
        .map(|path| DefaultPath {
            hash: path_hash(&path, None, Some(home)),
            path,
        })
        .collect();
    assert_eq!(candidates.len(), 1);
    assert_eq!(candidates[0].path, "/home/someone/.codex");
    assert_eq!(
        default_source_paths("claude_code", home),
        vec![
            format!("/home/someone/.config/{}/projects", word("")),
            format!("/home/someone/.{}/projects", word("")),
        ]
    );
    let mut source = local_adapter("codex", "test", "0", "/x", LocationOrigin::Default);
    source.path_hash = Some(candidates[0].hash.clone());
    source.path_label = None;
    assert_eq!(
        path_label_from_hashless_source(&source, &candidates),
        Some("/home/someone/.codex".to_string())
    );
    source.location_origin = LocationOrigin::Configured;
    assert_eq!(path_label_from_hashless_source(&source, &candidates), None);
}

#[test]
fn sources_are_referred_to_by_identifier_or_path() {
    let source = local_adapter("codex", "test", "0", "/tmp/codex", LocationOrigin::Configured);
    let all = [source.clone()];
    assert_eq!(
        resolve_source_reference(&all, Some(&source.source_id.0), None),
        Ok(source.clone())
    );
    let hash = source.path_hash.clone().unwrap();
    assert_eq!(
        resolve_source_reference(&all, None, Some(("/tmp/codex", &hash))),
        Ok(source)
    );
    assert!(resolve_source_reference(&all, Some("none"), None).is_err());
    assert!(resolve_source_reference(&all, None, None).is_err());
}

#[test]
fn http_sync_uses_configured_or_default_api_endpoint() {
    let endpoint = http_sync_endpoint(None, "https://sync.example.com");

    assert_eq!(endpoint, "https://sync.example.com/api/sync/batches");
    assert_eq!(
        http_sync_endpoint(Some("https://own.example/batches"), "https://sync.example.com"),
        "https://own.example/batches"
    );
}

fn rollup_batch(source: &SourceLocation, rollups: &[UsageSummary]) -> SyncBatch {
    let now = at("2026-05-29T12:00:00Z");
    let mode = sync_payload_mode("http");
    let events = [test_event("codex", source, now, None, TokenParts::total(15))];
    let records = sync_records(
        mode,
        std::slice::from_ref(source),
        &[],
        &[],
        &[],
        &events,
        rollups,
    );
    build_sync_batch(mode, "device", now, now, records, rollups)
}

#[test]
fn http_sync_builds_rollup_batches_without_raw_events() {
    let source = local_adapter(
        "codex",
        "test",
        "0",
        "/tmp/codex-http-rollups",
        LocationOrigin::Configured,
    );
    let now = at("2026-05-29T12:00:00Z");
    let event = test_event(
        "codex",
        &source,
        now,
        Some(provider_account_id("codex", "personal")),
        TokenParts {
            input: 10,
            output: 5,
            cached_input: 0,
            reasoning: 0,
            total: 15,
            cost: Some(10),
        },
    );
    let rollups = build_sync_rollup_stats_summaries(&[event], "device", now);
    let batch = rollup_batch(&source, &rollups);

    assert_eq!(sync_payload_mode("http"), SyncPayloadMode::Rollups);
    assert!(batch.events.is_empty());
    assert!(!batch.summaries.is_empty());
    assert!(batch.summaries.iter().all(is_daily_rollup_summary));
    let (passed, rolled) = sent_summaries(&batch.summaries);
    assert!(passed.is_empty());
    assert_eq!(rolled.len(), 1);
}

#[test]
fn first_http_incremental_sync_sends_full_rollup_history_for_new_target() {
    // A target that nothing was sent to gets everything, however little changed.
    assert!(is_full_rollup_sync(true, false));
    assert!(!is_full_rollup_sync(true, true));
    assert!(is_full_rollup_sync(false, true));
    assert_eq!(rollup_preparation(false, true, 3, 3), RollupPreparation::Rebuild);
    assert_eq!(rollup_preparation(false, false, 0, 3), RollupPreparation::Bootstrap);
    assert_eq!(rollup_preparation(false, false, 1, 3), RollupPreparation::Nothing);
    assert_eq!(rollup_preparation(true, true, 0, 3), RollupPreparation::Nothing);
}

#[test]
fn sent_batches_are_of_the_device_and_hold_no_events() {
    let source = local_adapter(
        "codex",
        "test",
        "0",
        "/tmp/codex-http-parts",
        LocationOrigin::Configured,
    );
    let now = at("2026-05-29T10:12:43Z");
    let event = test_event("codex", &source, now, None, TokenParts::total(15));
    let summaries: Vec<_> = (0..=HTTP_ROLLUP_SUMMARIES_PER_BATCH)
        .map(|index| {
            let mut summary = test_summary("codex", &source, days(now, index as i64), 10, None);
            summary.summary_id = SummaryId(format!("summary-{index}"));
            summary
        })
        .collect();
    let batch = SyncBatch {
        summaries,
        events: vec![event],
        ..empty_batch("batch_parts", now)
    };
    let parts = split_http_rollup_sync_batches(&batch);
    assert!(parts.len() > 1);
    for part in &parts {
        assert_eq!(part.device_id, batch.device_id);
        assert_eq!(part.schema_version, batch.schema_version);
        assert_eq!(part.created_at, batch.created_at);
        assert!(part.events.is_empty());
        assert_eq!(logical_http_rollup_batch_id(&part.batch_id), "batch_parts");
    }
    let summaries: usize = parts.iter().map(|part| part.summaries.len()).sum();
    assert_eq!(summaries, HTTP_ROLLUP_SUMMARIES_PER_BATCH + 1);
}

#[test]
fn a_period_to_remove_is_named_in_one_way() {
    assert_eq!(check_period_choice(true, false), Ok(()));
    assert_eq!(check_period_choice(false, true), Ok(()));
    for both in [true, false] {
        assert_eq!(
            check_period_choice(both, both),
            Err("pass either --started-at or --current".to_string())
        );
    }
}

#[test]
fn http_rollup_sync_splits_large_summary_batches() {
    let source = local_adapter(
        "codex",
        "test",
        "0",
        "/tmp/codex-http-chunks",
        LocationOrigin::Configured,
    );
    let now = at("2026-05-29T10:12:43Z");
    let summaries: Vec<_> = (0..(HTTP_ROLLUP_SUMMARIES_PER_BATCH * 2 + 4))
        .map(|index| {
            let mut summary = test_summary("codex", &source, days(now, index as i64), 10, None);
            summary.summary_id = SummaryId(format!("summary-{index}"));
            summary
        })
        .collect();
    let batch = SyncBatch {
        sources: vec![source.clone()],
        summaries,
        ..empty_batch("batch_large", now)
    };

    let chunks = split_http_rollup_sync_batches(&batch);

    assert_eq!(chunks.len(), 4);
    assert_eq!(chunks[0].batch_id, "batch_large_sources_1");
    assert_eq!(chunks[1].batch_id, "batch_large_part_1_of_3");
    assert_eq!(chunks[2].batch_id, "batch_large_part_2_of_3");
    assert_eq!(chunks[3].batch_id, "batch_large_part_3_of_3");
    assert!(chunks[0].summaries.is_empty());
    assert_eq!(chunks[1].summaries.len(), HTTP_ROLLUP_SUMMARIES_PER_BATCH);
    assert_eq!(chunks[2].summaries.len(), HTTP_ROLLUP_SUMMARIES_PER_BATCH);
    assert_eq!(chunks[3].summaries.len(), 4);
    assert_eq!(chunks[0].sources.len(), 1);
    assert!(chunks[1].sources.is_empty());
    assert!(chunks[2].sources.is_empty());
    assert!(chunks[3].sources.is_empty());
    assert!(chunks.iter().all(|chunk| chunk.events.is_empty()));
    assert!(chunks
        .iter()
        .all(|chunk| logical_http_rollup_batch_id(&chunk.batch_id) == "batch_large"));
}

fn empty_batch(batch_id: &str, now: Timestamp) -> SyncBatch {
    SyncBatch {
        schema_version: SYNC_BATCH_SCHEMA_VERSION.to_string(),
        batch_id: batch_id.to_string(),
        device_id: "device".to_string(),
        sources: vec![],
        accounts: vec![],
        source_account_assignments: vec![],
        subscriptions: vec![],
        events: vec![],
        summaries: vec![],
        created_at: now,
    }
}

#[test]
fn http_rollup_sync_splits_metadata_away_from_summaries() {
    let now = at("2026-05-29T10:12:43Z");
    let sources: Vec<_> = (0..17)
        .map(|index| {
            local_adapter(
                "codex",
                &format!("test-{index}"),
                "0",
                "/tmp/codex-http-metadata",
                LocationOrigin::Configured,
            )
        })
        .collect();
    let accounts: Vec<_> = (0..7)
        .map(|index| {
            test_account(
                "codex",
                Some(&format!("account-{index}")),
                None,
                None,
                Some("Pro"),
                now,
            )
        })
        .collect();
    let assignments: Vec<_> = (0..16)
        .map(|index| {
            test_assignment(
                &sources[index],
                &accounts[index % accounts.len()].provider_account_id,
                days(now, index as i64),
                None,
                now,
            )
        })
        .collect();
    let subscriptions: Vec<_> = accounts
        .iter()
        .take(3)
        .enumerate()
        .map(|(index, account)| Subscription {
            schema_version: SUBSCRIPTION_SCHEMA_VERSION.to_string(),
            subscription_id: subscription_id(
                "codex",
                &account.provider_account_id,
                &format!("pro-{index}"),
                now,
            ),
            provider: "codex".to_string(),
            provider_account_id: account.provider_account_id.clone(),
            plan_name: "Pro".to_string(),
            price: 2000,
            currency: "USD".to_string(),
            billing_period: BillingPeriod::Monthly,
            paid_at: None,
            renewal_day: None,
            started_at: now,
            ended_at: None,
            current_period_ends_at: None,
            status: SubscriptionStatus::Active,
            record_source: IdentitySource::UserConfigured,
            verified_at: None,
            notes: None,
        })
        .collect();
    let summaries: Vec<_> = (0..HTTP_ROLLUP_SUMMARIES_PER_BATCH)
        .map(|index| {
            let mut summary = test_summary(
                "codex",
                &sources[index % sources.len()],
                days(now, index as i64),
                10,
                Some(accounts[index % accounts.len()].provider_account_id.clone()),
            );
            summary.summary_id = SummaryId(format!("summary-{index}"));
            summary
        })
        .collect();
    let batch = SyncBatch {
        sources,
        accounts,
        source_account_assignments: assignments,
        subscriptions,
        summaries,
        ..empty_batch("batch_metadata", now)
    };

    let chunks = split_http_rollup_sync_batches(&batch);

    assert_eq!(chunks.len(), 5);
    assert_eq!(chunks[0].batch_id, "batch_metadata_sources_1");
    assert_eq!(chunks[1].batch_id, "batch_metadata_accounts_1");
    assert_eq!(chunks[2].batch_id, "batch_metadata_assignments_1");
    assert_eq!(chunks[3].batch_id, "batch_metadata_subscriptions_1");
    assert_eq!(chunks[4].batch_id, "batch_metadata_part_1_of_1");
    assert_eq!(chunks[0].sources.len(), 17);
    assert_eq!(chunks[1].accounts.len(), 7);
    assert_eq!(chunks[2].source_account_assignments.len(), 16);
    assert_eq!(chunks[3].subscriptions.len(), 3);
    assert_eq!(chunks[4].summaries.len(), HTTP_ROLLUP_SUMMARIES_PER_BATCH);
    assert!(chunks[..4].iter().all(|chunk| chunk.summaries.is_empty()));
    assert!(chunks[4].sources.is_empty());
    assert!(chunks[4].accounts.is_empty());
    assert!(chunks[4].source_account_assignments.is_empty());
    assert!(chunks[4].subscriptions.is_empty());
    assert!(chunks.iter().all(|chunk| chunk.events.is_empty()));
}

/// Sends a batch to a server that refuses more than two summaries at once, and
/// lists what it was sent.
fn observed_requests(batch: &SyncBatch) -> Vec<(String, usize)> {
    let mut observed = Vec::new();
    let mut queue = SendQueue::new(batch, SyncPayloadMode::Rollups);
    while let Some(next) = queue.next() {
        observed.push((next.batch_id.clone(), next.summaries.len()));
        if next.summaries.len() > 2 {
            let message = r#"HTTP sync failed (HTTP 413): {"error":"sync_batch_d1_query_budget_exceeded","estimatedQueries":53,"maxQueries":45}"#;
            assert_eq!(queue.refused(message), Some(2));
        } else {
            queue.accepted();
        }
    }
    observed
}

#[test]
fn http_rollup_sync_retries_smaller_batches_after_budget_rejection() {
    let source = local_adapter(
        "codex",
        "test",
        "0",
        "/tmp/codex-http-rollup-retry",
        LocationOrigin::Configured,
    );
    let now = at("2026-05-29T10:12:43Z");
    let summaries: Vec<_> = (0..4)
        .map(|index| {
            let mut summary = test_summary("codex", &source, days(now, index as i64), 10, None);
            summary.summary_id = SummaryId(format!("summary-{index}"));
            summary.metadata.summary_format = "daily_rollup.v1".to_string();
            summary
        })
        .collect();
    let batch = SyncBatch {
        summaries,
        ..empty_batch("batch_retry", now)
    };

    assert_eq!(
        observed_requests(&batch),
        vec![
            ("batch_retry".to_string(), 4),
            ("batch_retry_part_1_of_2".to_string(), 2),
            ("batch_retry_part_2_of_2".to_string(), 2),
        ]
    );
    assert_eq!(retry_batches(&batch, "HTTP 500: broken"), None);
    let mut queue = SendQueue::new(&batch, SyncPayloadMode::Rollups);
    assert_eq!(queue.refused("HTTP 500: broken"), None);
    assert_eq!(queue.waiting.len(), 1);
    let raw = SendQueue::new(&batch, SyncPayloadMode::Raw);
    assert_eq!(raw.waiting, vec![batch.clone()]);
    let single = SyncBatch {
        summaries: batch.summaries[..1].to_vec(),
        ..empty_batch("batch_single", now)
    };
    assert_eq!(
        retry_batches(&single, "sync_batch_d1_query_budget_exceeded"),
        None
    );
}

#[test]
fn http_rollup_metadata_budget_retries_preserve_all_metadata_kinds() {
    let now = at("2026-05-29T10:12:43Z");
    let sources: Vec<_> = (0..4)
        .map(|index| {
            local_adapter(
                "codex",
                &format!("retry-source-{index}"),
                "0",
                "/tmp/codex-http-metadata-retry",
                LocationOrigin::Configured,
            )
        })
        .collect();
    let accounts: Vec<_> = (0..3)
        .map(|index| {
            test_account(
                "codex",
                Some(&format!("retry-account-{index}")),
                None,
                None,
                Some("Pro"),
                now,
            )
        })
        .collect();
    let batch = SyncBatch {
        sources: sources.clone(),
        accounts: accounts.clone(),
        ..empty_batch("batch_metadata_retry", now)
    };

    let chunks = split_http_rollup_sync_batch_after_budget_error(&batch);

    assert_eq!(chunks.len(), 4);
    assert_eq!(
        chunks
            .iter()
            .map(|chunk| chunk.sources.len())
            .sum::<usize>(),
        sources.len()
    );
    assert_eq!(
        chunks
            .iter()
            .map(|chunk| chunk.accounts.len())
            .sum::<usize>(),
        accounts.len()
    );
    assert!(chunks
        .iter()
        .all(|chunk| chunk.source_account_assignments.is_empty()));
    assert!(chunks.iter().all(|chunk| chunk.subscriptions.is_empty()));
    assert!(chunks.iter().all(|chunk| chunk.summaries.is_empty()));
    assert!(chunks.iter().all(|chunk| chunk.events.is_empty()));
    assert!(chunks.iter().any(|chunk| !chunk.sources.is_empty()));
    assert!(chunks.iter().any(|chunk| !chunk.accounts.is_empty()));
}

#[test]
fn http_rollup_sync_proactively_splits_batches_to_fit_d1_budget() {
    let source = local_adapter(
        "codex",
        "test",
        "0",
        "/tmp/codex-http-rollup-budget",
        LocationOrigin::Configured,
    );
    let now = at("2026-05-29T10:12:43Z");
    let summaries: Vec<_> = (0..HTTP_ROLLUP_SUMMARIES_PER_BATCH)
        .map(|index| {
            let mut summary =
                test_summary("codex", &source, days(now, (index * 31) as i64), 10, None);
            summary.summary_id = SummaryId(format!("summary-budget-{index}"));
            summary.project = Some(ProjectInfo {
                project_id: format!("project-budget-{index}"),
                project_label: Some(format!("Project {index}")),
                repo_remote_hash: None,
                repo_label: None,
                branch_hash: None,
                branch_label: None,
                path_hash: Some(format!("path-hash-{index}")),
                path_label: Some(format!("/tmp/project-{index}")),
            });
            summary
        })
        .collect();
    let batch = SyncBatch {
        summaries,
        ..empty_batch("batch_budget", now)
    };

    let chunks = split_http_rollup_sync_batches(&batch);

    assert_eq!(chunks.len(), 4);
    assert_eq!(
        chunks
            .iter()
            .map(|chunk| chunk.summaries.len())
            .sum::<usize>(),
        25
    );
    assert!(chunks.iter().all(|chunk| chunk.sources.is_empty()));
    assert!(chunks
        .iter()
        .all(|chunk| estimate_http_rollup_d1_queries(chunk) <= HTTP_ROLLUP_D1_QUERY_BUDGET));
    assert_eq!(
        chunks
            .iter()
            .map(|chunk| chunk.summaries.len())
            .collect::<Vec<_>>(),
        vec![7, 6, 6, 6]
    );
}

#[test]
fn remote_sync_batch_match_requires_same_last_batch_id() {
    let local = "batch_1_part_2_of_2";
    let matches = |body: &str| {
        remote_sync_batch_matches_local_state(&remote_sync_status(body).unwrap(), local)
    };

    assert!(matches(r#"{"device": {"last_sync_batch_id": "batch_1"}}"#));
    assert!(!matches(r#"{"device": {"last_sync_batch_id": null}}"#));
    assert!(!matches(r#"{"device": {"last_sync_batch_id": "batch_2"}}"#));
    assert!(remote_sync_status("not JSON").is_none());
}

#[test]
fn logical_http_rollup_batch_id_strips_known_chunk_suffixes() {
    assert_eq!(
        logical_http_rollup_batch_id("batch_1_part_11_of_11"),
        "batch_1"
    );
    assert_eq!(
        logical_http_rollup_batch_id("batch_1_part_11_of_11_part_1_of_2"),
        "batch_1"
    );
    assert_eq!(logical_http_rollup_batch_id("batch_1_sources_1"), "batch_1");
    assert_eq!(
        logical_http_rollup_batch_id("batch_1_part_3_of_9_sources_1"),
        "batch_1"
    );
    assert_eq!(
        logical_http_rollup_batch_id("batch_1_subscriptions_2"),
        "batch_1"
    );
    assert_eq!(logical_http_rollup_batch_id("batch_1"), "batch_1");
    assert_eq!(
        logical_http_rollup_batch_id("batch_1_part_final"),
        "batch_1_part_final"
    );
}

/// The records that are not among those already sent.
fn pending<T: PartialEq + Clone>(records: &[T], sent: &[T]) -> Vec<T> {
    records
        .iter()
        .filter(|record| !sent.contains(record))
        .cloned()
        .collect()
}

#[test]
fn full_http_sync_resends_metadata_after_tracking_is_cleared() {
    let started_at = at("2026-05-29T10:12:43Z");
    let mode = SyncPayloadMode::Rollups;
    let source = local_adapter(
        "codex",
        "test",
        "0",
        "/tmp/codex-http-reset-tracking",
        LocationOrigin::Configured,
    );
    let account = test_account(
        "codex",
        None,
        Some("verified@example.com"),
        Some("acct-real"),
        Some("Plus"),
        started_at,
    );
    let id = account.provider_account_id.clone();
    let assignment = test_assignment(&source, &id, started_at, None, started_at);
    let subscription = add_subscription(
        &[],
        "codex",
        &id,
        request("Plus", 2000, "2026-05-29T10:12:43Z"),
    )
    .unwrap();
    let event = test_event(
        "codex",
        &source,
        at("2026-05-29T11:12:43Z"),
        Some(id),
        TokenParts {
            input: 10,
            output: 5,
            cached_input: 0,
            reasoning: 0,
            total: 15,
            cost: Some(10),
        },
    );
    let rollups = build_sync_rollup_stats_summaries(&[event], "device", started_at);
    let sources = [source];
    let accounts = [account];
    let assignments = [assignment];
    let subscriptions = [subscription];
    let records = || {
        sync_records(
            mode,
            &sources,
            &accounts,
            &assignments,
            &subscriptions,
            &[],
            &[],
        )
    };
    let initial = build_sync_batch(mode, "device", started_at, started_at, records(), &rollups);

    // What was sent is all that would be sent again.
    let next = records();
    assert_eq!(pending(&next.sources, &initial.sources).len(), 0);
    assert_eq!(pending(&next.accounts, &initial.accounts).len(), 0);
    let sent = PendingCounts {
        sources: pending(&next.sources, &initial.sources).len(),
        accounts: pending(&next.accounts, &initial.accounts).len(),
        source_account_assignments: pending(
            &next.source_account_assignments,
            &initial.source_account_assignments,
        )
        .len(),
        subscriptions: pending(&next.subscriptions, &initial.subscriptions).len(),
        passthrough_summaries: pending(&next.summaries, &initial.summaries).len(),
        rollups: 0,
        dirty_rollups: 0,
    };
    let local = sync_local_verify(
        None,
        &sources,
        &accounts,
        &assignments,
        &subscriptions,
        &[],
        &rollups,
        sent,
    );
    assert_eq!(local.pending_source_account_assignments, 0);
    assert_eq!(local.pending_subscriptions, 0);
    let remote = remote_sync_status(&format!(
        r#"{{
            "device": {{"last_sync_batch_id": "{}"}},
            "mirrorCounts": {{
                "sources": 0,
                "accounts": 0,
                "source_account_assignments": 0,
                "subscriptions": 0,
                "summaries": 0,
                "sync_batches": 1
            }}
        }}"#,
        initial.batch_id
    ))
    .unwrap();
    assert_eq!(
        remote_metadata_gap_reason(&remote, &local).as_deref(),
        Some("sources 0<1, accounts 0<1, source_account_assignments 0<1, subscriptions 0<1")
    );
    assert!(tracking_reset_reason(&remote, &initial.batch_id, &local).is_some());

    // Once nothing counts as sent, everything is sent again.
    let again = records();
    assert_eq!(pending(&again.sources, &[]).len(), 1);
    let batch = build_sync_batch(mode, "device", started_at, started_at, again, &rollups);
    assert_eq!(batch.sources.len(), 1);
    assert_eq!(batch.accounts.len(), 1);
    assert_eq!(batch.source_account_assignments.len(), 1);
    assert_eq!(batch.subscriptions.len(), 1);
    assert_eq!(batch.summaries.len(), 1);
    assert!(is_daily_rollup_summary(&batch.summaries[0]));
}

#[test]
fn http_verify_status_url_points_at_worker_status_endpoint() {
    assert_eq!(
        http_verify_status_url("https://api.example.com/api/sync/batches").expect("status"),
        "https://api.example.com/api/sync/status"
    );
}

#[test]
fn http_reset_url_points_at_worker_reset_endpoint() {
    assert_eq!(
        http_reset_url("https://api.example.com/api/sync/batches").expect("reset"),
        "https://api.example.com/api/sync/reset"
    );
}

#[test]
fn endpoints_of_another_shape_are_refused() {
    assert!(http_verify_status_url("https://api.example.com/other").is_err());
    assert!(http_reset_url("https://api.example.com/other").is_err());
}

#[test]
fn sync_options_decide_what_is_done() {
    assert_eq!(sync_action(true, false, false), Ok(SyncAction::ResetRemote));
    assert_eq!(sync_action(false, true, false), Ok(SyncAction::ShowStatus));
    assert_eq!(sync_action(false, false, true), Ok(SyncAction::Verify));
    assert_eq!(sync_action(false, false, false), Ok(SyncAction::Send));
    assert_eq!(sink_kind("file"), Ok(SinkKind::File));
    assert!(sink_kind("pigeon").is_err());
    assert_eq!(reset_action("http", true, false), Ok(ResetAction::Preview));
    assert_eq!(reset_action("http", false, true), Ok(ResetAction::Perform));
    assert!(reset_action("http", false, false).is_err());
    assert!(reset_action("file", true, true).is_err());
    assert_eq!(
        explicit_auth_token(Some(" "), Some("environment")),
        Some("environment".to_string())
    );
    assert_eq!(
        explicit_auth_token(Some("flag"), Some("environment")),
        Some("flag".to_string())
    );
    assert!(stored_auth_token(None, true).is_err());
    assert_eq!(stored_auth_token(None, false), Ok(None));
    assert_eq!(sync_target("stdout", None, None, "https://a"), "stdout");
    assert_eq!(format_cursor(None, None), "none");
}

#[test]
fn no_cache_scan_reselects_unchanged_files() {
    let entries = vec![
        ScanFileStateEntry {
            cache_key: "/tmp/a.jsonl".to_string(),
            cache_signature: "sig-a-1".to_string(),
        },
        ScanFileStateEntry {
            cache_key: "/tmp/b.jsonl".to_string(),
            cache_signature: "sig-b-1".to_string(),
        },
    ];

    let initial = select_scan_file_entries(&entries, &entries, false, false);
    assert_eq!(initial, entries);

    let default_selection = select_scan_file_entries(&entries, &[], false, false);
    assert!(default_selection.is_empty());

    let no_cache_selection = select_scan_file_entries(&entries, &[], false, true);
    assert_eq!(no_cache_selection, entries);

    let replace_selection = select_scan_file_entries(&entries, &[], true, false);
    assert_eq!(replace_selection, entries);
}

#[test]
fn all_files_are_recorded_where_all_were_read() {
    let entry = |name: &str| ScanFileStateEntry {
        cache_key: format!("/tmp/{name}.jsonl"),
        cache_signature: format!("sig-{name}"),
    };
    let all = vec![entry("a"), entry("b")];
    let pending = vec![entry("b")];
    assert_eq!(entries_to_record(&all, &pending, false, false), pending);
    assert_eq!(entries_to_record(&all, &pending, true, false), all);
    assert_eq!(entries_to_record(&all, &pending, false, true), all);
    assert_eq!(entries_to_record(&all, &pending, true, true), all);
}

#[test]
fn full_source_rescan_replaces_existing_source_records() {
    assert!(should_replace_source_records_for_scan(false, true, 2, 2));
    assert!(should_replace_source_records_for_scan(true, false, 0, 0));
    assert!(!should_replace_source_records_for_scan(false, true, 2, 1));
    assert!(!should_replace_source_records_for_scan(false, true, 0, 0));
    assert!(!should_replace_source_records_for_scan(false, false, 2, 2));
}

#[test]
fn http_verify_pending_counts_match_sanitized_sync_payloads() {
    let now = at("2026-05-29T10:12:43Z");
    let source = local_adapter(
        "codex",
        "test",
        "0",
        "/tmp/codex-verify-pending",
        LocationOrigin::Configured,
    );
    let account = ProviderAccount {
        schema_version: PROVIDER_ACCOUNT_SCHEMA_VERSION.to_string(),
        provider_account_id: provider_account_id("codex", "personal"),
        provider: "codex".to_string(),
        identity_source: IdentitySource::ManualHint,
        provider_user_id: None,
        provider_user_id_hash: None,
        email: None,
        email_hash: None,
        org_id_hash: None,
        account_label: Some("personal".to_string()),
        plan_name: Some("Pro".to_string()),
        confidence: Confidence::High,
        verified_at: None,
        created_at: now,
        updated_at: now,
    };
    let mut subscription = add_subscription(
        &[],
        "codex",
        &account.provider_account_id,
        request("Pro", 2000, "2026-05-29T10:12:43Z"),
    )
    .unwrap();
    subscription.notes = Some("private note".to_string());
    let summary = test_summary(
        "codex",
        &source,
        now,
        42,
        Some(account.provider_account_id.clone()),
    );

    let sources = [source];
    let accounts = [account];
    let subscriptions = [subscription];
    let summaries = [summary];
    let records = sync_records(
        SyncPayloadMode::Rollups,
        &sources,
        &accounts,
        &[],
        &subscriptions,
        &[],
        &summaries,
    );
    assert_eq!(records.sources, [sanitize_source_for_sync(sources[0].clone())]);
    assert_eq!(records.accounts, [sanitize_account_for_sync(accounts[0].clone())]);
    assert_eq!(
        records.subscriptions,
        [sanitize_subscription_for_sync(subscriptions[0].clone())]
    );
    assert_eq!(records.subscriptions[0].notes, None);
    assert_eq!(
        passthrough_summaries(&summaries),
        [sanitize_summary_for_sync(summaries[0].clone())]
    );

    let local = sync_local_verify(
        None,
        &sources,
        &accounts,
        &[],
        &subscriptions,
        &summaries,
        &[],
        PendingCounts {
            sources: 0,
            accounts: 0,
            source_account_assignments: 0,
            subscriptions: 0,
            passthrough_summaries: 0,
            rollups: 0,
            dirty_rollups: 0,
        },
    );
    assert_eq!(local.pending_sources, 0);
    assert_eq!(local.pending_accounts, 0);
    assert_eq!(local.pending_source_account_assignments, 0);
    assert_eq!(local.pending_subscriptions, 0);
    assert_eq!(local.total_passthrough_summaries, 1);
    assert_eq!(local.pending_passthrough_summaries, 0);
}

#[test]
fn sanitize_account_for_sync_preserves_user_configured_label() {
    let now = at("2026-05-29T10:12:43Z");
    let account = ProviderAccount {
        schema_version: PROVIDER_ACCOUNT_SCHEMA_VERSION.to_string(),
        provider_account_id: provider_account_id("codex", "personal"),
        provider: "codex".to_string(),
        identity_source: IdentitySource::UserConfigured,
        provider_user_id: None,
        provider_user_id_hash: None,
        email: None,
        email_hash: None,
        org_id_hash: None,
        account_label: Some("personal".to_string()),
        plan_name: Some("Pro".to_string()),
        confidence: Confidence::Medium,
        verified_at: None,
        created_at: now,
        updated_at: now,
    };

    let sanitized = sanitize_account_for_sync(account);
    assert_eq!(sanitized.account_label.as_deref(), Some("personal"));
    assert_eq!(sanitized.plan_name, None);
}

#[test]
fn sync_rollup_stats_summaries_roll_up_events_by_day_and_account() {
    let source = local_adapter(
        "codex",
        "test",
        "0",
        "/tmp/codex-sync-rollup-stats",
        LocationOrigin::Configured,
    );
    let account = provider_account_id("codex", "personal");
    let day1_a = at("2026-05-20T10:00:00Z");
    let day1_b = at("2026-05-20T11:00:00Z");
    let day2 = at("2026-05-21T09:00:00Z");

    let summaries = build_sync_rollup_stats_summaries(
        &[
            test_event(
                "codex",
                &source,
                day1_a,
                Some(account.clone()),
                TokenParts {
                    input: 10,
                    output: 5,
                    cached_input: 0,
                    reasoning: 0,
                    total: 15,
                    cost: Some(10),
                },
            ),
            test_event(
                "codex",
                &source,
                day1_b,
                Some(account.clone()),
                TokenParts {
                    input: 20,
                    output: 10,
                    cached_input: 0,
                    reasoning: 0,
                    total: 30,
                    cost: Some(30),
                },
            ),
            test_event(
                "codex",
                &source,
                day2,
                Some(account),
                TokenParts {
                    input: 7,
                    output: 3,
                    cached_input: 0,
                    reasoning: 0,
                    total: 10,
                    cost: Some(5),
                },
            ),
        ],
        "device",
        day2,
    );

    assert_eq!(summaries.len(), 2);
    let total_tokens: u64 = summaries
        .iter()
        .map(|summary| summary.usage.total_tokens.unwrap_or(0))
        .sum();
    assert_eq!(total_tokens, 55);
    assert!(summaries
        .iter()
        .all(|summary| summary.metadata.summary_format == "daily_rollup.v1"));
    let requests: u64 = summaries.iter().filter_map(|s| s.usage.requests).sum();
    assert_eq!(requests, 3);
    assert_eq!(summaries[0].cost.estimated_api_equivalent_usd, Some(40));
    assert_eq!(summaries[0].observed_at, day1_b);
    assert_eq!(summaries[0].period_start, Some(at("2026-05-20T00:00:00Z")));
    assert_eq!(summaries[0].period_end, Some(at("2026-05-21T00:00:00Z")));
}

/// Merges `from` into `to`, both of them codex accounts.
fn merge(
    records: &mut AccountRecords,
    sources: &[SourceLocation],
    accounts: &[ProviderAccount],
    from: &str,
    to: &str,
    dry_run: bool,
) -> Result<AccountMergeReport, String> {
    let now = at("2026-06-01T12:00:00Z");
    merge_provider_accounts(accounts, sources, records, "codex", from, to, dry_run, now)
}

fn unknown_evidence(source: &SourceLocation, record: &str) -> Option<ParseEvidence> {
    Some(ParseEvidence {
        event_key_version: "test".to_string(),
        source_file_path_hash: source.path_hash.clone(),
        source_line_number: None,
        source_record_id: Some(record.to_string()),
        model_inferred: false,
        timestamp_inferred: false,
        account_identity_source: IdentitySource::Unknown,
    })
}

#[test]
fn merge_provider_accounts_moves_source_records_and_prunes_alias() {
    let source = local_adapter(
        "codex",
        "codex-local-jsonl",
        "0",
        "/tmp/.codex-work",
        LocationOrigin::Configured,
    );
    let now = at("2026-06-01T12:00:00Z");
    let alias = test_account("codex", Some("work"), None, None, None, now);
    let canonical = test_account(
        "codex",
        None,
        Some("verified@example.com"),
        Some("11111111-2222-4333-8444-555555555555"),
        Some("Plus"),
        now,
    );
    let assignment = test_assignment(
        &source,
        &alias.provider_account_id,
        days(now, -40),
        None,
        now,
    );
    let mut event = test_event(
        "codex",
        &source,
        days(now, -2),
        Some(alias.provider_account_id.clone()),
        TokenParts::total(120),
    );
    event.parse_evidence = unknown_evidence(&source, "event");
    let mut summary = test_summary(
        "codex",
        &source,
        now,
        300,
        Some(alias.provider_account_id.clone()),
    );
    summary.parse_evidence = unknown_evidence(&source, "summary");
    let mut records = AccountRecords {
        assignments: vec![assignment],
        subscriptions: vec![],
        events: vec![event],
        summaries: vec![summary],
    };

    let accounts = [alias.clone(), canonical.clone()];
    let report = merge(
        &mut records,
        &[source.clone()],
        &accounts,
        "work",
        "verified@example.com",
        false,
    )
    .expect("merge");

    assert_eq!(report.moved_source_account_assignments, 1);
    assert_eq!(report.moved_subscriptions, 0);
    assert_eq!(report.moved_events, 1);
    assert_eq!(report.moved_summaries, 1);
    assert!(report.deleted_source_account);
    assert!(report.reset_local_sync_tracking);
    assert_eq!(report.remaining_references.total(), 0);

    assert_eq!(records.assignments.len(), 1);
    assert_eq!(
        records.assignments[0].provider_account_id,
        canonical.provider_account_id
    );
    assert_eq!(
        records.events[0].provider_account_id,
        Some(canonical.provider_account_id.clone())
    );
    assert_eq!(
        records.summaries[0].provider_account_id,
        Some(canonical.provider_account_id.clone())
    );
    assert_eq!(report.from_provider_account_id, alias.provider_account_id.0);
    assert_eq!(report.to_provider_account_id, canonical.provider_account_id.0);
}

#[test]
fn merge_provider_accounts_moves_orphan_summary_rows() {
    let source = local_adapter(
        "codex",
        "codex-local-jsonl",
        "0",
        "/tmp/.codex-legacy-alias",
        LocationOrigin::Configured,
    );
    let now = at("2026-06-01T12:00:00Z");
    let alias = test_account("codex", Some("legacy-alias"), None, None, None, now);
    let canonical = test_account(
        "codex",
        None,
        Some("canonical@example.com"),
        Some("stable-provider-id"),
        Some("Plus"),
        now,
    );
    let mut summary = test_summary(
        "codex",
        &source,
        days(now, -10),
        512,
        Some(alias.provider_account_id.clone()),
    );
    summary.parse_evidence = unknown_evidence(&source, "summary");
    let mut records = AccountRecords {
        assignments: vec![],
        subscriptions: vec![],
        events: vec![],
        summaries: vec![summary],
    };

    let accounts = [alias.clone(), canonical.clone()];
    let report = merge(
        &mut records,
        &[source.clone()],
        &accounts,
        "legacy-alias",
        "canonical@example.com",
        false,
    )
    .expect("merge");

    assert_eq!(report.moved_source_account_assignments, 0);
    assert_eq!(report.moved_subscriptions, 0);
    assert_eq!(report.moved_events, 0);
    assert_eq!(report.moved_summaries, 1);
    assert!(report.deleted_source_account);
    assert_eq!(report.remaining_references.total(), 0);

    assert_eq!(records.summaries.len(), 1);
    assert_eq!(
        records.summaries[0].provider_account_id,
        Some(canonical.provider_account_id.clone())
    );
    assert_eq!(
        records.summaries[0]
            .parse_evidence
            .as_ref()
            .map(|evidence| evidence.account_identity_source),
        Some(IdentitySource::UserConfigured)
    );
}

fn test_subscription(account: &ProviderAccountId, started_at: Timestamp) -> Subscription {
    Subscription {
        schema_version: SUBSCRIPTION_SCHEMA_VERSION.to_string(),
        subscription_id: subscription_id("codex", account, "Plus", started_at),
        provider: "codex".to_string(),
        provider_account_id: account.clone(),
        plan_name: "Plus".to_string(),
        price: 2000,
        currency: "USD".to_string(),
        billing_period: BillingPeriod::Monthly,
        paid_at: None,
        renewal_day: None,
        started_at,
        ended_at: None,
        current_period_ends_at: None,
        status: SubscriptionStatus::Active,
        record_source: IdentitySource::UserConfigured,
        verified_at: None,
        notes: None,
    }
}

fn no_records() -> AccountRecords {
    AccountRecords {
        assignments: vec![],
        subscriptions: vec![],
        events: vec![],
        summaries: vec![],
    }
}

fn two_accounts(now: Timestamp) -> (ProviderAccount, ProviderAccount) {
    let alias = test_account("codex", Some("work"), None, None, None, now);
    let canonical = test_account(
        "codex",
        None,
        Some("verified@example.com"),
        Some("11111111-2222-4333-8444-555555555555"),
        Some("Plus"),
        now,
    );
    (alias, canonical)
}

#[test]
fn a_dry_run_of_a_merge_counts_and_changes_nothing() {
    let source = local_adapter(
        "codex",
        "codex-local-jsonl",
        "0",
        "/tmp/.codex-work",
        LocationOrigin::Configured,
    );
    let now = at("2026-06-01T12:00:00Z");
    let (alias, canonical) = two_accounts(now);
    let id = &alias.provider_account_id;
    let mut records = AccountRecords {
        assignments: vec![test_assignment(&source, id, days(now, -40), None, now)],
        subscriptions: vec![],
        events: vec![],
        summaries: vec![],
    };
    let before = records.clone();

    let report = merge(
        &mut records,
        &[source.clone()],
        &[alias.clone(), canonical],
        "work",
        "verified@example.com",
        true,
    )
    .expect("merge");

    assert_eq!(records, before);
    assert_eq!(report.moved_source_account_assignments, 1);
    assert_eq!(report.remaining_references.source_account_assignments, 1);
    assert!(!report.deleted_source_account);
    assert!(!report.reset_local_sync_tracking);
    assert!(report.dry_run);
}

#[test]
fn a_merge_hands_every_assignment_and_subscription_over() {
    let source = local_adapter(
        "codex",
        "codex-local-jsonl",
        "0",
        "/tmp/.codex-work",
        LocationOrigin::Configured,
    );
    let now = at("2026-06-01T12:00:00Z");
    let (alias, canonical) = two_accounts(now);
    let id = &alias.provider_account_id;
    let subscription = test_subscription(id, days(now, -40));
    let mut records = AccountRecords {
        assignments: vec![
            test_assignment(&source, id, days(now, -40), Some(days(now, -20)), now),
            test_assignment(&source, id, days(now, -10), None, now),
        ],
        subscriptions: vec![subscription.clone()],
        events: vec![],
        summaries: vec![],
    };

    let report = merge(
        &mut records,
        &[source.clone()],
        &[alias.clone(), canonical.clone()],
        "work",
        "verified@example.com",
        false,
    )
    .expect("merge");

    assert_eq!(report.moved_source_account_assignments, 2);
    assert_eq!(report.moved_subscriptions, 1);
    assert_eq!(report.remaining_references.total(), 0);
    let windows: Vec<(Timestamp, Option<Timestamp>)> = records
        .assignments
        .iter()
        .map(|a| (a.started_at, a.ended_at))
        .collect();
    assert_eq!(
        windows,
        vec![
            (days(now, -40), Some(days(now, -20))),
            (days(now, -10), None),
        ]
    );
    assert!(records
        .assignments
        .iter()
        .all(|a| a.provider_account_id == canonical.provider_account_id));
    assert_eq!(records.subscriptions.len(), 1);
    assert_eq!(
        records.subscriptions[0].provider_account_id,
        canonical.provider_account_id
    );
    assert_ne!(
        records.subscriptions[0].subscription_id,
        subscription.subscription_id
    );
}

#[test]
fn a_merge_that_fails_keeps_the_steps_before_the_failure() {
    let source = local_adapter(
        "codex",
        "codex-local-jsonl",
        "0",
        "/tmp/.codex-work",
        LocationOrigin::Configured,
    );
    let gone = local_adapter(
        "codex",
        "codex-local-jsonl",
        "0",
        "/tmp/.codex-gone",
        LocationOrigin::Configured,
    );
    let now = at("2026-06-01T12:00:00Z");
    let (alias, canonical) = two_accounts(now);
    let id = &alias.provider_account_id;
    let mut records = AccountRecords {
        assignments: vec![
            test_assignment(&source, id, days(now, -40), None, now),
            test_assignment(&gone, id, days(now, -40), None, now),
        ],
        subscriptions: vec![],
        events: vec![],
        summaries: vec![],
    };
    let accounts = [alias.clone(), canonical.clone()];

    let error = merge(
        &mut records,
        &[source.clone()],
        &accounts,
        "work",
        "verified@example.com",
        false,
    )
    .expect_err("unknown source");

    assert_eq!(error, format!("unknown source {}", gone.source_id.0));
    let owner = |s: &SourceLocation| {
        records
            .assignments
            .iter()
            .find(|a| a.source_id == s.source_id)
            .map(|a| a.provider_account_id.clone())
    };
    assert_eq!(owner(&source), Some(canonical.provider_account_id.clone()));
    assert_eq!(owner(&gone), Some(alias.provider_account_id.clone()));
}

#[test]
fn a_merge_needs_two_accounts_and_sources_of_the_provider() {
    let mut source = local_adapter(
        "codex",
        "codex-local-jsonl",
        "0",
        "/tmp/.codex-work",
        LocationOrigin::Configured,
    );
    let now = at("2026-06-01T12:00:00Z");
    let (alias, canonical) = two_accounts(now);
    let id = &alias.provider_account_id;
    let mut records = AccountRecords {
        assignments: vec![test_assignment(&source, id, days(now, -40), None, now)],
        subscriptions: vec![],
        events: vec![],
        summaries: vec![],
    };
    let accounts = [alias.clone(), canonical.clone()];
    let before = records.clone();
    source.provider = "gemini".to_string();
    let sources = [source];

    let same = merge(&mut records, &sources, &accounts, "work", "WORK", false);
    assert_eq!(
        same,
        Err("source and destination accounts are the same".to_string())
    );
    let missing = merge(&mut records, &sources, &accounts, "play", "work", false);
    assert_eq!(missing, Err("no codex account matched 'play'".to_string()));
    let blank = merge(&mut records, &sources, &accounts, "work", " ", false);
    assert_eq!(blank, Err("account selector cannot be empty".to_string()));
    let other = merge(
        &mut records,
        &sources,
        &accounts,
        "work",
        "verified@example.com",
        false,
    );
    assert_eq!(
        other,
        Err(format!(
            "provider account {} belongs to codex, not gemini",
            canonical.provider_account_id.0
        ))
    );
    assert_eq!(records, before);
}

#[test]
fn remove_orphan_provider_account_rejects_referenced_account() {
    let source = local_adapter(
        "codex",
        "codex-local-jsonl",
        "0",
        "/tmp/.codex-existing-alias",
        LocationOrigin::Configured,
    );
    let now = at("2026-06-01T12:00:00Z");
    let alias = test_account("codex", Some("existing-alias"), None, None, None, now);
    let mut records = no_records();
    records.assignments.push(test_assignment(
        &source,
        &alias.provider_account_id,
        days(now, -1),
        None,
        now,
    ));
    let mut accounts = vec![alias.clone()];

    let error =
        remove_orphan_provider_account(&mut accounts, &records, "codex", "existing-alias", false)
            .expect_err("referenced account should fail");
    assert!(error.contains("still has references"));
    assert_eq!(accounts, vec![alias.clone()]);
    let references = account_reference_counts(
        &records.assignments,
        &[],
        &[],
        &[],
        &alias.provider_account_id,
        Some("codex"),
    );
    assert_eq!(check_account_removal(&alias, &references), Err(error));
}

#[test]
fn remove_orphan_provider_account_deletes_account_and_clears_sync_tracking() {
    let now = at("2026-06-01T12:00:00Z");
    let alias = test_account("codex", Some("orphan-alias"), None, None, None, now);
    let other = test_account("codex", Some("other"), None, None, None, now);
    let mut accounts = vec![alias.clone(), other.clone()];
    let records = no_records();

    let dry =
        remove_orphan_provider_account(&mut accounts, &records, "codex", "orphan-alias", true)
            .expect("dry run");
    assert!(!dry.deleted);
    assert!(!dry.reset_local_sync_tracking);
    assert_eq!(accounts.len(), 2);

    let report =
        remove_orphan_provider_account(&mut accounts, &records, "codex", "orphan-alias", false)
            .expect("remove");
    assert!(report.deleted);
    assert!(report.reset_local_sync_tracking);
    assert_eq!(report.remaining_references.total(), 0);
    assert_eq!(report.provider_account_id, alias.provider_account_id.0);
    assert!(accounts
        .iter()
        .all(|account| account.provider_account_id != alias.provider_account_id));
    assert_eq!(accounts, vec![other]);
    assert_eq!(
        remove_orphan_provider_account(&mut accounts, &records, "codex", "orphan-alias", false),
        Err("no codex account matched 'orphan-alias'".to_string())
    );
}

#[test]
fn an_accounts_records_are_told_by_provider() {
    let now = at("2026-06-01T12:00:00Z");
    let source = local_adapter("codex", "test", "0", "/tmp/.codex", LocationOrigin::Configured);
    let id = provider_account_id("codex", "a");
    let event = test_event("codex", &source, now, Some(id.clone()), TokenParts::total(1));
    let summary = test_summary("codex", &source, now, 1, Some(id.clone()));
    let subscription =
        add_subscription(&[], "codex", &id, request("Plus", 1, "2026-05-01T00:00:00Z")).unwrap();
    assert_eq!(account_events(&[event.clone()], &id, None).len(), 1);
    assert_eq!(account_events(&[event], &id, Some("claude_code")).len(), 0);
    assert_eq!(account_summaries(&[summary], &id, Some("codex")).len(), 1);
    assert_eq!(account_subscriptions(&[subscription], &id, Some("codex")).len(), 1);
}

#[test]
fn a_reports_totals_are_the_sums_of_its_rows() {
    let now = at("2026-05-25T12:00:00Z");
    let source = local_adapter(
        "codex",
        "test",
        "0",
        "/tmp/codex-totals",
        LocationOrigin::Configured,
    );
    let event = |email: &str, when: Timestamp, input: u64, output: u64| {
        test_event(
            "codex",
            &source,
            when,
            Some(provider_account_id("codex", email)),
            TokenParts {
                input,
                cached_input: 1,
                output,
                reasoning: 2,
                total: input.saturating_add(output),
                cost: None,
            },
        )
    };
    let events = [
        // Both ends of the period belong to it.
        event("a@example.com", days(now, -7), 10, 1),
        event("b@example.com", now, 20, 2),
        event("a@example.com", days(now, -8), 40, 4),
        event("b@example.com", days(now, 1), 80, 8),
    ];
    let report = build_usage_report(
        &events,
        &[],
        &[source.clone()],
        &[],
        &[],
        ReportPeriod::LastDays(7),
        now,
        None,
    );
    assert_eq!(report.total_events, 2);
    assert_eq!(report.rows.len(), 2);
    assert_eq!(report.rows.iter().map(|r| r.events).sum::<u64>(), 2);
    assert_eq!(report.total_usage.input_tokens, 30);
    assert_eq!(report.total_usage.cached_input_tokens, 2);
    assert_eq!(report.total_usage.cache_creation_tokens, 0);
    assert_eq!(report.total_usage.output_tokens, 3);
    assert_eq!(report.total_usage.reasoning_tokens, 4);
    assert_eq!(report.total_usage.total_tokens, 33);

    let full = build_usage_report(
        &[
            event("a@example.com", now, u64::MAX, 0),
            event("b@example.com", now, 5, 0),
        ],
        &[],
        &[source.clone()],
        &[],
        &[],
        ReportPeriod::AllTime,
        now,
        None,
    );
    assert_eq!(full.total_usage.input_tokens, u64::MAX);
}

#[test]
fn usage_report_filters_period_and_groups_by_canonical_account() {
    let now = at("2026-05-25T12:00:00Z");
    let source = local_adapter(
        "codex",
        "test",
        "0",
        "/tmp/codex-report",
        LocationOrigin::Configured,
    );
    let account_id = provider_account_id("codex", "personal@example.com");
    let account = labelled_account("codex", &account_id, Some("personal@example.com"), "personal");
    let recent = test_event(
        "codex",
        &source,
        days(now, -1),
        Some(account_id.clone()),
        TokenParts {
            input: 70,
            cached_input: 20,
            output: 25,
            reasoning: 5,
            total: 100,
            cost: Some(1),
        },
    );
    let old = test_event(
        "codex",
        &source,
        days(now, -10),
        Some(account_id),
        TokenParts {
            input: 120,
            cached_input: 30,
            output: 50,
            reasoning: 0,
            total: 200,
            cost: Some(1),
        },
    );

    let report = build_usage_report(
        &[recent, old],
        &[],
        &[source],
        &[account],
        &[],
        ReportPeriod::LastDays(7),
        now,
        None,
    );

    assert_eq!(report.total_events, 1);
    assert_eq!(report.total_usage.total_tokens, 100);
    assert_eq!(report.total_usage.input_tokens, 70);
    assert_eq!(report.total_usage.cached_input_tokens, 20);
    assert_eq!(report.total_usage.output_tokens, 25);
    assert_eq!(report.total_usage.reasoning_tokens, 5);
    assert_eq!(report.total_usage.estimated_cost_usd, Some(1));
    assert_eq!(report.rows.len(), 1);
    assert_eq!(report.rows[0].account, "personal");
}

#[test]
fn usage_report_uses_account_registry_label() {
    let now = at("2026-05-25T12:00:00Z");
    let source = local_adapter(
        "codex",
        "test",
        "0",
        "/tmp/codex-report-account",
        LocationOrigin::Configured,
    );
    let account_id = provider_account_id("codex", "stable-provider-id");
    let account = labelled_account("codex", &account_id, None, "work");
    let event = test_event(
        "codex",
        &source,
        now,
        Some(account_id),
        TokenParts::total(50),
    );

    let report = build_usage_report(
        &[event],
        &[],
        &[source],
        &[account],
        &[],
        ReportPeriod::AllTime,
        now,
        None,
    );

    assert_eq!(report.rows.len(), 1);
    assert_eq!(report.rows[0].account, "work");
    assert_eq!(report.rows[0].usage.total_tokens, 50);
}

#[test]
fn usage_report_keeps_summary_cache_separate_from_event_totals() {
    let now = at("2026-05-25T12:00:00Z");
    let source = local_adapter(
        "claude_code",
        "test",
        "0",
        &format!("/tmp/{}", word("-report-summary")),
        LocationOrigin::Configured,
    );
    let account_id = provider_account_id("claude_code", "personal@example.com");
    let account = labelled_account(
        "claude_code",
        &account_id,
        Some("personal@example.com"),
        "personal",
    );
    let event = test_event(
        "claude_code",
        &source,
        now,
        Some(account_id.clone()),
        TokenParts::total(100),
    );
    let summary = test_summary("claude_code", &source, now, 500, Some(account_id.clone()));

    let report = build_usage_report(
        &[event],
        &[summary],
        std::slice::from_ref(&source),
        std::slice::from_ref(&account),
        &[],
        ReportPeriod::AllTime,
        now,
        None,
    );

    assert_eq!(report.total_usage.total_tokens, 100);
    assert_eq!(report.total_summary_usage.total_tokens, 500);
    assert_eq!(report.summary_rows.len(), 1);
    assert_eq!(report.summary_rows[0].account, "personal");
    assert_eq!(report.summary_rows[0].direct_event_usage.total_tokens, 100);

    let weekly = build_usage_report(
        &[],
        &[test_summary(
            "claude_code",
            &source,
            now,
            500,
            Some(account_id),
        )],
        std::slice::from_ref(&source),
        std::slice::from_ref(&account),
        &[],
        ReportPeriod::LastDays(7),
        now,
        None,
    );
    assert!(weekly.summary_rows.is_empty());
}

#[test]
fn usage_report_keeps_summary_formats_separate() {
    let now = at("2026-05-25T12:00:00Z");
    let source = local_adapter(
        "claude_code",
        "test",
        "0",
        &format!("/tmp/{}", word("-report-summary-kinds")),
        LocationOrigin::Configured,
    );
    let account_id = provider_account_id("claude_code", "personal@example.com");
    let mut stats_cache = test_summary("claude_code", &source, now, 500, Some(account_id.clone()));
    stats_cache.metadata.summary_format = "claude_stats_cache".to_string();
    let mut external = test_summary("claude_code", &source, now, 300, Some(account_id));
    external.summary_id = summary_id("claude_code", &source.source_id, "external");
    external.metadata.summary_format = "external_daily".to_string();

    let report = build_usage_report(
        &[],
        &[stats_cache, external],
        std::slice::from_ref(&source),
        &[],
        &[],
        ReportPeriod::AllTime,
        now,
        None,
    );

    assert_eq!(report.summary_rows.len(), 2);
    assert!(report
        .summary_rows
        .iter()
        .any(|row| row.kind == "claude_stats_cache" && row.usage.total_tokens == 500));
    assert!(report
        .summary_rows
        .iter()
        .any(|row| row.kind == "external_daily" && row.usage.total_tokens == 300));
}

struct TokenParts {
    input: u64,
    cached_input: u64,
    output: u64,
    reasoning: u64,
    total: u64,
    /// In cents.
    cost: Option<i64>,
}

impl TokenParts {
    fn total(total: u64) -> Self {
        Self {
            input: 0,
            cached_input: 0,
            output: 0,
            reasoning: 0,
            total,
            cost: None,
        }
    }
}

fn labelled_account(
    provider: &str,
    id: &ProviderAccountId,
    email: Option<&str>,
    label: &str,
) -> ProviderAccount {
    let now = at("2026-05-25T12:00:00Z");
    ProviderAccount {
        schema_version: PROVIDER_ACCOUNT_SCHEMA_VERSION.to_string(),
        provider_account_id: id.clone(),
        provider: provider.to_string(),
        identity_source: IdentitySource::UserConfigured,
        provider_user_id: None,
        provider_user_id_hash: None,
        email: email.map(|e| e.to_string()),
        email_hash: None,
        org_id_hash: None,
        account_label: Some(label.to_string()),
        plan_name: None,
        confidence: Confidence::High,
        verified_at: None,
        created_at: now,
        updated_at: now,
    }
}

fn test_account(
    provider: &str,
    label: Option<&str>,
    email: Option<&str>,
    provider_user_id: Option<&str>,
    plan_name: Option<&str>,
    now: Timestamp,
) -> ProviderAccount {
    let key = provider_user_id.or(email).or(label).expect("label");
    let normalized_email = email.map(normalize_email);
    ProviderAccount {
        schema_version: PROVIDER_ACCOUNT_SCHEMA_VERSION.to_string(),
        provider_account_id: provider_account_id(provider, key),
        provider: provider.to_string(),
        identity_source: IdentitySource::UserConfigured,
        provider_user_id: provider_user_id.map(|id| id.to_string()),
        provider_user_id_hash: provider_user_id.map(hash_text),
        email_hash: normalized_email.as_deref().map(hash_text),
        email: normalized_email,
        org_id_hash: None,
        account_label: label.map(|l| l.to_string()),
        plan_name: plan_name.map(|p| p.to_string()),
        confidence: if email.is_some() || provider_user_id.is_some() {
            Confidence::High
        } else {
            Confidence::Medium
        },
        verified_at: email.map(|_| now),
        created_at: now,
        updated_at: now,
    }
}

fn test_assignment(
    source: &SourceLocation,
    provider_account_id: &ProviderAccountId,
    started_at: Timestamp,
    ended_at: Option<Timestamp>,
    now: Timestamp,
) -> SourceAccountAssignment {
    SourceAccountAssignment {
        schema_version: SOURCE_ACCOUNT_ASSIGNMENT_SCHEMA_VERSION.to_string(),
        assignment_id: source_account_assignment_id(
            &source.source_id,
            provider_account_id,
            started_at,
        ),
        source_id: source.source_id.clone(),
        provider: source.provider.clone(),
        provider_account_id: provider_account_id.clone(),
        started_at,
        ended_at,
        record_source: IdentitySource::UserConfigured,
        verified_at: None,
        created_at: now,
        updated_at: now,
    }
}

fn test_event(
    provider: &str,
    source: &SourceLocation,
    started_at: Timestamp,
    provider_account_id: Option<ProviderAccountId>,
    tokens: TokenParts,
) -> UsageEvent {
    UsageEvent {
        schema_version: USAGE_EVENT_SCHEMA_VERSION.to_string(),
        event_id: event_id(
            provider,
            &source.source_id,
            &started_at.to_rfc3339(),
            None,
            started_at,
        ),
        device_id: "device".to_string(),
        provider: provider.to_string(),
        source_id: source.source_id.clone(),
        provider_account_id,
        subscription_id: None,
        source: EventSource {
            adapter_id: "test".to_string(),
            adapter_version: "0".to_string(),
            source_kind: SourceKind::LocalAdapter,
            location_origin: Some(LocationOrigin::Configured),
            source_type: "jsonl".to_string(),
            source_path_hash: source.path_hash.clone(),
            source_record_id: Some(started_at.to_rfc3339()),
            parse_confidence: Confidence::High,
        },
        session: SessionInfo {
            session_id: "session".to_string(),
            local_session_id_hash: None,
            title: None,
            started_at,
            ended_at: None,
            duration_seconds: None,
        },
        model: None,
        usage: UsageCounts {
            input_tokens: (tokens.input > 0).then_some(tokens.input),
            output_tokens: (tokens.output > 0).then_some(tokens.output),
            cache_read_tokens: (tokens.cached_input > 0).then_some(tokens.cached_input),
            reasoning_tokens: (tokens.reasoning > 0).then_some(tokens.reasoning),
            total_tokens: Some(tokens.total),
            ..UsageCounts::default()
        },
        cost: CostInfo {
            currency: "USD".to_string(),
            estimated_api_equivalent_usd: tokens.cost,
            provider_reported_usd: None,
            pricing_source: Some("unknown".to_string()),
            pricing_version: None,
            confidence: Confidence::Low,
        },
        parse_evidence: None,
        project: None,
        privacy: PrivacyInfo {
            mode: PrivacyMode::MetadataOnly,
            contains_prompt_text: false,
            contains_response_text: false,
            contains_file_paths: false,
        },
        created_at: started_at,
        imported_at: started_at,
    }
}

fn test_summary(
    provider: &str,
    source: &SourceLocation,
    now: Timestamp,
    total: u64,
    provider_account_id: Option<ProviderAccountId>,
) -> UsageSummary {
    UsageSummary {
        schema_version: USAGE_SUMMARY_SCHEMA_VERSION.to_string(),
        summary_id: summary_id(provider, &source.source_id, "summary"),
        device_id: "device".to_string(),
        provider: provider.to_string(),
        source_id: source.source_id.clone(),
        provider_account_id,
        source: EventSource {
            adapter_id: "test".to_string(),
            adapter_version: "0".to_string(),
            source_kind: SourceKind::LocalSummary,
            location_origin: Some(LocationOrigin::Configured),
            source_type: "stats-cache.json".to_string(),
            source_path_hash: source.path_hash.clone(),
            source_record_id: Some("summary".to_string()),
            parse_confidence: Confidence::Medium,
        },
        model: Some(ModelInfo {
            name: Some(word("-test")),
            normalized_name: Some(word("-test")),
            provider_model_id: Some(word("-test")),
        }),
        usage: UsageCounts {
            input_tokens: Some(total),
            total_tokens: Some(total),
            ..UsageCounts::default()
        },
        cost: CostInfo {
            currency: "USD".to_string(),
            estimated_api_equivalent_usd: None,
            provider_reported_usd: None,
            pricing_source: Some("unknown".to_string()),
            pricing_version: None,
            confidence: Confidence::Low,
        },
        parse_evidence: None,
        project: None,
        privacy: PrivacyInfo {
            mode: PrivacyMode::MetadataOnly,
            contains_prompt_text: false,
            contains_response_text: false,
            contains_file_paths: false,
        },
        period_start: Some(days(now, -30)),
        period_end: Some(now),
        observed_at: now,
        metadata: SummaryMetadata {
            summary_format: "test".to_string(),
            summary_version: Some("1".to_string()),
            total_sessions: Some(1),
            total_messages: Some(2),
            last_computed_at: Some(now),
        },
        imported_at: now,
    }
}

#[test]
fn source_identifiers_hold_their_provider() {
    let a = source_id("codex", SourceKind::LocalAdapter, "key");
    assert_ne!(a, SourceId("codex".to_string()));
    assert_ne!(a, source_id("claude_code", SourceKind::LocalAdapter, "key"));
}
