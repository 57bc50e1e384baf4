use statsai::account_plan::{
    account_identity_observation_id, account_plan_observation_id, conversation_account_binding_id,
    normalize_plan_name, plan_projection_from_observation, AccountEvidenceKind,
    AccountPlanObservationV1,
};
use statsai::archive::{
    archive_artifact_metadata_signature, archive_content_id, archive_conversation_id,
    archive_item_id, hash_archive_bytes, ArchiveCompleteness, ArchiveContentKind,
    ArchiveContentPart, ArchiveItemKind, ArchiveRole, ArtifactKind, ArtifactMetadata,
    InvalidBase64,
};
use statsai::code_types::{
    sanitize_code_change_metric_for_sync, CodeCategory, CodeChangeMetric, CodeChangeMetricKind,
    CodeLineCounts, CoverageStatus,
};
use statsai::hashing::{hash_text, short_hash};
use statsai::ids::{
    event_id, provider_account_id, semantic_event_id, source_account_assignment_id, source_id,
    subscription_id, summary_id, ProviderAccountId, SourceId, SourceKind,
};
use statsai::quota::{
    QuotaCreditsV1, QuotaProjectionStatusV1, QuotaStatusV1, QuotaUsageSliceV1,
};
use statsai::records::{Confidence, UsageCounts};
use statsai::time::{
    civil_of, format_day, midnight, parse_date, parse_rfc3339, parse_ymd, Timestamp, MAX_DAY,
    MAX_SECONDS, MIN_DAY,
};

fn at(text: &str) -> Timestamp {
    parse_rfc3339(text).unwrap()
}

#[test]
fn unknown_plan_names_remain_valid_and_readable() {
    assert_eq!(
        normalize_plan_name("future_ultra-enterprise"),
        "Future Ultra Enterprise"
    );
}

#[test]
fn plan_names_lose_separators_and_odd_capitals() {
    assert_eq!(normalize_plan_name("  PRO__max  plan- "), "Pro Max Plan");
    assert_eq!(normalize_plan_name("___"), "");
    assert_eq!(normalize_plan_name("éclair"), "éclair");
}

#[test]
fn days_have_the_dates_of_the_gregorian_calendar() {
    assert_eq!(civil_of(0), (1970, 1, 1));
    assert_eq!(civil_of(-1), (1969, 12, 31));
    assert_eq!(civil_of(11_016), (2000, 2, 29));
    assert_eq!(civil_of(11_017), (2000, 3, 1));
    assert_eq!(civil_of(-25_509), (1900, 2, 28));
    assert_eq!(civil_of(-25_508), (1900, 3, 1));
    assert_eq!(civil_of(-719_162), (1, 1, 1));
    assert_eq!(civil_of(-719_163), (0, 12, 31));
    assert_eq!(civil_of(MIN_DAY), (-262_143, 1, 1));
    assert_eq!(civil_of(MAX_DAY), (262_142, 12, 31));
}

#[test]
fn instants_are_written_with_no_more_digits_than_they_need() {
    let written = |secs: i64, nanos: u32| Timestamp { secs, nanos }.to_rfc3339();
    assert_eq!(written(0, 0), "1970-01-01T00:00:00+00:00");
    assert_eq!(written(86_399, 500_000_000), "1970-01-01T23:59:59.500+00:00");
    assert_eq!(written(-1, 120_000), "1969-12-31T23:59:59.000120+00:00");
    assert_eq!(written(3_661, 7), "1970-01-01T01:01:01.000000007+00:00");
    assert_eq!(written(59, 1_250_000_000), "1970-01-01T00:00:60.250+00:00");
    assert_eq!(written(MAX_SECONDS, 0), "+262142-12-31T23:59:59+00:00");
    assert_eq!(written(-719_162 * 86_400 - 367 * 86_400, 0), "-0001-12-31T00:00:00+00:00");
}

#[test]
fn the_case_of_letters_never_changes_a_plan_name() {
    for raw in ["Future_ULTRA-enterprise", " x  y", "é_Éa", "-", "pro\tMAX"] {
        let name = normalize_plan_name(raw);
        assert_eq!(normalize_plan_name(&raw.to_ascii_lowercase()), name, "{raw}");
        assert_eq!(normalize_plan_name(&raw.to_ascii_uppercase()), name, "{raw}");
        assert!(!name.contains('_') && !name.contains('-'), "{raw}");
        assert!(!name.starts_with(' ') && !name.ends_with(' '), "{raw}");
        assert!(!name.contains("  "), "{raw}");
    }
}

#[test]
fn plan_observation_ids_are_deterministic_and_account_scoped() {
    let source_id = SourceId("source".to_string());
    let observed_at = at("2026-08-23T00:00:00Z");
    let account_a = ProviderAccountId("account-a".to_string());
    let account_b = ProviderAccountId("account-b".to_string());
    let first = account_plan_observation_id(
        &source_id,
        Some(&account_a),
        "future_ultra",
        observed_at,
        AccountEvidenceKind::AuthSnapshot,
    );
    let repeat = account_plan_observation_id(
        &source_id,
        Some(&account_a),
        "future_ultra",
        observed_at,
        AccountEvidenceKind::AuthSnapshot,
    );
    let other_account = account_plan_observation_id(
        &source_id,
        Some(&account_b),
        "future_ultra",
        observed_at,
        AccountEvidenceKind::AuthSnapshot,
    );

    assert_eq!(first, repeat);
    assert_ne!(first, other_account);
}

#[test]
fn observation_ids_are_prefixed_hashes_of_their_parts() {
    let source = SourceId("source".to_string());
    let when = at("2026-08-23T00:00:00Z");
    let key = "account_plan_observation.v1:source:unattributed:pro:2026-08-23T00:00:00+00:00:QuotaStatus";
    assert_eq!(
        account_plan_observation_id(&source, None, " Pro ", when, AccountEvidenceKind::QuotaStatus),
        format!("plan_observation_{}", &hash_text(key)[..32])
    );
    let key = "account_identity_observation.v1:source:LoginSuccess:2026-08-23T00:00:00+00:00:print";
    assert_eq!(
        account_identity_observation_id(&source, AccountEvidenceKind::LoginSuccess, when, "print"),
        format!("identity_observation_{}", &hash_text(key)[..32])
    );
    let key = "conversation_account_binding.v1:source:conversation:none:account";
    assert_eq!(
        conversation_account_binding_id(
            &source,
            "conversation",
            None,
            &ProviderAccountId("account".to_string())
        ),
        format!("conversation_binding_{}", &hash_text(key)[..32])
    );
}

#[test]
fn only_direct_evidence_is_a_strong_identity() {
    assert!(AccountEvidenceKind::AuthSnapshot.is_strong_identity());
    assert!(AccountEvidenceKind::TelemetryIdentity.is_strong_identity());
    assert!(AccountEvidenceKind::AuthReload.is_strong_identity());
    assert!(AccountEvidenceKind::ResetHistory.is_strong_identity());
    assert!(!AccountEvidenceKind::LoginSuccess.is_strong_identity());
    assert!(!AccountEvidenceKind::QuotaStatus.is_strong_identity());
    assert!(!AccountEvidenceKind::LegacyLocalAuth.is_strong_identity());
}

fn plan_observation(account: Option<&str>) -> AccountPlanObservationV1 {
    AccountPlanObservationV1 {
        schema_version: "account_plan_observation.v1".to_string(),
        observation_id: "observation".to_string(),
        provider: "codex".to_string(),
        source_id: SourceId("source".to_string()),
        provider_account_id: account.map(|id| ProviderAccountId(id.to_string())),
        raw_plan_name: "pro_max".to_string(),
        plan_name: "Pro Max".to_string(),
        observed_at: at("2026-08-23T00:00:00Z"),
        active_from: Some(at("2026-08-01T00:00:00Z")),
        active_until: None,
        is_current_snapshot: true,
        evidence_kind: AccountEvidenceKind::AuthSnapshot,
        confidence: Confidence::High,
        parser_version: "1".to_string(),
        artifact_path_hash: "hash".to_string(),
        record_fingerprint: "print".to_string(),
    }
}

#[test]
fn only_attributed_plans_are_projected() {
    assert_eq!(
        plan_projection_from_observation(&plan_observation(None), "device"),
        None
    );
    let p = plan_projection_from_observation(&plan_observation(Some("account")), "device").unwrap();
    let fingerprint = hash_text(
        "account_plan_projection.v1:codex:account:pro_max:2026-08-23T00:00:00+00:00:\
         2026-08-01T00:00:00+00:00:none:true:AuthSnapshot",
    );
    assert_eq!(p.semantic_fingerprint, fingerprint);
    assert_eq!(
        p.projection_id,
        format!(
            "account_plan_projection_{}",
            &hash_text(&format!("device:{fingerprint}"))[..32]
        )
    );
    assert_eq!(p.plan_name, "Pro Max");
}

#[test]
fn binary_content_round_trips_exact_bytes() {
    let bytes = [0, 1, 2, 127, 128, 255];
    let part = ArchiveContentPart::binary(
        "content_1".to_string(),
        0,
        ArchiveContentKind::Image,
        Some("image/png".to_string()),
        None,
        "AAECf4D/".to_string(),
    )
    .expect("valid base64");

    assert_eq!(part.data_base64.unwrap(), "AAECf4D/");
    assert_eq!(part.original_bytes, bytes.len() as u64);
    assert!(!part.truncated);
    let made = ArchiveContentPart::binary_bytes(
        "content_1".to_string(),
        0,
        ArchiveContentKind::Image,
        None,
        None,
        &bytes,
    );
    assert_eq!(made.data_base64.as_deref(), Some("AAECf4D/"));
    assert_eq!(made.content_hash, hash_archive_bytes(&bytes));
    assert_eq!(part.content_hash, made.content_hash);
}

#[test]
fn broken_base64_is_refused() {
    let part = ArchiveContentPart::binary(
        "content_1".to_string(),
        0,
        ArchiveContentKind::File,
        None,
        None,
        "not base64!".to_string(),
    );
    assert_eq!(part.unwrap_err(), InvalidBase64);
}

#[test]
fn text_content_counts_bytes() {
    let part = ArchiveContentPart::text(
        "content_2".to_string(),
        3,
        ArchiveContentKind::Text,
        "né".to_string(),
    );
    assert_eq!(part.original_bytes, 3);
    assert_eq!(part.content_hash, hash_text("né"));
    assert_eq!(part.text.as_deref(), Some("né"));
    assert_eq!(part.data_base64, None);
}

#[test]
fn archive_ids_ignore_device_and_source_paths() {
    assert_eq!(
        archive_conversation_id("codex", "thread-123"),
        archive_conversation_id("codex", "thread-123")
    );
    assert_ne!(
        archive_conversation_id("codex", "thread-123"),
        archive_conversation_id("claude_code", "thread-123")
    );
}

#[test]
fn archive_ids_are_prefixed_hashes() {
    assert_eq!(
        archive_conversation_id("codex", "t"),
        format!("conv_{}", short_hash("codex:t", 24))
    );
    assert_eq!(
        archive_item_id("codex", "t", None, 4, "print"),
        format!("item_{}", short_hash("codex:t:4:print", 24))
    );
    assert_eq!(
        archive_item_id("codex", "t", Some("native"), 4, "print"),
        format!("item_{}", short_hash("codex:t:native", 24))
    );
    assert_eq!(
        archive_content_id("item_1", 2),
        format!("content_{}", short_hash("item_1:2", 24))
    );
}

#[test]
fn archive_names_are_read_back() {
    for role in [
        ArchiveRole::User,
        ArchiveRole::Assistant,
        ArchiveRole::Developer,
        ArchiveRole::System,
        ArchiveRole::Tool,
        ArchiveRole::Unknown,
    ] {
        assert_eq!(ArchiveRole::parse(role.as_str()), role);
    }
    assert_eq!(ArchiveRole::parse(" Tool_Result\n"), ArchiveRole::Tool);
    assert_eq!(ArchiveRole::parse("robot"), ArchiveRole::Unknown);
    assert_eq!(ArchiveCompleteness::MetadataOnly.as_str(), "metadata_only");
    assert_eq!(ArchiveItemKind::ReasoningSummary.as_str(), "reasoning_summary");
    assert_eq!(ArchiveContentKind::Audio.as_str(), "audio");
}

#[test]
fn artifact_signatures_follow_the_metadata() {
    assert_eq!(archive_artifact_metadata_signature(None), "missing");
    let mut metadata = ArtifactMetadata {
        kind: ArtifactKind::File,
        length: 12,
        modified_seconds: 100,
        modified_nanos: 5,
        created_seconds: 90,
        created_nanos: 6,
        mode: 33188,
        canonical_path: "/data/a.jsonl".to_string(),
    };
    let first = archive_artifact_metadata_signature(Some(&metadata));
    assert_eq!(
        first,
        hash_text("artifact-meta.v1:file:12:100:5:90:6:33188:/data/a.jsonl")
    );
    metadata.length = 13;
    assert_ne!(first, archive_artifact_metadata_signature(Some(&metadata)));
}

#[test]
fn hashes_are_lower_case_hexadecimal() {
    assert_eq!(
        hash_text("abc"),
        "ba7816bf8f01cfea414140de5dae2223b00361a396177a9cb410ff61f20015ad"
    );
    assert_eq!(short_hash("abc", 8), "ba7816bf");
}

#[test]
fn identifiers_are_prefixed_hashes() {
    let source = source_id("codex", SourceKind::LocalAdapter, "/home");
    assert!(source.0.starts_with("src_"), "{}", source.0);
    assert_ne!(
        source,
        source_id("codex", SourceKind::Manual, "/home")
    );
    let account = provider_account_id("codex", "key");
    assert_eq!(account, provider_account_id("codex", "key"));
    let started = at("2026-08-01T00:00:00Z");
    assert_ne!(
        source_account_assignment_id(&source, &account, started),
        source_account_assignment_id(&source, &account, at("2026-08-02T00:00:00Z"))
    );
    assert_ne!(
        subscription_id("codex", &account, "Pro", started),
        subscription_id("codex", &account, "Max", started)
    );
    assert_ne!(
        semantic_event_id("codex", &source, "a").0,
        summary_id("codex", &source, "a").0
    );
    assert!(event_id("codex", &source, "record", Some("session"), started)
        .0
        .starts_with("evt_"));
}

#[test]
fn a_projected_status_holds_no_raw_balance() {
    let status = QuotaStatusV1 {
        plan_type: Some("pro".to_string()),
        individual_limit: Some("{\"a\":1}".to_string()),
        spend_control_state: None,
        reached_type: Some("primary".to_string()),
        credits: QuotaCreditsV1 {
            has_credits: Some(true),
            unlimited: Some(false),
            balance: Some("12".to_string()),
            balance_raw: Some("12.000".to_string()),
        },
    };
    let projected = QuotaProjectionStatusV1::from(&status);
    assert_eq!(projected.plan_type.as_deref(), Some("pro"));
    assert_eq!(projected.individual_limit.as_deref(), Some("{\"a\":1}"));
    assert_eq!(projected.reached_type.as_deref(), Some("primary"));
    assert_eq!(projected.credits.balance.as_deref(), Some("12"));
    assert!(!format!("{projected:?}").contains("12.000"));
}

#[test]
fn quota_slices_add_every_kind_of_cache_creation() {
    let mut slice = QuotaUsageSliceV1 {
        period_start: at("2026-08-01T00:00:00Z"),
        period_end: at("2026-08-02T00:00:00Z"),
        input_tokens: 1,
        cache_creation_tokens: 2,
        cache_read_tokens: 3,
        output_tokens: 4,
        reasoning_tokens: 5,
        total_tokens: 6,
        estimated_cost_micro_usd: 7,
    };
    let usage = UsageCounts {
        input_tokens: Some(10),
        cache_creation_tokens: Some(20),
        cache_creation_5m_tokens: Some(30),
        cache_creation_1h_tokens: Some(40),
        cache_read_tokens: None,
        output_tokens: Some(50),
        reasoning_tokens: Some(u64::MAX),
        total_tokens: Some(60),
        ..UsageCounts::default()
    };
    slice.add_usage(&usage, Some(-10));
    assert_eq!(slice.input_tokens, 11);
    assert_eq!(slice.cache_creation_tokens, 92);
    assert_eq!(slice.cache_read_tokens, 3);
    assert_eq!(slice.output_tokens, 54);
    assert_eq!(slice.reasoning_tokens, u64::MAX);
    assert_eq!(slice.total_tokens, 66);
    assert_eq!(slice.estimated_cost_micro_usd, -3);
    slice.add_usage(&UsageCounts::default(), None);
    assert_eq!(slice.estimated_cost_micro_usd, -3);
}

#[test]
fn synced_metrics_carry_no_commit() {
    let metric = CodeChangeMetric {
        schema_version: "code_change_metric.v1".to_string(),
        metric_id: "opaque-event".to_string(),
        device_id: "device".to_string(),
        day: parse_ymd("2026-08-01").unwrap(),
        project_id: Some("opaque-project".to_string()),
        repository_hash: Some("repository-hash".to_string()),
        commit_hash: Some("commit-hash".to_string()),
        kind: CodeChangeMetricKind::Committed,
        counts: CodeLineCounts::classified(CodeCategory::Source, 4, 2),
        attribution_confidence: None,
        trace_coverage: CoverageStatus::Complete,
        git_coverage: CoverageStatus::Complete,
    };
    let synced = sanitize_code_change_metric_for_sync(metric, true);
    assert_eq!(synced.commit_hash, None);
    assert_eq!(synced.counts.churn(), 6);
    assert_eq!(synced.counts.net(), 2);
}

#[test]
fn coverage_and_counts_add_up_in_any_order() {
    let a = CoverageStatus::Complete;
    let b = CoverageStatus::Unavailable;
    assert_eq!(a.combine(b), b.combine(a));
    let mut left = CodeLineCounts::classified(CodeCategory::Source, 4, 2);
    let mut right = CodeLineCounts::classified(CodeCategory::Test, 1, u64::MAX);
    let (l, r) = (left, right);
    left.add(r);
    right.add(l);
    assert_eq!(left, right);
    assert_eq!(left.test_deletions, u64::MAX);
    assert_eq!(left.additions(), 5);
}

#[test]
fn instants_are_read_and_written() {
    let t = at("2026-08-01T12:30:00.25+02:00");
    assert_eq!(t.to_rfc3339(), "2026-08-01T10:30:00.250+00:00");
    assert_eq!(t.day(), parse_ymd("2026-08-01").unwrap());
    assert_eq!(format_day(t.day()), "2026-08-01");
    assert_eq!(midnight(t.day()), at("2026-08-01T00:00:00Z"));
    assert_eq!(parse_date("2026-08-01"), Some(at("2026-08-01T00:00:00Z")));
    assert_eq!(parse_date("2026-02-30"), None);
    assert_eq!(parse_rfc3339("yesterday"), None);
    assert_eq!(t.plus_days(31), Some(at("2026-09-01T10:30:00.25Z")));
    assert_eq!(t.plus_days(i64::MAX), None);
    assert_eq!(Timestamp::new(MAX_SECONDS, 0).unwrap().day(), MAX_DAY);
    assert_eq!(Timestamp::new(0, 2_000_000_000), None);
    assert_eq!(format_day(parse_ymd("0007-01-02").unwrap()), "0007-01-02");
}
