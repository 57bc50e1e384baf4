//! The records that usage is kept in.
use crate::code_types::{ProjectInfo, sat_add};
use crate::ids::{
    EventId, ProviderAccountId, SourceAccountAssignmentId, SourceId, SourceKind, SubscriptionId,
    SummaryId,
};
use crate::text::{blank, copy_opt, is_blank, same_text};
use crate::time::{MAX_SECONDS, Timestamp, last_instant};
use vstd::prelude::*;

verus! {

pub const USAGE_EVENT_SCHEMA_VERSION: &'static str = "usage_event.v1";

pub const USAGE_SUMMARY_SCHEMA_VERSION: &'static str = "usage_summary.v1";

pub const SOURCE_LOCATION_SCHEMA_VERSION: &'static str = "source_location.v1";

pub const PROVIDER_ACCOUNT_SCHEMA_VERSION: &'static str = "provider_account.v1";

pub const SOURCE_ACCOUNT_ASSIGNMENT_SCHEMA_VERSION: &'static str = "source_account_assignment.v1";

pub const SUBSCRIPTION_SCHEMA_VERSION: &'static str = "subscription.v1";

/// How an account's identity became known.
#[derive(Debug, Clone, Copy, PartialEq, Eq, Structural)]
pub enum IdentitySource {
    LocalAuth,
    ProviderAuth,
    ProviderApi,
    CookieOauth,
    CliProbe,
    SourceConfig,
    UserConfigured,
    ManualHint,
    Unknown,
    Unresolved,
}

/// How a source's place became known.
#[derive(Debug, Clone, Copy, PartialEq, Eq, Structural)]
pub enum LocationOrigin {
    Default,
    Configured,
    Env,
    Discovered,
}

#[derive(Debug, Clone, Copy, PartialEq, Eq, Structural)]
pub enum Confidence {
    High,
    Medium,
    Low,
}

#[derive(Debug, Clone, Copy, PartialEq, Eq, Structural)]
pub enum PrivacyMode {
    MetadataOnly,
}

#[derive(Debug, Clone, Copy, PartialEq, Eq, Structural)]
pub enum BillingPeriod {
    Monthly,
}

#[derive(Debug, Clone, Copy, PartialEq, Eq, Structural)]
pub enum SubscriptionStatus {
    Active,
    Paused,
    Cancelled,
}

/// Whether a source's login is read.
#[derive(Debug, Clone, Copy, PartialEq, Eq, Structural)]
pub enum SourceVerificationMode {
    Auto,
    ManualOnly,
    Disabled,
}

/// A place that usage is read from.
#[derive(Debug, PartialEq, Eq)]
pub struct SourceLocation {
    pub schema_version: String,
    pub source_id: SourceId,
    pub provider: String,
    pub source_kind: SourceKind,
    pub location_origin: LocationOrigin,
    pub adapter_id: String,
    pub adapter_version: String,
    pub path_hash: Option<String>,
    /// Local only: never part of a sync payload.
    pub path_label: Option<String>,
    pub enabled: bool,
    pub verification_mode: SourceVerificationMode,
    pub verified_state_hash: Option<String>,
    pub created_at: Timestamp,
    pub updated_at: Timestamp,
}

impl Clone for SourceLocation {
    fn clone(&self) -> (r: Self)
        ensures
            r == *self,
    {
        SourceLocation {
            schema_version: self.schema_version.clone(),
            source_id: self.source_id.clone(),
            provider: self.provider.clone(),
            source_kind: self.source_kind,
            location_origin: self.location_origin,
            adapter_id: self.adapter_id.clone(),
            adapter_version: self.adapter_version.clone(),
            path_hash: copy_opt(&self.path_hash),
            path_label: copy_opt(&self.path_label),
            enabled: self.enabled,
            verification_mode: self.verification_mode,
            verified_state_hash: copy_opt(&self.verified_state_hash),
            created_at: self.created_at,
            updated_at: self.updated_at,
        }
    }
}

/// An account with a provider.
#[derive(Debug, PartialEq, Eq)]
pub struct ProviderAccount {
    pub schema_version: String,
    pub provider_account_id: ProviderAccountId,
    pub provider: String,
    pub identity_source: IdentitySource,
    pub provider_user_id: Option<String>,
    pub provider_user_id_hash: Option<String>,
    pub email: Option<String>,
    pub email_hash: Option<String>,
    pub org_id_hash: Option<String>,
    pub account_label: Option<String>,
    pub plan_name: Option<String>,
    pub confidence: Confidence,
    pub verified_at: Option<Timestamp>,
    pub created_at: Timestamp,
    pub updated_at: Timestamp,
}

impl Clone for ProviderAccount {
    fn clone(&self) -> (r: Self)
        ensures
            r == *self,
    {
        ProviderAccount {
            schema_version: self.schema_version.clone(),
            provider_account_id: self.provider_account_id.clone(),
            provider: self.provider.clone(),
            identity_source: self.identity_source,
            provider_user_id: copy_opt(&self.provider_user_id),
            provider_user_id_hash: copy_opt(&self.provider_user_id_hash),
            email: copy_opt(&self.email),
            email_hash: copy_opt(&self.email_hash),
            org_id_hash: copy_opt(&self.org_id_hash),
            account_label: copy_opt(&self.account_label),
            plan_name: copy_opt(&self.plan_name),
            confidence: self.confidence,
            verified_at: self.verified_at,
            created_at: self.created_at,
            updated_at: self.updated_at,
        }
    }
}

/// The account that a source's usage belongs to during a period.
#[derive(Debug, PartialEq, Eq)]
pub struct SourceAccountAssignment {
    pub schema_version: String,
    pub assignment_id: SourceAccountAssignmentId,
    pub source_id: SourceId,
    pub provider: String,
    pub provider_account_id: ProviderAccountId,
    pub started_at: Timestamp,
    /// The first instant that no longer belongs to the period.
    pub ended_at: Option<Timestamp>,
    pub record_source: IdentitySource,
    pub verified_at: Option<Timestamp>,
    pub created_at: Timestamp,
    pub updated_at: Timestamp,
}

impl Clone for SourceAccountAssignment {
    fn clone(&self) -> (r: Self)
        ensures
            r == *self,
    {
        SourceAccountAssignment {
            schema_version: self.schema_version.clone(),
            assignment_id: self.assignment_id.clone(),
            source_id: self.source_id.clone(),
            provider: self.provider.clone(),
            provider_account_id: self.provider_account_id.clone(),
            started_at: self.started_at,
            ended_at: self.ended_at,
            record_source: self.record_source,
            verified_at: self.verified_at,
            created_at: self.created_at,
            updated_at: self.updated_at,
        }
    }
}

/// A period of a subscription.
#[derive(Debug, PartialEq, Eq)]
pub struct Subscription {
    pub schema_version: String,
    pub subscription_id: SubscriptionId,
    pub provider: String,
    pub provider_account_id: ProviderAccountId,
    pub plan_name: String,
    /// In hundredths of the currency's unit.
    pub price: i64,
    pub currency: String,
    pub billing_period: BillingPeriod,
    pub paid_at: Option<Timestamp>,
    pub renewal_day: Option<u8>,
    pub started_at: Timestamp,
    /// The first instant that no longer belongs to the period.
    pub ended_at: Option<Timestamp>,
    pub current_period_ends_at: Option<Timestamp>,
    pub status: SubscriptionStatus,
    pub record_source: IdentitySource,
    pub verified_at: Option<Timestamp>,
    pub notes: Option<String>,
}

impl Clone for Subscription {
    fn clone(&self) -> (r: Self)
        ensures
            r == *self,
    {
        Subscription {
            schema_version: self.schema_version.clone(),
            subscription_id: self.subscription_id.clone(),
            provider: self.provider.clone(),
            provider_account_id: self.provider_account_id.clone(),
            plan_name: self.plan_name.clone(),
            price: self.price,
            currency: self.currency.clone(),
            billing_period: self.billing_period,
            paid_at: self.paid_at,
            renewal_day: self.renewal_day,
            started_at: self.started_at,
            ended_at: self.ended_at,
            current_period_ends_at: self.current_period_ends_at,
            status: self.status,
            record_source: self.record_source,
            verified_at: self.verified_at,
            notes: copy_opt(&self.notes),
        }
    }
}

/// Where an event or a summary comes from.
#[derive(Debug, PartialEq, Eq)]
pub struct EventSource {
    pub adapter_id: String,
    pub adapter_version: String,
    pub source_kind: SourceKind,
    pub location_origin: Option<LocationOrigin>,
    pub source_type: String,
    pub source_path_hash: Option<String>,
    pub source_record_id: Option<String>,
    pub parse_confidence: Confidence,
}

impl Clone for EventSource {
    fn clone(&self) -> (r: Self)
        ensures
            r == *self,
    {
        EventSource {
            adapter_id: self.adapter_id.clone(),
            adapter_version: self.adapter_version.clone(),
            source_kind: self.source_kind,
            location_origin: self.location_origin,
            source_type: self.source_type.clone(),
            source_path_hash: copy_opt(&self.source_path_hash),
            source_record_id: copy_opt(&self.source_record_id),
            parse_confidence: self.parse_confidence,
        }
    }
}

#[derive(Debug, PartialEq, Eq)]
pub struct SessionInfo {
    pub session_id: String,
    pub local_session_id_hash: Option<String>,
    pub title: Option<String>,
    pub started_at: Timestamp,
    pub ended_at: Option<Timestamp>,
    pub duration_seconds: Option<u64>,
}

impl Clone for SessionInfo {
    fn clone(&self) -> (r: Self)
        ensures
            r == *self,
    {
        SessionInfo {
            session_id: self.session_id.clone(),
            local_session_id_hash: copy_opt(&self.local_session_id_hash),
            title: copy_opt(&self.title),
            started_at: self.started_at,
            ended_at: self.ended_at,
            duration_seconds: self.duration_seconds,
        }
    }
}

#[derive(Debug, PartialEq, Eq)]
pub struct ModelInfo {
    pub name: Option<String>,
    pub normalized_name: Option<String>,
    pub provider_model_id: Option<String>,
}

impl Clone for ModelInfo {
    fn clone(&self) -> (r: Self)
        ensures
            r == *self,
    {
        ModelInfo {
            name: copy_opt(&self.name),
            normalized_name: copy_opt(&self.normalized_name),
            provider_model_id: copy_opt(&self.provider_model_id),
        }
    }
}

/// Token counts as a provider gives them; a missing count is not known.
#[derive(Debug, Clone, Copy, PartialEq, Eq, Structural)]
pub struct UsageCounts {
    pub input_tokens: Option<u64>,
    pub output_tokens: Option<u64>,
    pub cache_creation_tokens: Option<u64>,
    pub cache_creation_5m_tokens: Option<u64>,
    pub cache_creation_1h_tokens: Option<u64>,
    pub cache_read_tokens: Option<u64>,
    pub reasoning_tokens: Option<u64>,
    pub total_tokens: Option<u64>,
    pub requests: Option<u64>,
    pub local_prompt_eval_tokens: Option<u64>,
    pub local_eval_tokens: Option<u64>,
}

impl Default for UsageCounts {
    fn default() -> (r: Self)
        ensures
            r == UsageCounts::none(),
    {
        UsageCounts {
            input_tokens: None,
            output_tokens: None,
            cache_creation_tokens: None,
            cache_creation_5m_tokens: None,
            cache_creation_1h_tokens: None,
            cache_read_tokens: None,
            reasoning_tokens: None,
            total_tokens: None,
            requests: None,
            local_prompt_eval_tokens: None,
            local_eval_tokens: None,
        }
    }
}

pub open spec fn or_zero(o: Option<u64>) -> u64 {
    match o {
        Some(n) => n,
        None => 0,
    }
}

impl UsageCounts {
    pub open spec fn none() -> UsageCounts {
        UsageCounts {
            input_tokens: None,
            output_tokens: None,
            cache_creation_tokens: None,
            cache_creation_5m_tokens: None,
            cache_creation_1h_tokens: None,
            cache_read_tokens: None,
            reasoning_tokens: None,
            total_tokens: None,
            requests: None,
            local_prompt_eval_tokens: None,
            local_eval_tokens: None,
        }
    }

    /// The total as given, or the sum of the parts where none is given.
    pub open spec fn computed_total_spec(self) -> u64 {
        match self.total_tokens {
            Some(n) => n,
            None => sat_add(
                sat_add(
                    sat_add(
                        sat_add(or_zero(self.input_tokens), or_zero(self.output_tokens)),
                        or_zero(self.cache_creation_tokens),
                    ),
                    or_zero(self.cache_read_tokens),
                ),
                or_zero(self.reasoning_tokens),
            ),
        }
    }

    pub fn computed_total(&self) -> (r: u64)
        ensures
            r == self.computed_total_spec(),
    {
        match self.total_tokens {
            Some(n) => n,
            None => self.input_tokens.unwrap_or(0).saturating_add(
                self.output_tokens.unwrap_or(0),
            ).saturating_add(self.cache_creation_tokens.unwrap_or(0)).saturating_add(
                self.cache_read_tokens.unwrap_or(0),
            ).saturating_add(self.reasoning_tokens.unwrap_or(0)),
        }
    }
}

/// What usage cost, in hundredths of a dollar.
#[derive(Debug, PartialEq, Eq)]
pub struct CostInfo {
    pub currency: String,
    pub estimated_api_equivalent_usd: Option<i64>,
    pub provider_reported_usd: Option<i64>,
    pub pricing_source: Option<String>,
    pub pricing_version: Option<String>,
    pub confidence: Confidence,
}

impl Clone for CostInfo {
    fn clone(&self) -> (r: Self)
        ensures
            r == *self,
    {
        CostInfo {
            currency: self.currency.clone(),
            estimated_api_equivalent_usd: self.estimated_api_equivalent_usd,
            provider_reported_usd: self.provider_reported_usd,
            pricing_source: copy_opt(&self.pricing_source),
            pricing_version: copy_opt(&self.pricing_version),
            confidence: self.confidence,
        }
    }
}

/// How a record was read from its source.
#[derive(Debug, PartialEq, Eq)]
pub struct ParseEvidence {
    pub event_key_version: String,
    pub source_file_path_hash: Option<String>,
    /// Local only: never part of a sync payload.
    pub source_line_number: Option<u64>,
    /// Local only: never part of a sync payload.
    pub source_record_id: Option<String>,
    pub model_inferred: bool,
    pub timestamp_inferred: bool,
    pub account_identity_source: IdentitySource,
}

impl Clone for ParseEvidence {
    fn clone(&self) -> (r: Self)
        ensures
            r == *self,
    {
        ParseEvidence {
            event_key_version: self.event_key_version.clone(),
            source_file_path_hash: copy_opt(&self.source_file_path_hash),
            source_line_number: self.source_line_number,
            source_record_id: copy_opt(&self.source_record_id),
            model_inferred: self.model_inferred,
            timestamp_inferred: self.timestamp_inferred,
            account_identity_source: self.account_identity_source,
        }
    }
}

#[derive(Debug, Clone, Copy, PartialEq, Eq, Structural)]
pub struct PrivacyInfo {
    pub mode: PrivacyMode,
    pub contains_prompt_text: bool,
    pub contains_response_text: bool,
    pub contains_file_paths: bool,
}

/// One use of a model.
#[derive(Debug, PartialEq, Eq)]
pub struct UsageEvent {
    pub schema_version: String,
    pub event_id: EventId,
    pub device_id: String,
    pub provider: String,
    pub source_id: SourceId,
    pub provider_account_id: Option<ProviderAccountId>,
    pub subscription_id: Option<SubscriptionId>,
    pub source: EventSource,
    pub session: SessionInfo,
    pub model: Option<ModelInfo>,
    pub usage: UsageCounts,
    pub cost: CostInfo,
    pub parse_evidence: Option<ParseEvidence>,
    pub project: Option<ProjectInfo>,
    pub privacy: PrivacyInfo,
    pub created_at: Timestamp,
    pub imported_at: Timestamp,
}

pub fn copy_account_id(o: &Option<ProviderAccountId>) -> (r: Option<ProviderAccountId>)
    ensures
        r == *o,
{
    match o {
        Some(x) => Some(x.clone()),
        None => None,
    }
}

fn copy_model(o: &Option<ModelInfo>) -> (r: Option<ModelInfo>)
    ensures
        r == *o,
{
    match o {
        Some(x) => Some(x.clone()),
        None => None,
    }
}

fn copy_evidence(o: &Option<ParseEvidence>) -> (r: Option<ParseEvidence>)
    ensures
        r == *o,
{
    match o {
        Some(x) => Some(x.clone()),
        None => None,
    }
}

fn copy_project(o: &Option<ProjectInfo>) -> (r: Option<ProjectInfo>)
    ensures
        r == *o,
{
    match o {
        Some(x) => Some(x.clone()),
        None => None,
    }
}

impl Clone for UsageEvent {
    fn clone(&self) -> (r: Self)
        ensures
            r == *self,
    {
        UsageEvent {
            schema_version: self.schema_version.clone(),
            event_id: self.event_id.clone(),
            device_id: self.device_id.clone(),
            provider: self.provider.clone(),
            source_id: self.source_id.clone(),
            provider_account_id: copy_account_id(&self.provider_account_id),
            subscription_id: match &self.subscription_id {
                Some(x) => Some(x.clone()),
                None => None,
            },
            source: self.source.clone(),
            session: self.session.clone(),
            model: copy_model(&self.model),
            usage: self.usage,
            cost: self.cost.clone(),
            parse_evidence: copy_evidence(&self.parse_evidence),
            project: copy_project(&self.project),
            privacy: self.privacy,
            created_at: self.created_at,
            imported_at: self.imported_at,
        }
    }
}

#[derive(Debug, PartialEq, Eq)]
pub struct SummaryMetadata {
    pub summary_format: String,
    pub summary_version: Option<String>,
    pub total_sessions: Option<u64>,
    pub total_messages: Option<u64>,
    pub last_computed_at: Option<Timestamp>,
}

impl Clone for SummaryMetadata {
    fn clone(&self) -> (r: Self)
        ensures
            r == *self,
    {
        SummaryMetadata {
            summary_format: self.summary_format.clone(),
            summary_version: copy_opt(&self.summary_version),
            total_sessions: self.total_sessions,
            total_messages: self.total_messages,
            last_computed_at: self.last_computed_at,
        }
    }
}

/// Usage over a period, as a whole.
#[derive(Debug, PartialEq, Eq)]
pub struct UsageSummary {
    pub schema_version: String,
    pub summary_id: SummaryId,
    pub device_id: String,
    pub provider: String,
    pub source_id: SourceId,
    pub provider_account_id: Option<ProviderAccountId>,
    pub source: EventSource,
    pub model: Option<ModelInfo>,
    pub usage: UsageCounts,
    pub cost: CostInfo,
    pub parse_evidence: Option<ParseEvidence>,
    pub project: Option<ProjectInfo>,
    pub privacy: PrivacyInfo,
    pub period_start: Option<Timestamp>,
    pub period_end: Option<Timestamp>,
    pub observed_at: Timestamp,
    pub metadata: SummaryMetadata,
    pub imported_at: Timestamp,
}

impl Clone for UsageSummary {
    fn clone(&self) -> (r: Self)
        ensures
            r == *self,
    {
        UsageSummary {
            schema_version: self.schema_version.clone(),
            summary_id: self.summary_id.clone(),
            device_id: self.device_id.clone(),
            provider: self.provider.clone(),
            source_id: self.source_id.clone(),
            provider_account_id: copy_account_id(&self.provider_account_id),
            source: self.source.clone(),
            model: copy_model(&self.model),
            usage: self.usage,
            cost: self.cost.clone(),
            parse_evidence: copy_evidence(&self.parse_evidence),
            project: copy_project(&self.project),
            privacy: self.privacy,
            period_start: self.period_start,
            period_end: self.period_end,
            observed_at: self.observed_at,
            metadata: self.metadata.clone(),
            imported_at: self.imported_at,
        }
    }
}

/// The account identifier's text, where there is one.
pub open spec fn account_text(o: Option<ProviderAccountId>) -> Option<Seq<char>> {
    match o {
        Some(id) => Some(id.0@),
        None => None,
    }
}

/// Whether an optional account is this one.
pub fn is_account(a: &Option<ProviderAccountId>, id: &ProviderAccountId) -> (r: bool)
    ensures
        r == (account_text(*a) == Some(id.0@)),
{
    match a {
        Some(x) => same_text(x.0.as_str(), id.0.as_str()),
        None => false,
    }
}

pub open spec fn non_blank(o: Option<String>) -> bool {
    o matches Some(s) && !blank(s@)
}

/// What an account is called: its label, else its address, else the provider's
/// name for it, else its identifier. A blank text counts as missing.
pub open spec fn account_name(a: ProviderAccount) -> Seq<char> {
    if non_blank(a.account_label) {
        a.account_label->0@
    } else if non_blank(a.email) {
        a.email->0@
    } else if non_blank(a.provider_user_id) {
        a.provider_user_id->0@
    } else {
        a.provider_account_id.0@
    }
}

fn some_text(o: &Option<String>) -> (r: bool)
    ensures
        r == non_blank(*o),
{
    match o {
        Some(s) => !is_blank(s.as_str()),
        None => false,
    }
}

pub fn display_account_identity(account: &ProviderAccount) -> (r: String)
    ensures
        r@ == account_name(*account),
{
    if some_text(&account.account_label) {
        if let Some(s) = &account.account_label {
            return s.clone();
        }
    }
    if some_text(&account.email) {
        if let Some(s) = &account.email {
            return s.clone();
        }
    }
    if some_text(&account.provider_user_id) {
        if let Some(s) = &account.provider_user_id {
            return s.clone();
        }
    }
    account.provider_account_id.0.clone()
}

/// Whether a login or the provider itself vouched for the record.
pub open spec fn vouched(source: IdentitySource) -> bool {
    match source {
        IdentitySource::LocalAuth => true,
        IdentitySource::ProviderAuth => true,
        IdentitySource::ProviderApi => true,
        IdentitySource::CookieOauth => true,
        IdentitySource::CliProbe => true,
        _ => false,
    }
}

pub fn is_verified_subscription_source(source: &IdentitySource) -> (r: bool)
    ensures
        r == vouched(*source),
{
    match source {
        IdentitySource::LocalAuth => true,
        IdentitySource::ProviderAuth => true,
        IdentitySource::ProviderApi => true,
        IdentitySource::CookieOauth => true,
        IdentitySource::CliProbe => true,
        _ => false,
    }
}

/// When a subscription ends. An active, vouched subscription whose end is only
/// that of the current billing period goes on.
pub open spec fn effective_end(s: Subscription) -> Option<Timestamp> {
    if s.status == SubscriptionStatus::Active && vouched(s.record_source) && s.ended_at is Some
        && s.ended_at == s.current_period_ends_at {
        None
    } else {
        s.ended_at
    }
}

fn same_instant(a: Option<Timestamp>, b: Option<Timestamp>) -> (r: bool)
    ensures
        r == (a == b),
{
    match (a, b) {
        (Some(x), Some(y)) => x == y,
        (None, None) => true,
        _ => false,
    }
}

pub fn effective_subscription_ended_at(subscription: &Subscription) -> (r: Option<Timestamp>)
    ensures
        r == effective_end(*subscription),
{
    if subscription.status == SubscriptionStatus::Active && is_verified_subscription_source(
        &subscription.record_source,
    ) && subscription.ended_at.is_some() && same_instant(
        subscription.ended_at,
        subscription.current_period_ends_at,
    ) {
        None
    } else {
        subscription.ended_at
    }
}

// ---------------------------------------------------------------------------
// Periods
// ---------------------------------------------------------------------------

/// Whether an instant lies in a period, whose end does not belong to it.
pub open spec fn in_period(t: Timestamp, start: Timestamp, end: Option<Timestamp>) -> bool {
    start.at() <= t.at() && (end matches Some(e) ==> t.at() < e.at())
}

pub open spec fn end_or_last(end: Option<Timestamp>) -> Timestamp {
    match end {
        Some(e) => e,
        None => last_instant(),
    }
}

/// Whether two periods have an instant in common; a period without an end goes
/// on to the last instant of the time line.
pub open spec fn overlapping(
    a_start: Timestamp,
    a_end: Option<Timestamp>,
    b_start: Timestamp,
    b_end: Option<Timestamp>,
) -> bool {
    a_start.at() < end_or_last(b_end).at() && b_start.at() < end_or_last(a_end).at()
}

pub fn timestamp_in_period(
    timestamp: Timestamp,
    started_at: Timestamp,
    ended_at: Option<Timestamp>,
) -> (r: bool)
    ensures
        r == in_period(timestamp, started_at, ended_at),
{
    started_at.not_after(&timestamp) && match ended_at {
        Some(e) => timestamp.before(&e),
        None => true,
    }
}

fn end_of(end: Option<Timestamp>) -> (r: Timestamp)
    ensures
        r == end_or_last(end),
{
    match end {
        Some(e) => e,
        None => Timestamp { secs: MAX_SECONDS, nanos: 999_999_999 },
    }
}

pub fn periods_overlap(
    left_started_at: Timestamp,
    left_ended_at: Option<Timestamp>,
    right_started_at: Timestamp,
    right_ended_at: Option<Timestamp>,
) -> (r: bool)
    ensures
        r == overlapping(left_started_at, left_ended_at, right_started_at, right_ended_at),
{
    let left_end = end_of(left_ended_at);
    let right_end = end_of(right_ended_at);
    left_started_at.before(&right_end) && right_started_at.before(&left_end)
}

/// Overlapping does not depend on which period is named first.
pub proof fn overlap_is_symmetric(
    a_start: Timestamp,
    a_end: Option<Timestamp>,
    b_start: Timestamp,
    b_end: Option<Timestamp>,
)
    ensures
        overlapping(a_start, a_end, b_start, b_end) == overlapping(b_start, b_end, a_start, a_end),
{
}

/// Two periods with an instant in common overlap, but for the last instant of the
/// time line.
pub proof fn a_shared_instant_is_an_overlap(
    t: Timestamp,
    a_start: Timestamp,
    a_end: Option<Timestamp>,
    b_start: Timestamp,
    b_end: Option<Timestamp>,
)
    requires
        in_period(t, a_start, a_end),
        in_period(t, b_start, b_end),
        t.at() < last_instant().at(),
    ensures
        overlapping(a_start, a_end, b_start, b_end),
{
}

/// Two periods, each of which holds its own start, that overlap have an instant
/// in common.
pub proof fn an_overlap_shares_an_instant(
    a_start: Timestamp,
    a_end: Option<Timestamp>,
    b_start: Timestamp,
    b_end: Option<Timestamp>,
)
    requires
        overlapping(a_start, a_end, b_start, b_end),
        in_period(a_start, a_start, a_end),
        in_period(b_start, b_start, b_end),
    ensures
        exists|t: Timestamp| in_period(t, a_start, a_end) && in_period(t, b_start, b_end),
{
    if a_start.at() <= b_start.at() {
        assert(in_period(b_start, a_start, a_end) && in_period(b_start, b_start, b_end));
    } else {
        assert(in_period(a_start, a_start, a_end) && in_period(a_start, b_start, b_end));
    }
}

} // verus!
