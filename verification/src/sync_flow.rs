//! What is synced, where to, and what the server's answers mean.
use crate::batch_ids::{logical_http_rollup_batch_id, logical_id};
use crate::ids::SummaryId;
use crate::json::{
    is_json, json_string_at, json_u64_at, json_valid, read_json_string, read_json_u64,
};
use crate::records::{
    EventSource, IdentitySource, ParseEvidence, ProviderAccount, SourceAccountAssignment,
    SourceLocation, Subscription, UsageEvent, UsageSummary,
};
use crate::sync::{
    BatchModel, DAILY_ROLLUP_FORMAT, HTTP_ROLLUP_METADATA_RECORDS_PER_BATCH,
    SYNC_BATCH_SCHEMA_VERSION, SyncBatch, batch_models, chunks_of, copy_all, half,
    http_rollup_metadata_count, split_http_rollup_sync_batch_after_budget_error, split_spec,
};
use crate::text::{
    before_suffix, blank, concat2, concat3, contains_text, decimal, decimal_text, join, joined,
    occurs, opt_str, opt_text, same_text, signed_decimal, signed_decimal_text, strip_suffix, texts,
    trim, trim_back_char, trim_end_char, trimmed,
};
use crate::time::{Timestamp, opt_wf, rfc3339_text};
use vstd::prelude::*;

verus! {

// ---------------------------------------------------------------------------
// What leaves the device
// ---------------------------------------------------------------------------

/// How usage is sent: record by record, or added up by day.
#[derive(Debug, Clone, Copy, PartialEq, Eq, Structural)]
pub enum SyncPayloadMode {
    Raw,
    Rollups,
}

pub open spec fn source_for_sync(s: SourceLocation) -> SourceLocation {
    SourceLocation { path_label: None, ..s }
}

/// A source without its local path.
pub fn sanitize_source_for_sync(source: SourceLocation) -> (r: SourceLocation)
    ensures
        r == source_for_sync(source),
{
    let mut r = source;
    r.path_label = None;
    r
}

pub open spec fn account_for_sync(a: ProviderAccount) -> ProviderAccount {
    ProviderAccount {
        account_label: if a.identity_source == IdentitySource::UserConfigured {
            a.account_label
        } else {
            None
        },
        plan_name: None,
        ..a
    }
}

/// An account without its plan, and without a label that the user did not choose.
pub fn sanitize_account_for_sync(account: ProviderAccount) -> (r: ProviderAccount)
    ensures
        r == account_for_sync(account),
{
    let mut r = account;
    if r.identity_source != IdentitySource::UserConfigured {
        r.account_label = None;
    }
    r.plan_name = None;
    r
}

/// An assignment holds nothing that stays on the device.
pub fn sanitize_source_account_assignment_for_sync(assignment: SourceAccountAssignment) -> (r:
    SourceAccountAssignment)
    ensures
        r == assignment,
{
    assignment
}

pub open spec fn subscription_for_sync(s: Subscription) -> Subscription {
    Subscription { notes: None, ..s }
}

/// A subscription without its notes.
pub fn sanitize_subscription_for_sync(subscription: Subscription) -> (r: Subscription)
    ensures
        r == subscription_for_sync(subscription),
{
    let mut r = subscription;
    r.notes = None;
    r
}

pub open spec fn evidence_for_sync(o: Option<ParseEvidence>) -> Option<ParseEvidence> {
    match o {
        Some(e) => Some(
            ParseEvidence { source_line_number: None, source_record_id: None, ..e },
        ),
        None => None,
    }
}

fn sanitize_evidence(o: Option<ParseEvidence>) -> (r: Option<ParseEvidence>)
    ensures
        r == evidence_for_sync(o),
{
    match o {
        Some(e) => {
            let mut x = e;
            x.source_line_number = None;
            x.source_record_id = None;
            Some(x)
        },
        None => None,
    }
}

pub open spec fn event_for_sync(e: UsageEvent) -> UsageEvent {
    UsageEvent {
        source: EventSource { source_record_id: None, ..e.source },
        parse_evidence: evidence_for_sync(e.parse_evidence),
        ..e
    }
}

/// An event without where exactly it was read.
pub fn sanitize_event_for_sync(event: UsageEvent) -> (r: UsageEvent)
    ensures
        r == event_for_sync(event),
{
    let mut r = event;
    r.source.source_record_id = None;
    let evidence = r.parse_evidence.take();
    r.parse_evidence = sanitize_evidence(evidence);
    r
}

pub open spec fn summary_for_sync(s: UsageSummary) -> UsageSummary {
    UsageSummary {
        source: EventSource { source_record_id: None, ..s.source },
        parse_evidence: evidence_for_sync(s.parse_evidence),
        ..s
    }
}

/// A summary without where exactly it was read.
pub fn sanitize_summary_for_sync(summary: UsageSummary) -> (r: UsageSummary)
    ensures
        r == summary_for_sync(summary),
{
    let mut r = summary;
    r.source.source_record_id = None;
    let evidence = r.parse_evidence.take();
    r.parse_evidence = sanitize_evidence(evidence);
    r
}

/// Records that were made fit to leave the device stay as they are.
pub proof fn sanitizing_twice_changes_nothing(
    source: SourceLocation,
    account: ProviderAccount,
    subscription: Subscription,
    event: UsageEvent,
    summary: UsageSummary,
)
    ensures
        source_for_sync(source_for_sync(source)) == source_for_sync(source),
        account_for_sync(account_for_sync(account)) == account_for_sync(account),
        subscription_for_sync(subscription_for_sync(subscription)) == subscription_for_sync(
            subscription,
        ),
        event_for_sync(event_for_sync(event)) == event_for_sync(event),
        summary_for_sync(summary_for_sync(summary)) == summary_for_sync(summary),
{
}

pub open spec fn daily_rollup(s: UsageSummary) -> bool {
    s.metadata.summary_format@ == DAILY_ROLLUP_FORMAT@
}

pub fn is_daily_rollup_summary(summary: &UsageSummary) -> (r: bool)
    ensures
        r == daily_rollup(*summary),
{
    same_text(summary.metadata.summary_format.as_str(), DAILY_ROLLUP_FORMAT)
}

/// The summaries among the first `n` that add up no single day, as they leave the
/// device.
pub open spec fn passthrough_upto(v: Seq<UsageSummary>, n: int) -> Seq<UsageSummary>
    decreases n,
{
    if n <= 0 {
        Seq::empty()
    } else {
        let before = passthrough_upto(v, n - 1);
        if daily_rollup(v[n - 1]) {
            before
        } else {
            before.push(summary_for_sync(v[n - 1]))
        }
    }
}

pub open spec fn passthrough(v: Seq<UsageSummary>) -> Seq<UsageSummary> {
    passthrough_upto(v, v.len() as int)
}

pub fn passthrough_summaries(summaries: &[UsageSummary]) -> (r: Vec<UsageSummary>)
    ensures
        r@ == passthrough(summaries@),
{
    let mut out: Vec<UsageSummary> = Vec::new();
    let mut i: usize = 0;
    while i < summaries.len()
        invariant
            i <= summaries.len(),
            out@ == passthrough_upto(summaries@, i as int),
        decreases summaries.len() - i,
    {
        let clean = sanitize_summary_for_sync(summaries[i].clone());
        if !is_daily_rollup_summary(&clean) {
            out.push(clean);
        }
        i = i + 1;
    }
    out
}

fn clean_summaries(summaries: &[UsageSummary]) -> (r: Vec<UsageSummary>)
    ensures
        r@ == summaries@.map_values(|s: UsageSummary| summary_for_sync(s)),
{
    let mut out: Vec<UsageSummary> = Vec::new();
    let mut i: usize = 0;
    while i < summaries.len()
        invariant
            i <= summaries.len(),
            out@.len() == i,
            forall|k: int| 0 <= k < i ==> #[trigger] out@[k] == summary_for_sync(summaries@[k]),
        decreases summaries.len() - i,
    {
        out.push(sanitize_summary_for_sync(summaries[i].clone()));
        i = i + 1;
    }
    proof {
        assert(out@ =~= summaries@.map_values(|s: UsageSummary| summary_for_sync(s)));
    }
    out
}

fn clean_events(events: &[UsageEvent]) -> (r: Vec<UsageEvent>)
    ensures
        r@ == events@.map_values(|s: UsageEvent| event_for_sync(s)),
{
    let mut out: Vec<UsageEvent> = Vec::new();
    let mut i: usize = 0;
    while i < events.len()
        invariant
            i <= events.len(),
            out@.len() == i,
            forall|k: int| 0 <= k < i ==> #[trigger] out@[k] == event_for_sync(events@[k]),
        decreases events.len() - i,
    {
        out.push(sanitize_event_for_sync(events[i].clone()));
        i = i + 1;
    }
    proof {
        assert(out@ =~= events@.map_values(|s: UsageEvent| event_for_sync(s)));
    }
    out
}

fn clean_sources(sources: &[SourceLocation]) -> (r: Vec<SourceLocation>)
    ensures
        r@ == sources@.map_values(|s: SourceLocation| source_for_sync(s)),
{
    let mut out: Vec<SourceLocation> = Vec::new();
    let mut i: usize = 0;
    while i < sources.len()
        invariant
            i <= sources.len(),
            out@.len() == i,
            forall|k: int| 0 <= k < i ==> #[trigger] out@[k] == source_for_sync(sources@[k]),
        decreases sources.len() - i,
    {
        out.push(sanitize_source_for_sync(sources[i].clone()));
        i = i + 1;
    }
    proof {
        assert(out@ =~= sources@.map_values(|s: SourceLocation| source_for_sync(s)));
    }
    out
}

fn clean_accounts(accounts: &[ProviderAccount]) -> (r: Vec<ProviderAccount>)
    ensures
        r@ == accounts@.map_values(|s: ProviderAccount| account_for_sync(s)),
{
    let mut out: Vec<ProviderAccount> = Vec::new();
    let mut i: usize = 0;
    while i < accounts.len()
        invariant
            i <= accounts.len(),
            out@.len() == i,
            forall|k: int| 0 <= k < i ==> #[trigger] out@[k] == account_for_sync(accounts@[k]),
        decreases accounts.len() - i,
    {
        out.push(sanitize_account_for_sync(accounts[i].clone()));
        i = i + 1;
    }
    proof {
        assert(out@ =~= accounts@.map_values(|s: ProviderAccount| account_for_sync(s)));
    }
    out
}

fn clean_subscriptions(subscriptions: &[Subscription]) -> (r: Vec<Subscription>)
    ensures
        r@ == subscriptions@.map_values(|s: Subscription| subscription_for_sync(s)),
{
    let mut out: Vec<Subscription> = Vec::new();
    let mut i: usize = 0;
    while i < subscriptions.len()
        invariant
            i <= subscriptions.len(),
            out@.len() == i,
            forall|k: int|
                0 <= k < i ==> #[trigger] out@[k] == subscription_for_sync(subscriptions@[k]),
        decreases subscriptions.len() - i,
    {
        out.push(sanitize_subscription_for_sync(subscriptions[i].clone()));
        i = i + 1;
    }
    proof {
        assert(out@ =~= subscriptions@.map_values(|s: Subscription| subscription_for_sync(s)));
    }
    out
}

/// What a sync starts from, fit to leave the device.
#[derive(Debug, Clone, PartialEq, Eq)]
pub struct SyncRecords {
    pub sources: Vec<SourceLocation>,
    pub accounts: Vec<ProviderAccount>,
    pub source_account_assignments: Vec<SourceAccountAssignment>,
    pub subscriptions: Vec<Subscription>,
    pub events: Vec<UsageEvent>,
    pub summaries: Vec<UsageSummary>,
}

/// The stored records as they may leave the device. Where usage is added up by
/// day no event leaves it, and neither does a stored summary of a day.
pub fn sync_records(
    mode: SyncPayloadMode,
    sources: &[SourceLocation],
    accounts: &[ProviderAccount],
    source_account_assignments: &[SourceAccountAssignment],
    subscriptions: &[Subscription],
    events: &[UsageEvent],
    summaries: &[UsageSummary],
) -> (r: SyncRecords)
    ensures
        r.sources@ == sources@.map_values(|s: SourceLocation| source_for_sync(s)),
        r.accounts@ == accounts@.map_values(|s: ProviderAccount| account_for_sync(s)),
        r.source_account_assignments@ == source_account_assignments@,
        r.subscriptions@ == subscriptions@.map_values(|s: Subscription| subscription_for_sync(s)),
        match mode {
            SyncPayloadMode::Raw => r.events@ == events@.map_values(
                |s: UsageEvent| event_for_sync(s),
            ) && r.summaries@ == summaries@.map_values(|s: UsageSummary| summary_for_sync(s)),
            SyncPayloadMode::Rollups => r.events@.len() == 0 && r.summaries@ == passthrough(
                summaries@,
            ),
        },
{
    let (events, summaries) = match mode {
        SyncPayloadMode::Raw => (clean_events(events), clean_summaries(summaries)),
        SyncPayloadMode::Rollups => (Vec::new(), passthrough_summaries(summaries)),
    };
    SyncRecords {
        sources: clean_sources(sources),
        accounts: clean_accounts(accounts),
        source_account_assignments: copy_all(source_account_assignments),
        subscriptions: clean_subscriptions(subscriptions),
        events,
        summaries,
    }
}

/// Milliseconds since 1970.
pub open spec fn millis_of(t: Timestamp) -> int {
    t.secs * 1000 + t.nanos as int / 1_000_000
}

pub open spec fn batch_id_at(t: Timestamp) -> Seq<char> {
    "batch_"@ + signed_decimal(millis_of(t))
}

/// Puts a batch together. Where usage is added up by day, the daily summaries
/// follow the others; otherwise they have no place in it.
pub fn build_sync_batch(
    mode: SyncPayloadMode,
    device_id: &str,
    stamp: Timestamp,
    created_at: Timestamp,
    records: SyncRecords,
    rollups: &[UsageSummary],
) -> (r: SyncBatch)
    requires
        stamp.wf(),
    ensures
        r.model() == (BatchModel {
            schema_version: SYNC_BATCH_SCHEMA_VERSION@,
            batch_id: batch_id_at(stamp),
            device_id: device_id@,
            sources: records.sources@,
            accounts: records.accounts@,
            assignments: records.source_account_assignments@,
            subscriptions: records.subscriptions@,
            events: records.events@,
            summaries: if mode == SyncPayloadMode::Rollups {
                records.summaries@ + rollups@.map_values(|s: UsageSummary| summary_for_sync(s))
            } else {
                records.summaries@
            },
            created_at,
        }),
{
    let mut summaries = records.summaries;
    if mode == SyncPayloadMode::Rollups {
        let mut more = clean_summaries(rollups);
        summaries.append(&mut more);
    }
    let millis: i64 = stamp.secs * 1000 + (stamp.nanos / 1_000_000) as i64;
    let number = signed_decimal_text(millis);
    let r = SyncBatch {
        schema_version: SYNC_BATCH_SCHEMA_VERSION.to_owned(),
        batch_id: concat2("batch_", number.as_str()),
        device_id: device_id.to_owned(),
        sources: records.sources,
        accounts: records.accounts,
        source_account_assignments: records.source_account_assignments,
        subscriptions: records.subscriptions,
        events: records.events,
        summaries,
        created_at,
    };
    r
}

/// Of a sent batch, the summaries to remember one by one, and the identifiers of
/// the daily ones.
pub open spec fn kept_summaries(v: Seq<UsageSummary>, n: int) -> Seq<UsageSummary>
    decreases n,
{
    if n <= 0 {
        Seq::empty()
    } else if daily_rollup(v[n - 1]) {
        kept_summaries(v, n - 1)
    } else {
        kept_summaries(v, n - 1).push(v[n - 1])
    }
}

pub open spec fn rollup_ids(v: Seq<UsageSummary>, n: int) -> Seq<SummaryId>
    decreases n,
{
    if n <= 0 {
        Seq::empty()
    } else if daily_rollup(v[n - 1]) {
        rollup_ids(v, n - 1).push(v[n - 1].summary_id)
    } else {
        rollup_ids(v, n - 1)
    }
}

pub fn sent_summaries(summaries: &[UsageSummary]) -> (r: (Vec<UsageSummary>, Vec<SummaryId>))
    ensures
        r.0@ == kept_summaries(summaries@, summaries@.len() as int),
        r.1@ == rollup_ids(summaries@, summaries@.len() as int),
        r.0@.len() + r.1@.len() == summaries@.len(),
{
    let mut kept: Vec<UsageSummary> = Vec::new();
    let mut ids: Vec<SummaryId> = Vec::new();
    let mut i: usize = 0;
    while i < summaries.len()
        invariant
            i <= summaries.len(),
            kept@ == kept_summaries(summaries@, i as int),
            ids@ == rollup_ids(summaries@, i as int),
            kept@.len() + ids@.len() == i,
        decreases summaries.len() - i,
    {
        if is_daily_rollup_summary(&summaries[i]) {
            ids.push(summaries[i].summary_id.clone());
        } else {
            kept.push(summaries[i].clone());
        }
        i = i + 1;
    }
    (kept, ids)
}

// ---------------------------------------------------------------------------
// State
// ---------------------------------------------------------------------------

/// What is remembered of a sync target.
#[derive(Debug, Clone, PartialEq, Eq)]
pub struct SyncState {
    pub sink: String,
    pub target: String,
    pub last_success_at: Timestamp,
    pub last_batch_id: String,
    pub last_event_started_at: Option<Timestamp>,
    pub last_event_id: Option<String>,
    pub last_summary_observed_at: Option<Timestamp>,
    pub last_summary_id: Option<String>,
    pub failure_count: u64,
}

pub open spec fn zipped(t: Option<Timestamp>, id: Option<String>) -> Option<(Timestamp, String)> {
    match (t, id) {
        (Some(t), Some(i)) => Some((t, i)),
        _ => None,
    }
}

/// The event after which events are sent: none where usage is added up by day, or
/// where nothing was sent before.
pub fn event_cursor(mode: SyncPayloadMode, state: Option<&SyncState>) -> (r: Option<
    (Timestamp, String),
>)
    ensures
        r == match state {
            Some(s) => if mode == SyncPayloadMode::Rollups {
                None
            } else {
                zipped(s.last_event_started_at, s.last_event_id)
            },
            None => None,
        },
{
    match state {
        Some(s) => {
            if mode == SyncPayloadMode::Rollups {
                return None;
            }
            match (&s.last_event_started_at, &s.last_event_id) {
                (Some(t), Some(id)) => Some((*t, id.clone())),
                _ => None,
            }
        },
        None => None,
    }
}

/// The summary after which summaries are sent.
pub fn summary_cursor(state: Option<&SyncState>) -> (r: Option<(Timestamp, String)>)
    ensures
        r == match state {
            Some(s) => zipped(s.last_summary_observed_at, s.last_summary_id),
            None => None,
        },
{
    match state {
        Some(s) => match (&s.last_summary_observed_at, &s.last_summary_id) {
            (Some(t), Some(id)) => Some((*t, id.clone())),
            _ => None,
        },
        None => None,
    }
}

/// What is done to the daily summaries before a sync.
#[derive(Debug, Clone, Copy, PartialEq, Eq, Structural)]
pub enum RollupPreparation {
    /// Added up anew, and all sent again.
    Rebuild,
    /// Added up for the first time.
    Bootstrap,
    Nothing,
}

pub fn rollup_preparation(
    dry_run: bool,
    rebuild_rollups: bool,
    rollup_count: u64,
    event_count: u64,
) -> (r: RollupPreparation)
    ensures
        r == if dry_run {
            RollupPreparation::Nothing
        } else if rebuild_rollups {
            RollupPreparation::Rebuild
        } else if rollup_count == 0 && event_count > 0 {
            RollupPreparation::Bootstrap
        } else {
            RollupPreparation::Nothing
        },
{
    if dry_run {
        RollupPreparation::Nothing
    } else if rebuild_rollups {
        RollupPreparation::Rebuild
    } else if rollup_count == 0 && event_count > 0 {
        RollupPreparation::Bootstrap
    } else {
        RollupPreparation::Nothing
    }
}

/// Whether all daily summaries are sent, and not only those changed since.
pub fn is_full_rollup_sync(since_last: bool, known_target: bool) -> (r: bool)
    ensures
        r == (!since_last || !known_target),
{
    !since_last || !known_target
}

pub open spec fn cursor_text(date: Option<Seq<char>>, id: Option<Seq<char>>) -> Seq<char> {
    match (date, id) {
        (Some(d), Some(i)) => d + "/"@ + i,
        _ => "none"@,
    }
}

pub fn format_cursor(date: Option<String>, id: Option<&str>) -> (r: String)
    ensures
        r@ == cursor_text(opt_text(date), opt_str(id)),
{
    match (date, id) {
        (Some(d), Some(i)) => concat3(d.as_str(), "/", i),
        _ => "none".to_owned(),
    }
}

/// A sync target's state in words.
#[derive(Debug, Clone, PartialEq, Eq)]
pub struct SyncStateReport {
    pub last_success_at: String,
    pub last_batch_id: String,
    pub event_cursor: String,
    pub summary_cursor: String,
    pub failure_count: u64,
}

pub open spec fn opt_rfc3339(o: Option<Timestamp>) -> Option<Seq<char>> {
    match o {
        Some(t) => Some(rfc3339_text(t.secs as int, t.nanos as int)),
        None => None,
    }
}

fn rfc3339_opt(o: Option<Timestamp>) -> (r: Option<String>)
    requires
        opt_wf(o),
    ensures
        opt_text(r) == opt_rfc3339(o),
{
    match o {
        Some(t) => Some(t.to_rfc3339()),
        None => None,
    }
}

fn as_opt_str(o: &Option<String>) -> (r: Option<&str>)
    ensures
        opt_str(r) == opt_text(*o),
{
    match o {
        Some(s) => Some(s.as_str()),
        None => None,
    }
}

impl SyncState {
    pub open spec fn wf(self) -> bool {
        self.last_success_at.wf() && opt_wf(self.last_event_started_at) && opt_wf(
            self.last_summary_observed_at,
        )
    }
}

pub fn sync_state_report(state: &SyncState) -> (r: SyncStateReport)
    requires
        state.wf(),
    ensures
        r.last_success_at@ == rfc3339_text(
            state.last_success_at.secs as int,
            state.last_success_at.nanos as int,
        ),
        r.last_batch_id@ == logical_id(state.last_batch_id@),
        r.event_cursor@ == cursor_text(
            opt_rfc3339(state.last_event_started_at),
            opt_text(state.last_event_id),
        ),
        r.summary_cursor@ == cursor_text(
            opt_rfc3339(state.last_summary_observed_at),
            opt_text(state.last_summary_id),
        ),
        r.failure_count == state.failure_count,
{
    SyncStateReport {
        last_success_at: state.last_success_at.to_rfc3339(),
        last_batch_id: logical_http_rollup_batch_id(state.last_batch_id.as_str()),
        event_cursor: format_cursor(
            rfc3339_opt(state.last_event_started_at),
            as_opt_str(&state.last_event_id),
        ),
        summary_cursor: format_cursor(
            rfc3339_opt(state.last_summary_observed_at),
            as_opt_str(&state.last_summary_id),
        ),
        failure_count: state.failure_count,
    }
}

// ---------------------------------------------------------------------------
// Where to
// ---------------------------------------------------------------------------

pub open spec fn mode_of(sink: Seq<char>) -> SyncPayloadMode {
    if sink == "http"@ {
        SyncPayloadMode::Rollups
    } else {
        SyncPayloadMode::Raw
    }
}

pub fn sync_payload_mode(sink: &str) -> (r: SyncPayloadMode)
    ensures
        r == mode_of(sink@),
{
    if same_text(sink, "http") {
        SyncPayloadMode::Rollups
    } else {
        SyncPayloadMode::Raw
    }
}

pub fn sync_payload_mode_name(mode: SyncPayloadMode) -> (r: &'static str)
    ensures
        r@ == match mode {
            SyncPayloadMode::Raw => "raw"@,
            SyncPayloadMode::Rollups => "rollups"@,
        },
{
    match mode {
        SyncPayloadMode::Raw => "raw",
        SyncPayloadMode::Rollups => "rollups",
    }
}

/// The text without white space around it, where anything is left.
pub open spec fn given(o: Option<Seq<char>>) -> Option<Seq<char>> {
    match o {
        Some(s) => if blank(s) {
            None
        } else {
            Some(trimmed(s))
        },
        None => None,
    }
}

pub fn non_blank_text(o: Option<&str>) -> (r: Option<String>)
    ensures
        opt_text(r) == given(opt_str(o)),
{
    match o {
        Some(s) => {
            let t = trim(s);
            if t.as_str().is_empty() {
                None
            } else {
                Some(t)
            }
        },
        None => None,
    }
}

pub open spec fn endpoint_spec(endpoint: Option<Seq<char>>, api_url: Seq<char>) -> Seq<char> {
    match given(endpoint) {
        Some(e) => e,
        None => trim_back_char(api_url, '/') + "/api/sync/batches"@,
    }
}

/// The address that batches are sent to: the one given, else the server's own.
pub fn http_sync_endpoint(endpoint: Option<&str>, api_url: &str) -> (r: String)
    ensures
        r@ == endpoint_spec(opt_str(endpoint), api_url@),
{
    match non_blank_text(endpoint) {
        Some(e) => e,
        None => {
            let base = trim_end_char(api_url, '/');
            concat2(base.as_str(), "/api/sync/batches")
        },
    }
}

/// What a sync is remembered under: the address, the file, or the sink's name.
pub fn sync_target(sink: &str, output: Option<&str>, endpoint: Option<&str>, api_url: &str) -> (r:
    String)
    ensures
        r@ == if sink@ == "http"@ {
            endpoint_spec(opt_str(endpoint), api_url@)
        } else if sink@ == "file"@ {
            match output {
                Some(p) => p@,
                None => "statsai-sync-batch.json"@,
            }
        } else {
            sink@
        },
{
    if same_text(sink, "http") {
        http_sync_endpoint(endpoint, api_url)
    } else if same_text(sink, "file") {
        match output {
            Some(p) => p.to_owned(),
            None => "statsai-sync-batch.json".to_owned(),
        }
    } else {
        sink.to_owned()
    }
}

/// The address of a service beside the one that batches are sent to.
pub open spec fn sibling_url(endpoint: Seq<char>, service: Seq<char>) -> Option<Seq<char>> {
    match before_suffix(trim_back_char(endpoint, '/'), "/api/sync/batches"@) {
        Some(prefix) => Some(prefix + service),
        None => None,
    }
}

pub fn http_verify_status_url(endpoint: &str) -> (r: Result<String, String>)
    ensures
        match r {
            Ok(url) => sibling_url(endpoint@, "/api/sync/status"@) == Some(url@),
            Err(e) => sibling_url(endpoint@, "/api/sync/status"@) is None && e@
                == "http verify expects a Cloudflare sync endpoint ending in /api/sync/batches; got "@
                + trim_back_char(endpoint@, '/'),
        },
{
    let e = trim_end_char(endpoint, '/');
    match strip_suffix(e.as_str(), "/api/sync/batches") {
        Some(prefix) => Ok(concat2(prefix.as_str(), "/api/sync/status")),
        None => Err(
            concat2(
                "http verify expects a Cloudflare sync endpoint ending in /api/sync/batches; got ",
                e.as_str(),
            ),
        ),
    }
}

pub fn http_reset_url(endpoint: &str) -> (r: Result<String, String>)
    ensures
        match r {
            Ok(url) => sibling_url(endpoint@, "/api/sync/reset"@) == Some(url@),
            Err(e) => sibling_url(endpoint@, "/api/sync/reset"@) is None && e@
                == "http reset expects a Cloudflare sync endpoint ending in /api/sync/batches; got "@
                + trim_back_char(endpoint@, '/'),
        },
{
    let e = trim_end_char(endpoint, '/');
    match strip_suffix(e.as_str(), "/api/sync/batches") {
        Some(prefix) => Ok(concat2(prefix.as_str(), "/api/sync/reset")),
        None => Err(
            concat2(
                "http reset expects a Cloudflare sync endpoint ending in /api/sync/batches; got ",
                e.as_str(),
            ),
        ),
    }
}

/// What a sync command asks for.
#[derive(Debug, Clone, Copy, PartialEq, Eq, Structural)]
pub enum SyncAction {
    ResetRemote,
    Verify,
    ShowStatus,
    Send,
}

pub fn sync_action(reset_remote: bool, status: bool, verify: bool) -> (r: Result<SyncAction, String>)
    ensures
        match r {
            Ok(a) => !(reset_remote && (status || verify)) && a == if reset_remote {
                SyncAction::ResetRemote
            } else if verify {
                SyncAction::Verify
            } else if status {
                SyncAction::ShowStatus
            } else {
                SyncAction::Send
            },
            Err(e) => reset_remote && (status || verify) && e@
                == "--reset-remote cannot be combined with --status or --verify"@,
        },
{
    if reset_remote {
        if status || verify {
            return Err(
                "--reset-remote cannot be combined with --status or --verify".to_owned(),
            );
        }
        return Ok(SyncAction::ResetRemote);
    }
    if verify {
        return Ok(SyncAction::Verify);
    }
    if status {
        return Ok(SyncAction::ShowStatus);
    }
    Ok(SyncAction::Send)
}

#[derive(Debug, Clone, Copy, PartialEq, Eq, Structural)]
pub enum SinkKind {
    Stdout,
    File,
    Http,
}

pub fn sink_kind(sink: &str) -> (r: Result<SinkKind, String>)
    ensures
        match r {
            Ok(SinkKind::Stdout) => sink@ == "stdout"@,
            Ok(SinkKind::File) => sink@ == "file"@,
            Ok(SinkKind::Http) => sink@ == "http"@,
            Err(e) => sink@ != "stdout"@ && sink@ != "file"@ && sink@ != "http"@ && e@
                == "unsupported sync sink "@ + sink@,
        },
{
    if same_text(sink, "stdout") {
        Ok(SinkKind::Stdout)
    } else if same_text(sink, "file") {
        Ok(SinkKind::File)
    } else if same_text(sink, "http") {
        Ok(SinkKind::Http)
    } else {
        Err(concat2("unsupported sync sink ", sink))
    }
}

/// What a request to delete the server's copy leads to.
#[derive(Debug, Clone, Copy, PartialEq, Eq, Structural)]
pub enum ResetAction {
    Preview,
    Perform,
}

/// Deleting the server's copy needs the server as the sink and, unless it is only
/// previewed, the user's consent.
pub fn reset_action(sink: &str, dry_run: bool, yes: bool) -> (r: Result<ResetAction, String>)
    ensures
        match r {
            Ok(a) => sink@ == "http"@ && (dry_run || yes) && a == if dry_run {
                ResetAction::Preview
            } else {
                ResetAction::Perform
            },
            Err(e) => if sink@ != "http"@ {
                e@ == "--reset-remote is currently supported only with --sink http"@
            } else {
                !dry_run && !yes && e@
                    == "--reset-remote deletes mirrored hosted sync data; rerun with --yes"@
            },
        },
{
    if !same_text(sink, "http") {
        return Err("--reset-remote is currently supported only with --sink http".to_owned());
    }
    if dry_run {
        return Ok(ResetAction::Preview);
    }
    if !yes {
        return Err("--reset-remote deletes mirrored hosted sync data; rerun with --yes".to_owned());
    }
    Ok(ResetAction::Perform)
}

/// The token that was given, on the command line first, else in the environment.
pub fn explicit_auth_token(flag: Option<&str>, environment: Option<&str>) -> (r: Option<String>)
    ensures
        opt_text(r) == match given(opt_str(flag)) {
            Some(t) => Some(t),
            None => given(opt_str(environment)),
        },
{
    match non_blank_text(flag) {
        Some(t) => Some(t),
        None => non_blank_text(environment),
    }
}

/// The token of the stored login; failing where one is needed and there is none.
pub fn stored_auth_token(token: Option<String>, required: bool) -> (r: Result<
    Option<String>,
    String,
>)
    ensures
        match r {
            Ok(t) => t == token && (required ==> token is Some),
            Err(e) => required && token is None && e@
                == "device login required; run `statsai auth login` first"@,
        },
{
    if required && token.is_none() {
        return Err("device login required; run `statsai auth login` first".to_owned());
    }
    Ok(token)
}

// ---------------------------------------------------------------------------
// The server's answers
// ---------------------------------------------------------------------------

/// What the server says it holds.
#[derive(Debug, Clone, PartialEq, Eq)]
pub struct RemoteSyncStatus {
    pub last_sync_batch_id: Option<String>,
    pub sources: Option<u64>,
    pub accounts: Option<u64>,
    pub source_account_assignments: Option<u64>,
    pub subscriptions: Option<u64>,
}

pub open spec fn opt_int(o: Option<u64>) -> Option<int> {
    match o {
        Some(n) => Some(n as int),
        None => None,
    }
}

/// Reads what the server says it holds; nothing where its answer is not JSON.
pub fn remote_sync_status(body: &str) -> (r: Option<RemoteSyncStatus>)
    ensures
        match r {
            Some(s) => {
                &&& json_valid(body@)
                &&& opt_text(s.last_sync_batch_id) == json_string_at(
                    body@,
                    "/device/last_sync_batch_id"@,
                )
                &&& opt_int(s.sources) == json_u64_at(body@, "/mirrorCounts/sources"@)
                &&& opt_int(s.accounts) == json_u64_at(body@, "/mirrorCounts/accounts"@)
                &&& opt_int(s.source_account_assignments) == json_u64_at(
                    body@,
                    "/mirrorCounts/source_account_assignments"@,
                )
                &&& opt_int(s.subscriptions) == json_u64_at(body@, "/mirrorCounts/subscriptions"@)
            },
            None => !json_valid(body@),
        },
{
    if !is_json(body) {
        return None;
    }
    Some(
        RemoteSyncStatus {
            last_sync_batch_id: read_json_string(body, "/device/last_sync_batch_id"),
            sources: read_json_u64(body, "/mirrorCounts/sources"),
            accounts: read_json_u64(body, "/mirrorCounts/accounts"),
            source_account_assignments: read_json_u64(
                body,
                "/mirrorCounts/source_account_assignments",
            ),
            subscriptions: read_json_u64(body, "/mirrorCounts/subscriptions"),
        },
    )
}

pub fn remote_last_sync_batch_id(remote: &RemoteSyncStatus) -> (r: Option<String>)
    ensures
        opt_text(r) == given(opt_text(remote.last_sync_batch_id)),
{
    non_blank_text(as_opt_str(&remote.last_sync_batch_id))
}

/// Whether the server's last batch is the local one, or a part of it.
pub open spec fn remote_matches(remote: Option<Seq<char>>, local: Seq<char>) -> bool {
    given(remote) matches Some(id) && logical_id(id) == logical_id(local)
}

pub fn remote_sync_batch_matches_local_state(
    remote: &RemoteSyncStatus,
    last_batch_id: &str,
) -> (r: bool)
    ensures
        r == remote_matches(opt_text(remote.last_sync_batch_id), last_batch_id@),
{
    match remote_last_sync_batch_id(remote) {
        Some(id) => {
            let a = logical_http_rollup_batch_id(id.as_str());
            let b = logical_http_rollup_batch_id(last_batch_id);
            same_text(a.as_str(), b.as_str())
        },
        None => false,
    }
}

/// What is stored locally, and what of it still has to be sent.
#[derive(Debug, Clone, PartialEq, Eq)]
pub struct SyncLocalVerify {
    pub sync_state: Option<SyncStateReport>,
    pub total_sources: usize,
    pub enabled_sources: usize,
    pub pending_sources: usize,
    pub total_accounts: usize,
    pub pending_accounts: usize,
    pub total_source_account_assignments: usize,
    pub pending_source_account_assignments: usize,
    pub total_subscriptions: usize,
    pub pending_subscriptions: usize,
    pub total_passthrough_summaries: usize,
    pub pending_passthrough_summaries: usize,
    pub total_rollups: usize,
    pub pending_rollups: usize,
    pub dirty_rollups: usize,
}

/// What still has to be sent, by kind.
#[derive(Debug, Clone, Copy, PartialEq, Eq, Structural)]
pub struct PendingCounts {
    pub sources: usize,
    pub accounts: usize,
    pub source_account_assignments: usize,
    pub subscriptions: usize,
    pub passthrough_summaries: usize,
    pub rollups: usize,
    pub dirty_rollups: usize,
}

/// How many of the first `n` sources are enabled.
pub open spec fn enabled_upto(v: Seq<SourceLocation>, n: int) -> int
    decreases n,
{
    if n <= 0 {
        0
    } else {
        enabled_upto(v, n - 1) + if v[n - 1].enabled {
            1int
        } else {
            0int
        }
    }
}

fn count_enabled(sources: &[SourceLocation]) -> (r: usize)
    ensures
        r == enabled_upto(sources@, sources@.len() as int),
{
    let mut count: usize = 0;
    let mut i: usize = 0;
    while i < sources.len()
        invariant
            i <= sources.len(),
            count <= i,
            count == enabled_upto(sources@, i as int),
        decreases sources.len() - i,
    {
        if sources[i].enabled {
            count = count + 1;
        }
        i = i + 1;
    }
    count
}

pub fn sync_local_verify(
    sync_state: Option<SyncStateReport>,
    sources: &[SourceLocation],
    accounts: &[ProviderAccount],
    source_account_assignments: &[SourceAccountAssignment],
    subscriptions: &[Subscription],
    summaries: &[UsageSummary],
    rollups: &[UsageSummary],
    pending: PendingCounts,
) -> (r: SyncLocalVerify)
    ensures
        r == (SyncLocalVerify {
            sync_state,
            total_sources: sources@.len() as usize,
            enabled_sources: enabled_upto(sources@, sources@.len() as int) as usize,
            pending_sources: pending.sources,
            total_accounts: accounts@.len() as usize,
            pending_accounts: pending.accounts,
            total_source_account_assignments: source_account_assignments@.len() as usize,
            pending_source_account_assignments: pending.source_account_assignments,
            total_subscriptions: subscriptions@.len() as usize,
            pending_subscriptions: pending.subscriptions,
            total_passthrough_summaries: passthrough(summaries@).len() as usize,
            pending_passthrough_summaries: pending.passthrough_summaries,
            total_rollups: rollups@.len() as usize,
            pending_rollups: pending.rollups,
            dirty_rollups: pending.dirty_rollups,
        }),
{
    let kept = passthrough_summaries(summaries);
    SyncLocalVerify {
        sync_state,
        total_sources: sources.len(),
        enabled_sources: count_enabled(sources),
        pending_sources: pending.sources,
        total_accounts: accounts.len(),
        pending_accounts: pending.accounts,
        total_source_account_assignments: source_account_assignments.len(),
        pending_source_account_assignments: pending.source_account_assignments,
        total_subscriptions: subscriptions.len(),
        pending_subscriptions: pending.subscriptions,
        total_passthrough_summaries: kept.len(),
        pending_passthrough_summaries: pending.passthrough_summaries,
        total_rollups: rollups.len(),
        pending_rollups: pending.rollups,
        dirty_rollups: pending.dirty_rollups,
    }
}

/// Why the server's copy of a kind of records has a gap: it says that it holds
/// fewer than there are, though all were sent.
pub open spec fn gap_spec(
    label: Seq<char>,
    remote: Option<u64>,
    total: usize,
    pending: usize,
) -> Option<Seq<char>> {
    match remote {
        Some(n) => if total != 0 && pending == 0 && n < total {
            Some(label + " "@ + decimal(n as nat) + "<"@ + decimal(total as nat))
        } else {
            None
        },
        None => None,
    }
}

pub open spec fn with_gap(reasons: Seq<Seq<char>>, gap: Option<Seq<char>>) -> Seq<Seq<char>> {
    match gap {
        Some(g) => reasons.push(g),
        None => reasons,
    }
}

pub open spec fn gaps_spec(remote: RemoteSyncStatus, local: SyncLocalVerify) -> Seq<Seq<char>> {
    with_gap(
        with_gap(
            with_gap(
                with_gap(
                    Seq::empty(),
                    gap_spec(
                        "sources"@,
                        remote.sources,
                        local.total_sources,
                        local.pending_sources,
                    ),
                ),
                gap_spec(
                    "accounts"@,
                    remote.accounts,
                    local.total_accounts,
                    local.pending_accounts,
                ),
            ),
            gap_spec(
                "source_account_assignments"@,
                remote.source_account_assignments,
                local.total_source_account_assignments,
                local.pending_source_account_assignments,
            ),
        ),
        gap_spec(
            "subscriptions"@,
            remote.subscriptions,
            local.total_subscriptions,
            local.pending_subscriptions,
        ),
    )
}

fn push_remote_metadata_gap(
    reasons: &mut Vec<String>,
    label: &str,
    remote_count: Option<u64>,
    local_total: usize,
    local_pending: usize,
)
    ensures
        texts(final(reasons)@) == with_gap(
            texts(old(reasons)@),
            gap_spec(label@, remote_count, local_total, local_pending),
        ),
{
    if local_total == 0 || local_pending > 0 {
        return;
    }
    if let Some(n) = remote_count {
        if n < local_total as u64 {
            let ghost before = texts(reasons@);
            let a = decimal_text(n);
            let b = decimal_text(local_total as u64);
            let mut reason = concat3(label, " ", a.as_str());
            reason.append("<");
            reason.append(b.as_str());
            reasons.push(reason);
            proof {
                assert(texts(reasons@) =~= before.push(reason@));
            }
        }
    }
}

/// The gaps in the server's copy, in words; nothing where there is none.
pub fn remote_metadata_gap_reason(remote: &RemoteSyncStatus, local: &SyncLocalVerify) -> (r: Option<
    String,
>)
    ensures
        opt_text(r) == if gaps_spec(*remote, *local).len() == 0 {
            None
        } else {
            Some(joined(gaps_spec(*remote, *local), ", "@))
        },
{
    let mut reasons: Vec<String> = Vec::new();
    proof {
        assert(texts(reasons@) =~= Seq::empty());
    }
    push_remote_metadata_gap(
        &mut reasons,
        "sources",
        remote.sources,
        local.total_sources,
        local.pending_sources,
    );
    push_remote_metadata_gap(
        &mut reasons,
        "accounts",
        remote.accounts,
        local.total_accounts,
        local.pending_accounts,
    );
    push_remote_metadata_gap(
        &mut reasons,
        "source_account_assignments",
        remote.source_account_assignments,
        local.total_source_account_assignments,
        local.pending_source_account_assignments,
    );
    push_remote_metadata_gap(
        &mut reasons,
        "subscriptions",
        remote.subscriptions,
        local.total_subscriptions,
        local.pending_subscriptions,
    );
    proof {
        assert(texts(reasons@).len() == reasons@.len());
    }
    if reasons.len() == 0 {
        None
    } else {
        Some(join(&reasons, ", "))
    }
}

/// Why what was sent has to be sent again.
pub open spec fn reset_reasons(
    remote: RemoteSyncStatus,
    last_batch_id: Seq<char>,
    local: SyncLocalVerify,
) -> Seq<Seq<char>> {
    let gaps = gaps_spec(remote, local);
    let mismatch: Seq<Seq<char>> = if remote_matches(
        opt_text(remote.last_sync_batch_id),
        last_batch_id,
    ) {
        Seq::empty()
    } else {
        seq![
            "remote last batch ("@ + (match given(opt_text(remote.last_sync_batch_id)) {
                Some(id) => id,
                None => "none"@,
            }) + ") no longer matches local last batch ("@ + last_batch_id + ")"@,
        ]
    };
    if gaps.len() == 0 {
        mismatch
    } else {
        mismatch.push("remote mirror is missing synced metadata ("@ + joined(gaps, ", "@) + ")"@)
    }
}

/// Why what is remembered of a target has to be forgotten, in words; nothing
/// where the server holds what was sent.
pub fn tracking_reset_reason(
    remote: &RemoteSyncStatus,
    last_batch_id: &str,
    local: &SyncLocalVerify,
) -> (r: Option<String>)
    ensures
        opt_text(r) == if reset_reasons(*remote, last_batch_id@, *local).len() == 0 {
            None
        } else {
            Some(joined(reset_reasons(*remote, last_batch_id@, *local), "; "@))
        },
{
    let mut reasons: Vec<String> = Vec::new();
    proof {
        assert(texts(reasons@) =~= Seq::empty());
    }
    if !remote_sync_batch_matches_local_state(remote, last_batch_id) {
        let last = match remote_last_sync_batch_id(remote) {
            Some(id) => id,
            None => "none".to_owned(),
        };
        let mut reason = concat3(
            "remote last batch (",
            last.as_str(),
            ") no longer matches local last batch (",
        );
        reason.append(last_batch_id);
        reason.append(")");
        reasons.push(reason);
        proof {
            assert(texts(reasons@) =~= seq![reason@]);
        }
    }
    match remote_metadata_gap_reason(remote, local) {
        Some(gap) => {
            let ghost before = texts(reasons@);
            let reason = concat3(
                "remote mirror is missing synced metadata (",
                gap.as_str(),
                ")",
            );
            reasons.push(reason);
            proof {
                assert(texts(reasons@) =~= before.push(reason@));
            }
        },
        None => {},
    }
    proof {
        assert(texts(reasons@) == reset_reasons(*remote, last_batch_id@, *local));
        assert(texts(reasons@).len() == reasons@.len());
    }
    if reasons.len() == 0 {
        None
    } else {
        Some(join(&reasons, "; "))
    }
}

// ---------------------------------------------------------------------------
// Trying again
// ---------------------------------------------------------------------------

/// Whether a batch can be split.
pub open spec fn splittable(m: BatchModel) -> bool {
    ||| m.summaries.len() > 1
    ||| m.sources.len() > 1
    ||| m.accounts.len() > 1
    ||| m.assignments.len() > 1
    ||| m.subscriptions.len() > 1
    ||| (m.metadata() > 0 && m.summaries.len() > 0)
}

/// Whether an error says that a batch was too expensive.
pub open spec fn over_budget(message: Seq<char>) -> bool {
    occurs(message, "HTTP 413"@) && occurs(message, "sync_batch_d1_query_budget_exceeded"@)
}

pub fn should_retry_http_rollup_budget_error(chunk: &SyncBatch, message: &str) -> (r: bool)
    requires
        chunk.model().countable(),
    ensures
        r == (over_budget(message@) && splittable(chunk.model())),
{
    if !(contains_text(message, "HTTP 413") && contains_text(
        message,
        "sync_batch_d1_query_budget_exceeded",
    )) {
        return false;
    }
    chunk.summaries.len() > 1 || chunk.sources.len() > 1 || chunk.accounts.len() > 1
        || chunk.source_account_assignments.len() > 1 || chunk.subscriptions.len() > 1 || (
    http_rollup_metadata_count(chunk) > 0 && chunk.summaries.len() > 0)
}

/// What to send after a batch was refused: smaller batches, each to be sent in
/// turn and split again where it is refused; nothing where the refusal stands.
pub fn retry_batches(chunk: &SyncBatch, message: &str) -> (r: Option<Vec<SyncBatch>>)
    requires
        chunk.model().countable(),
    ensures
        match r {
            Some(v) => over_budget(message@) && splittable(chunk.model()) && batch_models(v@)
                == split_spec(chunk.model()) && v@.len() > 1,
            None => !over_budget(message@) || !splittable(chunk.model()),
        },
{
    if !should_retry_http_rollup_budget_error(chunk, message) {
        return None;
    }
    let smaller = split_http_rollup_sync_batch_after_budget_error(chunk);
    proof {
        a_batch_that_can_be_split_is(chunk.model());
        assert(batch_models(smaller@).len() == smaller@.len());
    }
    Some(smaller)
}

proof fn lemma_two_chunks<T>(s: Seq<T>, size: int)
    requires
        0 < size < s.len(),
    ensures
        chunks_of(s, size).len() >= 2,
{
    assert(s.skip(size).len() > 0);
    reveal_with_fuel(chunks_of, 2);
}

/// A batch can be split exactly where splitting gives more than one batch, so a
/// refused batch is given up only once it holds nothing to part.
pub proof fn a_batch_that_can_be_split_is(m: BatchModel)
    ensures
        splittable(m) == (split_spec(m).len() > 1),
{
    let n = m.summaries.len() as int;
    let size = HTTP_ROLLUP_METADATA_RECORDS_PER_BATCH as int;
    if m.metadata() > 0 && n > 0 {
        assert(chunks_of(m.summaries, n).len() == 1);
        assert(m.sources.len() > 0 ==> chunks_of(m.sources, size).len() > 0);
        assert(m.accounts.len() > 0 ==> chunks_of(m.accounts, size).len() > 0);
        assert(m.assignments.len() > 0 ==> chunks_of(m.assignments, size).len() > 0);
        assert(m.subscriptions.len() > 0 ==> chunks_of(m.subscriptions, size).len() > 0);
    } else if n > 1 {
        lemma_two_chunks(m.summaries, half(n));
    } else if m.sources.len() > 1 {
        lemma_two_chunks(m.sources, half(m.sources.len() as int));
    } else if m.accounts.len() > 1 {
        lemma_two_chunks(m.accounts, half(m.accounts.len() as int));
    } else if m.assignments.len() > 1 {
        lemma_two_chunks(m.assignments, half(m.assignments.len() as int));
    } else if m.subscriptions.len() > 1 {
        lemma_two_chunks(m.subscriptions, half(m.subscriptions.len() as int));
    }
}

} // verus!
