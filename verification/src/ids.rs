//! Stable identifiers: a prefix and the first digits of a content hash.
use crate::hashing::{hash_of, hash_prefix, hash_text, short_hash};
use crate::text::{concat2, decimal, decimal_text, join, joined, texts};
use crate::time::{Timestamp, rfc3339_text};
use vstd::prelude::*;

verus! {

#[derive(Debug, PartialEq, Eq, PartialOrd, Ord, Hash)]
pub struct SourceId(pub String);

#[derive(Debug, PartialEq, Eq, PartialOrd, Ord, Hash)]
pub struct ProviderAccountId(pub String);

#[derive(Debug, PartialEq, Eq, Hash)]
pub struct SubscriptionId(pub String);

#[derive(Debug, PartialEq, Eq, Hash)]
pub struct SourceAccountAssignmentId(pub String);

#[derive(Debug, PartialEq, Eq, Hash)]
pub struct EventId(pub String);

#[derive(Debug, PartialEq, Eq, Hash)]
pub struct SummaryId(pub String);

impl Clone for SourceId {
    fn clone(&self) -> (r: Self)
        ensures
            r == *self,
    {
        SourceId(self.0.clone())
    }
}

impl Clone for ProviderAccountId {
    fn clone(&self) -> (r: Self)
        ensures
            r == *self,
    {
        ProviderAccountId(self.0.clone())
    }
}

impl Clone for SubscriptionId {
    fn clone(&self) -> (r: Self)
        ensures
            r == *self,
    {
        SubscriptionId(self.0.clone())
    }
}

impl Clone for SourceAccountAssignmentId {
    fn clone(&self) -> (r: Self)
        ensures
            r == *self,
    {
        SourceAccountAssignmentId(self.0.clone())
    }
}

impl Clone for EventId {
    fn clone(&self) -> (r: Self)
        ensures
            r == *self,
    {
        EventId(self.0.clone())
    }
}

impl Clone for SummaryId {
    fn clone(&self) -> (r: Self)
        ensures
            r == *self,
    {
        SummaryId(self.0.clone())
    }
}

/// The parts of a key with a colon between each two.
pub open spec fn key_of(parts: Seq<Seq<char>>) -> Seq<char> {
    joined(parts, seq![':'])
}

/// `prefix` and the first `n` digits of the hash of the key with these parts.
pub open spec fn keyed_id(prefix: Seq<char>, parts: Seq<Seq<char>>, n: int) -> Seq<char> {
    prefix + hash_prefix(key_of(parts), n)
}

/// The texts behind a sequence of string slices.
pub open spec fn strs(parts: Seq<&str>) -> Seq<Seq<char>> {
    parts.map_values(|s: &str| s@)
}

/// The parts with a colon between each two.
pub fn key_text(parts: &[&str]) -> (r: String)
    ensures
        r@ == key_of(strs(parts@)),
{
    let mut owned: Vec<String> = Vec::new();
    let mut i: usize = 0;
    while i < parts.len()
        invariant
            i <= parts.len(),
            owned.len() == i,
            forall|k: int| 0 <= k < i ==> (#[trigger] owned@[k])@ == parts@[k]@,
        decreases parts.len() - i,
    {
        owned.push(parts[i].to_owned());
        i = i + 1;
    }
    proof {
        assert(texts(owned@) =~= strs(parts@));
        reveal_strlit(":");
        assert(":"@ =~= seq![':']);
    }
    join(&owned, ":")
}

/// `prefix` and the first `n` digits of the hash of the key with these parts.
pub fn make_id(prefix: &str, parts: &[&str], n: usize) -> (r: String)
    requires
        n <= 64,
    ensures
        r@ == keyed_id(prefix@, strs(parts@), n as int),
        r@.len() == prefix@.len() + n,
{
    let key = key_text(parts);
    let h = short_hash(key.as_str(), n);
    concat2(prefix, h.as_str())
}

/// Where records come from.
#[derive(Debug, Clone, Copy, PartialEq, Eq, Structural)]
pub enum SourceKind {
    LocalAdapter,
    LocalSummary,
    ExternalReport,
    Manual,
}

impl SourceKind {
    pub open spec fn name_spec(self) -> Seq<char> {
        match self {
            SourceKind::LocalAdapter => "LocalAdapter"@,
            SourceKind::LocalSummary => "LocalSummary"@,
            SourceKind::ExternalReport => "ExternalReport"@,
            SourceKind::Manual => "Manual"@,
        }
    }

    /// The kind's name as identifiers are derived from it.
    pub fn name(self) -> (r: &'static str)
        ensures
            r@ == self.name_spec(),
    {
        match self {
            SourceKind::LocalAdapter => "LocalAdapter",
            SourceKind::LocalSummary => "LocalSummary",
            SourceKind::ExternalReport => "ExternalReport",
            SourceKind::Manual => "Manual",
        }
    }
}

pub open spec fn source_id_spec(provider: Seq<char>, kind: SourceKind, key: Seq<char>) -> Seq<char> {
    keyed_id("src_"@, seq![provider, kind.name_spec(), key], 24)
}

pub fn source_id(provider: &str, source_kind: SourceKind, stable_key: &str) -> (r: SourceId)
    ensures
        r.0@ == source_id_spec(provider@, source_kind, stable_key@),
{
    let parts: [&str; 3] = [provider, source_kind.name(), stable_key];
    proof {
        assert(strs(parts@) =~= seq![provider@, source_kind.name_spec(), stable_key@]);
    }
    SourceId(make_id("src_", &parts, 24))
}

pub open spec fn provider_account_id_spec(provider: Seq<char>, key: Seq<char>) -> Seq<char> {
    keyed_id("acct_"@, seq![provider, key], 24)
}

pub fn provider_account_id(provider: &str, stable_key: &str) -> (r: ProviderAccountId)
    ensures
        r.0@ == provider_account_id_spec(provider@, stable_key@),
{
    let parts: [&str; 2] = [provider, stable_key];
    proof {
        assert(strs(parts@) =~= seq![provider@, stable_key@]);
    }
    ProviderAccountId(make_id("acct_", &parts, 24))
}

/// An instant as it stands in identifiers' keys.
pub open spec fn instant_key(t: Timestamp) -> Seq<char> {
    rfc3339_text(t.secs as int, t.nanos as int)
}

pub open spec fn assignment_id_spec(source: Seq<char>, account: Seq<char>, started: Timestamp) -> Seq<
    char,
> {
    keyed_id("assign_"@, seq![source, account, instant_key(started)], 24)
}

pub fn source_account_assignment_id(
    source_id: &SourceId,
    account: &ProviderAccountId,
    started_at: Timestamp,
) -> (r: SourceAccountAssignmentId)
    requires
        started_at.wf(),
    ensures
        r.0@ == assignment_id_spec(source_id.0@, account.0@, started_at),
{
    let started = started_at.to_rfc3339();
    let parts: [&str; 3] = [source_id.0.as_str(), account.0.as_str(), started.as_str()];
    proof {
        assert(strs(parts@) =~= seq![source_id.0@, account.0@, instant_key(started_at)]);
    }
    SourceAccountAssignmentId(make_id("assign_", &parts, 24))
}

pub open spec fn subscription_id_spec(
    provider: Seq<char>,
    account: Seq<char>,
    plan: Seq<char>,
    started: Timestamp,
) -> Seq<char> {
    keyed_id("sub_"@, seq![provider, account, plan, instant_key(started)], 24)
}

pub fn subscription_id(
    provider: &str,
    account: &ProviderAccountId,
    plan: &str,
    started_at: Timestamp,
) -> (r: SubscriptionId)
    requires
        started_at.wf(),
    ensures
        r.0@ == subscription_id_spec(provider@, account.0@, plan@, started_at),
{
    let started = started_at.to_rfc3339();
    let parts: [&str; 4] = [provider, account.0.as_str(), plan, started.as_str()];
    proof {
        assert(strs(parts@) =~= seq![provider@, account.0@, plan@, instant_key(started_at)]);
    }
    SubscriptionId(make_id("sub_", &parts, 24))
}

/// The text, or nothing where it is missing.
pub open spec fn text_or(o: Option<&str>, fallback: Seq<char>) -> Seq<char> {
    match o {
        Some(s) => s@,
        None => fallback,
    }
}

fn str_or<'a>(o: Option<&'a str>, fallback: &'a str) -> (r: &'a str)
    ensures
        r@ == text_or(o, fallback@),
{
    match o {
        Some(s) => s,
        None => fallback,
    }
}

pub open spec fn event_id_spec(
    provider: Seq<char>,
    source: Seq<char>,
    record: Seq<char>,
    session: Seq<char>,
    at: Timestamp,
) -> Seq<char> {
    keyed_id("evt_"@, seq![provider, source, record, session, instant_key(at)], 32)
}

pub fn event_id(
    provider: &str,
    source_id: &SourceId,
    source_record_id: &str,
    session_hash: Option<&str>,
    timestamp: Timestamp,
) -> (r: EventId)
    requires
        timestamp.wf(),
    ensures
        r.0@ == event_id_spec(
            provider@,
            source_id.0@,
            source_record_id@,
            text_or(session_hash, seq![]),
            timestamp,
        ),
{
    let at = timestamp.to_rfc3339();
    let session = str_or(session_hash, "");
    proof {
        reveal_strlit("");
        assert(""@ =~= seq![]);
    }
    let parts: [&str; 5] = [
        provider,
        source_id.0.as_str(),
        source_record_id,
        session,
        at.as_str(),
    ];
    proof {
        assert(strs(parts@) =~= seq![
            provider@,
            source_id.0@,
            source_record_id@,
            session@,
            instant_key(timestamp),
        ]);
    }
    EventId(make_id("evt_", &parts, 32))
}

pub open spec fn semantic_id_spec(
    prefix: Seq<char>,
    provider: Seq<char>,
    source: Seq<char>,
    key: Seq<char>,
) -> Seq<char> {
    keyed_id(prefix, seq![provider, source, key], 32)
}

pub fn semantic_event_id(provider: &str, source_id: &SourceId, semantic_key: &str) -> (r: EventId)
    ensures
        r.0@ == semantic_id_spec("evt_"@, provider@, source_id.0@, semantic_key@),
{
    let parts: [&str; 3] = [provider, source_id.0.as_str(), semantic_key];
    proof {
        assert(strs(parts@) =~= seq![provider@, source_id.0@, semantic_key@]);
    }
    EventId(make_id("evt_", &parts, 32))
}

pub fn summary_id(provider: &str, source_id: &SourceId, semantic_key: &str) -> (r: SummaryId)
    ensures
        r.0@ == semantic_id_spec("sum_"@, provider@, source_id.0@, semantic_key@),
{
    let parts: [&str; 3] = [provider, source_id.0.as_str(), semantic_key];
    proof {
        assert(strs(parts@) =~= seq![provider@, source_id.0@, semantic_key@]);
    }
    SummaryId(make_id("sum_", &parts, 32))
}

/// What identifies a usage event by its content.
pub struct SemanticFingerprintInput<'a> {
    pub provider: &'a str,
    pub source_id: &'a SourceId,
    pub started_at: Timestamp,
    pub session_hash: Option<&'a str>,
    pub project_key: Option<&'a str>,
    pub model_name: Option<&'a str>,
    pub input_tokens: Option<u64>,
    pub cache_read_tokens: Option<u64>,
    pub cache_creation_tokens: Option<u64>,
    pub output_tokens: Option<u64>,
    pub reasoning_tokens: Option<u64>,
    pub total_tokens: u64,
}

/// A count, or zero where it is missing.
pub open spec fn count_or_zero(o: Option<u64>) -> nat {
    match o {
        Some(n) => n as nat,
        None => 0,
    }
}

fn count_text(o: Option<u64>) -> (r: String)
    ensures
        r@ == decimal(count_or_zero(o)),
{
    match o {
        Some(n) => decimal_text(n),
        None => decimal_text(0),
    }
}

pub open spec fn fingerprint_parts(input: SemanticFingerprintInput<'_>) -> Seq<Seq<char>> {
    seq![
        input.provider@,
        input.source_id.0@,
        instant_key(input.started_at),
        text_or(input.session_hash, seq![]),
        text_or(input.project_key, seq![]),
        text_or(input.model_name, "unknown"@),
        decimal(count_or_zero(input.input_tokens)),
        decimal(count_or_zero(input.cache_read_tokens)),
        decimal(count_or_zero(input.cache_creation_tokens)),
        decimal(count_or_zero(input.output_tokens)),
        decimal(count_or_zero(input.reasoning_tokens)),
        decimal(input.total_tokens as nat),
    ]
}

pub fn semantic_event_fingerprint(input: &SemanticFingerprintInput<'_>) -> (r: String)
    requires
        input.started_at.wf(),
    ensures
        r@ == hash_of(key_of(fingerprint_parts(*input))),
{
    let started = input.started_at.to_rfc3339();
    let session = str_or(input.session_hash, "");
    let project = str_or(input.project_key, "");
    let model = str_or(input.model_name, "unknown");
    proof {
        reveal_strlit("");
        assert(""@ =~= seq![]);
    }
    let t1 = count_text(input.input_tokens);
    let t2 = count_text(input.cache_read_tokens);
    let t3 = count_text(input.cache_creation_tokens);
    let t4 = count_text(input.output_tokens);
    let t5 = count_text(input.reasoning_tokens);
    let t6 = decimal_text(input.total_tokens);
    let parts: [&str; 12] = [
        input.provider,
        input.source_id.0.as_str(),
        started.as_str(),
        session,
        project,
        model,
        t1.as_str(),
        t2.as_str(),
        t3.as_str(),
        t4.as_str(),
        t5.as_str(),
        t6.as_str(),
    ];
    proof {
        assert(strs(parts@) =~= fingerprint_parts(*input));
    }
    let key = key_text(&parts);
    hash_text(key.as_str())
}

} // verus!
