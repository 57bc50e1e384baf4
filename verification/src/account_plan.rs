//! Evidence of accounts' identities and plans.
use crate::hashing::{hash_of, hash_text};
use crate::ids::{
    ProviderAccountId, SourceId, instant_key, key_of, key_text, keyed_id, make_id, strs, text_or,
};
use crate::letter_case::{
    all_lowered, lemma_lower_keeps, lemma_lowered_raised, lemma_lowered_twice,
    lemma_replaced_lowered, lemma_split_lowered, lemma_trimmed_lowered, raised,
};
use crate::records::Confidence;
use crate::text::{
    ascii_lowercase, chars_of, index_of_char, join, joined, lemma_index_of_char, lowered,
    replace_char, replaced, slice_string, split_char, split_on, texts, to_upper, trim, trimmed,
    upper,
};
use crate::time::{Timestamp, opt_wf};
use vstd::prelude::*;

verus! {

pub const ACCOUNT_IDENTITY_OBSERVATION_SCHEMA_VERSION: &'static str =
    "account_identity_observation.v1";

pub const ACCOUNT_PLAN_OBSERVATION_SCHEMA_VERSION: &'static str = "account_plan_observation.v1";

pub const CONVERSATION_ACCOUNT_BINDING_SCHEMA_VERSION: &'static str =
    "conversation_account_binding.v1";

pub const ACCOUNT_PLAN_PROJECTION_SCHEMA_VERSION: &'static str = "account_plan_projection.v1";

pub const ACCOUNT_EVIDENCE_SUMMARY_SCHEMA_VERSION: &'static str = "account_evidence_summary.v1";

pub const ACCOUNT_EVIDENCE_CHECKPOINT_SCHEMA_VERSION: &'static str =
    "account_evidence_checkpoint.v1";

#[derive(Debug, Clone, Copy, PartialEq, Eq, Structural)]
pub enum AccountEvidenceKind {
    AuthSnapshot,
    TelemetryIdentity,
    AuthReload,
    ResetHistory,
    LoginSuccess,
    QuotaStatus,
    LegacyLocalAuth,
}

impl AccountEvidenceKind {
    /// Kinds of evidence that establish an identity by themselves.
    pub open spec fn strong(self) -> bool {
        match self {
            AccountEvidenceKind::AuthSnapshot => true,
            AccountEvidenceKind::TelemetryIdentity => true,
            AccountEvidenceKind::AuthReload => true,
            AccountEvidenceKind::ResetHistory => true,
            _ => false,
        }
    }

    pub open spec fn name_spec(self) -> Seq<char> {
        match self {
            AccountEvidenceKind::AuthSnapshot => "AuthSnapshot"@,
            AccountEvidenceKind::TelemetryIdentity => "TelemetryIdentity"@,
            AccountEvidenceKind::AuthReload => "AuthReload"@,
            AccountEvidenceKind::ResetHistory => "ResetHistory"@,
            AccountEvidenceKind::LoginSuccess => "LoginSuccess"@,
            AccountEvidenceKind::QuotaStatus => "QuotaStatus"@,
            AccountEvidenceKind::LegacyLocalAuth => "LegacyLocalAuth"@,
        }
    }

    pub fn is_strong_identity(self) -> (r: bool)
        ensures
            r == self.strong(),
    {
        match self {
            AccountEvidenceKind::AuthSnapshot => true,
            AccountEvidenceKind::TelemetryIdentity => true,
            AccountEvidenceKind::AuthReload => true,
            AccountEvidenceKind::ResetHistory => true,
            _ => false,
        }
    }

    /// The kind's name as identifiers are derived from it.
    pub fn name(self) -> (r: &'static str)
        ensures
            r@ == self.name_spec(),
    {
        match self {
            AccountEvidenceKind::AuthSnapshot => "AuthSnapshot",
            AccountEvidenceKind::TelemetryIdentity => "TelemetryIdentity",
            AccountEvidenceKind::AuthReload => "AuthReload",
            AccountEvidenceKind::ResetHistory => "ResetHistory",
            AccountEvidenceKind::LoginSuccess => "LoginSuccess",
            AccountEvidenceKind::QuotaStatus => "QuotaStatus",
            AccountEvidenceKind::LegacyLocalAuth => "LegacyLocalAuth",
        }
    }
}

#[derive(Debug, Clone, PartialEq, Eq)]
pub struct AccountIdentityObservationV1 {
    pub schema_version: String,
    pub observation_id: String,
    pub provider: String,
    pub source_id: SourceId,
    pub provider_account_id: Option<ProviderAccountId>,
    pub provider_user_id_hash: Option<String>,
    pub email_hash: Option<String>,
    pub conversation_id_hash: Option<String>,
    pub turn_id_hash: Option<String>,
    pub observed_at: Timestamp,
    pub evidence_kind: AccountEvidenceKind,
    pub confidence: Confidence,
    pub auth_mode: Option<String>,
    pub application_version: Option<String>,
    pub parser_version: String,
    pub artifact_kind: String,
    pub artifact_path_hash: String,
    pub record_fingerprint: String,
}

#[derive(Debug, Clone, PartialEq, Eq)]
pub struct AccountPlanObservationV1 {
    pub schema_version: String,
    pub observation_id: String,
    pub provider: String,
    pub source_id: SourceId,
    pub provider_account_id: Option<ProviderAccountId>,
    pub raw_plan_name: String,
    pub plan_name: String,
    pub observed_at: Timestamp,
    pub active_from: Option<Timestamp>,
    pub active_until: Option<Timestamp>,
    pub is_current_snapshot: bool,
    pub evidence_kind: AccountEvidenceKind,
    pub confidence: Confidence,
    pub parser_version: String,
    pub artifact_path_hash: String,
    pub record_fingerprint: String,
}

#[derive(Debug, Clone, PartialEq, Eq)]
pub struct ConversationAccountBindingV1 {
    pub schema_version: String,
    pub binding_id: String,
    pub provider: String,
    pub source_id: SourceId,
    pub provider_account_id: ProviderAccountId,
    pub conversation_id_hash: String,
    pub turn_id_hash: Option<String>,
    pub observed_at: Timestamp,
    pub evidence_kind: AccountEvidenceKind,
    pub confidence: Confidence,
}

/// How far an evidence file was read. The path stands hashed, so that it never
/// leaves the device.
#[derive(Debug, Clone, PartialEq, Eq)]
pub struct AccountEvidenceCheckpointV1 {
    pub schema_version: String,
    pub source_id: SourceId,
    pub artifact_path_hash: String,
    pub parser_version: String,
    pub maximum_row_id: i64,
    /// Fingerprint of the row at `maximum_row_id`.
    pub checkpoint_row_fingerprint: Option<String>,
    pub database_size: i64,
    pub database_modified_nanos: i64,
    pub wal_size: i64,
    pub wal_modified_nanos: i64,
}

/// What a device tells the server of a plan.
#[derive(Debug, Clone, PartialEq, Eq)]
pub struct AccountPlanProjectionV1 {
    pub schema_version: String,
    pub projection_id: String,
    pub semantic_fingerprint: String,
    pub device_id: String,
    pub provider: String,
    pub provider_account_id: ProviderAccountId,
    pub raw_plan_name: String,
    pub plan_name: String,
    pub observed_at: Timestamp,
    pub active_from: Option<Timestamp>,
    pub active_until: Option<Timestamp>,
    pub is_current_snapshot: bool,
    pub evidence_kind: AccountEvidenceKind,
    pub confidence: Confidence,
}

#[derive(Debug, Clone, PartialEq, Eq)]
pub struct AccountEvidenceSummaryV1 {
    pub schema_version: String,
    pub summary_id: String,
    pub device_id: String,
    pub provider: String,
    pub provider_account_id: ProviderAccountId,
    pub first_strong_observed_at: Option<Timestamp>,
    pub last_strong_observed_at: Option<Timestamp>,
    pub strong_observation_count: u64,
    pub directly_bound_conversations: u64,
    pub uncovered_gap_count: u64,
    pub conflict_count: u64,
    pub evidence_kinds: Vec<AccountEvidenceKind>,
}

// ---------------------------------------------------------------------------
// Plan names
// ---------------------------------------------------------------------------

/// A word with a capital first and small letters after it.
pub open spec fn capitalized(s: Seq<char>) -> Seq<char> {
    if s.len() == 0 {
        s
    } else {
        seq![upper(s[0])] + lowered(s.skip(1))
    }
}

/// The words that are not empty, capitalized.
pub open spec fn capital_words(parts: Seq<Seq<char>>) -> Seq<Seq<char>>
    decreases parts.len(),
{
    if parts.len() == 0 {
        Seq::empty()
    } else {
        let before = capital_words(parts.drop_last());
        if parts.last().len() == 0 {
            before
        } else {
            before.push(capitalized(parts.last()))
        }
    }
}

/// A plan name's words: what stands between underscores, hyphens and spaces.
pub open spec fn plan_words(raw: Seq<char>) -> Seq<Seq<char>> {
    split_on(replaced(replaced(trimmed(raw), '_', ' '), '-', ' '), ' ')
}

pub open spec fn plan_name_spec(raw: Seq<char>) -> Seq<char> {
    joined(capital_words(plan_words(raw)), " "@)
}

fn capitalize(s: &str) -> (r: String)
    ensures
        r@ == capitalized(s@),
{
    let cs = chars_of(s);
    if cs.len() == 0 {
        return s.to_owned();
    }
    let mut out = String::new();
    out.push(to_upper(cs[0]));
    let rest = slice_string(&cs, 1, cs.len());
    proof {
        assert(s@.subrange(1, s@.len() as int) =~= s@.skip(1));
    }
    let small = ascii_lowercase(rest.as_str());
    out.append(small.as_str());
    proof {
        assert(out@ =~= capitalized(s@));
    }
    out
}

/// A plan's name for people: its words capitalized, whatever the plan.
pub fn normalize_plan_name(raw: &str) -> (r: String)
    ensures
        r@ == plan_name_spec(raw@),
{
    let t = trim(raw);
    let a = replace_char(t.as_str(), '_', ' ');
    let b = replace_char(a.as_str(), '-', ' ');
    let parts = split_char(b.as_str(), ' ');
    let ghost all = plan_words(raw@);
    let mut words: Vec<String> = Vec::new();
    let mut i: usize = 0;
    proof {
        assert(all.take(0) =~= Seq::empty());
        assert(texts(words@) =~= Seq::empty());
    }
    while i < parts.len()
        invariant
            all == texts(parts@),
            i <= parts.len(),
            texts(words@) == capital_words(all.take(i as int)),
        decreases parts.len() - i,
    {
        let ghost before = texts(words@);
        proof {
            assert(all.take(i + 1).drop_last() =~= all.take(i as int));
            assert(all.take(i + 1).last() == parts@[i as int]@);
        }
        if !parts[i].as_str().is_empty() {
            let w = capitalize(parts[i].as_str());
            words.push(w);
            proof {
                assert(texts(words@) =~= before.push(w@));
            }
        }
        i = i + 1;
    }
    proof {
        assert(all.take(i as int) =~= all);
    }
    join(&words, " ")
}

// ---------------------------------------------------------------------------
// Identifiers
// ---------------------------------------------------------------------------

pub fn account_identity_observation_id(
    source_id: &SourceId,
    kind: AccountEvidenceKind,
    observed_at: Timestamp,
    record_fingerprint: &str,
) -> (r: String)
    requires
        observed_at.wf(),
    ensures
        r@ == keyed_id(
            "identity_observation_"@,
            seq![
                "account_identity_observation.v1"@,
                source_id.0@,
                kind.name_spec(),
                instant_key(observed_at),
                record_fingerprint@,
            ],
            32,
        ),
{
    let at = observed_at.to_rfc3339();
    let parts: [&str; 5] = [
        "account_identity_observation.v1",
        source_id.0.as_str(),
        kind.name(),
        at.as_str(),
        record_fingerprint,
    ];
    proof {
        assert(strs(parts@) =~= seq![
            "account_identity_observation.v1"@,
            source_id.0@,
            kind.name_spec(),
            instant_key(observed_at),
            record_fingerprint@,
        ]);
    }
    make_id("identity_observation_", &parts, 32)
}

/// The parts of a plan observation's key.
pub open spec fn plan_observation_key(
    source: Seq<char>,
    account: Option<Seq<char>>,
    plan: Seq<char>,
    at: Timestamp,
    kind: AccountEvidenceKind,
) -> Seq<Seq<char>> {
    seq![
        "account_plan_observation.v1"@,
        source,
        (match account {
            Some(id) => id,
            None => "unattributed"@,
        }),
        lowered(trimmed(plan)),
        instant_key(at),
        kind.name_spec(),
    ]
}

pub open spec fn opt_account(o: Option<&ProviderAccountId>) -> Option<Seq<char>> {
    match o {
        Some(id) => Some(id.0@),
        None => None,
    }
}

pub fn account_plan_observation_id(
    source_id: &SourceId,
    provider_account_id: Option<&ProviderAccountId>,
    raw_plan_name: &str,
    observed_at: Timestamp,
    kind: AccountEvidenceKind,
) -> (r: String)
    requires
        observed_at.wf(),
    ensures
        r@ == keyed_id(
            "plan_observation_"@,
            plan_observation_key(
                source_id.0@,
                opt_account(provider_account_id),
                raw_plan_name@,
                observed_at,
                kind,
            ),
            32,
        ),
{
    let at = observed_at.to_rfc3339();
    let t = trim(raw_plan_name);
    let plan = ascii_lowercase(t.as_str());
    let account = match provider_account_id {
        Some(id) => id.0.as_str(),
        None => "unattributed",
    };
    let parts: [&str; 6] = [
        "account_plan_observation.v1",
        source_id.0.as_str(),
        account,
        plan.as_str(),
        at.as_str(),
        kind.name(),
    ];
    proof {
        assert(strs(parts@) =~= plan_observation_key(
            source_id.0@,
            opt_account(provider_account_id),
            raw_plan_name@,
            observed_at,
            kind,
        ));
    }
    make_id("plan_observation_", &parts, 32)
}

/// What stands for an observation's account in its key.
pub open spec fn account_part(account: Option<Seq<char>>) -> Seq<char> {
    match account {
        Some(id) => id,
        None => "unattributed"@,
    }
}

/// What stands before and after the account in a plan observation's key.
pub open spec fn around_account(
    source: Seq<char>,
    plan: Seq<char>,
    at: Timestamp,
    kind: AccountEvidenceKind,
) -> (Seq<char>, Seq<char>) {
    (
        "account_plan_observation.v1"@ + seq![':'] + source + seq![':'],
        seq![':'] + lowered(trimmed(plan)) + seq![':'] + instant_key(at) + seq![':']
            + kind.name_spec(),
    )
}

proof fn lemma_plan_key(
    source: Seq<char>,
    account: Option<Seq<char>>,
    plan: Seq<char>,
    at: Timestamp,
    kind: AccountEvidenceKind,
)
    ensures
        ({
            let w = around_account(source, plan, at, kind);
            key_of(plan_observation_key(source, account, plan, at, kind)) == w.0 + account_part(
                account,
            ) + w.1
        }),
{
    let p = plan_observation_key(source, account, plan, at, kind);
    let w = around_account(source, plan, at, kind);
    reveal_with_fuel(joined, 7);
    let p5 = p.drop_last();
    let p4 = p5.drop_last();
    let p3 = p4.drop_last();
    let p2 = p3.drop_last();
    let p1 = p2.drop_last();
    assert(p5 =~= seq![p[0], p[1], p[2], p[3], p[4]]);
    assert(p4 =~= seq![p[0], p[1], p[2], p[3]]);
    assert(p3 =~= seq![p[0], p[1], p[2]]);
    assert(p2 =~= seq![p[0], p[1]]);
    assert(p1 =~= seq![p[0]]);
    assert(joined(p, seq![':']) =~= w.0 + account_part(account) + w.1);
}

/// Observations of one source, plan, time and kind have different keys wherever
/// they are of different accounts, or one of none and the other of an account
/// that is not itself called `unattributed`.
pub proof fn plan_observation_keys_are_account_scoped(
    source: Seq<char>,
    a: Option<Seq<char>>,
    b: Option<Seq<char>>,
    plan: Seq<char>,
    at: Timestamp,
    kind: AccountEvidenceKind,
)
    requires
        account_part(a) != account_part(b),
    ensures
        key_of(plan_observation_key(source, a, plan, at, kind)) != key_of(
            plan_observation_key(source, b, plan, at, kind),
        ),
{
    lemma_plan_key(source, a, plan, at, kind);
    lemma_plan_key(source, b, plan, at, kind);
    let (x, y) = around_account(source, plan, at, kind);
    let (p, q) = (account_part(a), account_part(b));
    let s = x + p + y;
    let t = x + q + y;
    if s == t {
        assert(s.len() == x.len() + p.len() + y.len());
        assert(t.len() == x.len() + q.len() + y.len());
        assert forall|k: int| 0 <= k < p.len() implies p[k] == q[k] by {
            assert(s[x.len() + k] == p[k]);
            assert(t[x.len() + k] == q[k]);
        }
        assert(p =~= q);
    }
}

pub fn conversation_account_binding_id(
    source_id: &SourceId,
    conversation_id_hash: &str,
    turn_id_hash: Option<&str>,
    provider_account_id: &ProviderAccountId,
) -> (r: String)
    ensures
        r@ == keyed_id(
            "conversation_binding_"@,
            seq![
                "conversation_account_binding.v1"@,
                source_id.0@,
                conversation_id_hash@,
                text_or(turn_id_hash, "none"@),
                provider_account_id.0@,
            ],
            32,
        ),
{
    let turn = match turn_id_hash {
        Some(t) => t,
        None => "none",
    };
    let parts: [&str; 5] = [
        "conversation_account_binding.v1",
        source_id.0.as_str(),
        conversation_id_hash,
        turn,
        provider_account_id.0.as_str(),
    ];
    proof {
        assert(strs(parts@) =~= seq![
            "conversation_account_binding.v1"@,
            source_id.0@,
            conversation_id_hash@,
            text_or(turn_id_hash, "none"@),
            provider_account_id.0@,
        ]);
    }
    make_id("conversation_binding_", &parts, 32)
}

// ---------------------------------------------------------------------------
// Projections
// ---------------------------------------------------------------------------

pub open spec fn instant_or_none(o: Option<Timestamp>) -> Seq<char> {
    match o {
        Some(t) => instant_key(t),
        None => "none"@,
    }
}

fn instant_or_none_text(o: Option<Timestamp>) -> (r: String)
    requires
        opt_wf(o),
    ensures
        r@ == instant_or_none(o),
{
    match o {
        Some(t) => t.to_rfc3339(),
        None => "none".to_owned(),
    }
}

pub open spec fn bool_text(b: bool) -> Seq<char> {
    if b {
        "true"@
    } else {
        "false"@
    }
}

/// What tells two plan observations of an account apart.
pub open spec fn projection_key(o: AccountPlanObservationV1, account: Seq<char>) -> Seq<Seq<char>> {
    seq![
        "account_plan_projection.v1"@,
        o.provider@,
        account,
        lowered(trimmed(o.raw_plan_name@)),
        instant_key(o.observed_at),
        instant_or_none(o.active_from),
        instant_or_none(o.active_until),
        bool_text(o.is_current_snapshot),
        o.evidence_kind.name_spec(),
    ]
}

impl AccountPlanObservationV1 {
    pub open spec fn wf(self) -> bool {
        self.observed_at.wf() && opt_wf(self.active_from) && opt_wf(self.active_until)
    }
}

/// Whether `p` is what the device tells of the observation.
pub open spec fn projects(
    p: AccountPlanProjectionV1,
    o: AccountPlanObservationV1,
    account: ProviderAccountId,
    device: Seq<char>,
) -> bool {
    &&& p.schema_version@ == ACCOUNT_PLAN_PROJECTION_SCHEMA_VERSION@
    &&& p.semantic_fingerprint@ == hash_of(key_of(projection_key(o, account.0@)))
    &&& p.projection_id@ == keyed_id(
        "account_plan_projection_"@,
        seq![device, p.semantic_fingerprint@],
        32,
    )
    &&& p.device_id@ == device
    &&& p.provider@ == o.provider@
    &&& p.provider_account_id == account
    &&& p.raw_plan_name@ == o.raw_plan_name@
    &&& p.plan_name@ == o.plan_name@
    &&& p.observed_at == o.observed_at
    &&& p.active_from == o.active_from
    &&& p.active_until == o.active_until
    &&& p.is_current_snapshot == o.is_current_snapshot
    &&& p.evidence_kind == o.evidence_kind
    &&& p.confidence == o.confidence
}

/// What the device tells of an observation; nothing where it is of no account.
pub fn plan_projection_from_observation(
    observation: &AccountPlanObservationV1,
    device_id: &str,
) -> (r: Option<AccountPlanProjectionV1>)
    requires
        observation.wf(),
    ensures
        match r {
            Some(p) => observation.provider_account_id matches Some(account) && projects(
                p,
                *observation,
                account,
                device_id@,
            ),
            None => observation.provider_account_id is None,
        },
{
    let account = match &observation.provider_account_id {
        Some(id) => id,
        None => return None,
    };
    let t = trim(observation.raw_plan_name.as_str());
    let plan = ascii_lowercase(t.as_str());
    let observed = observation.observed_at.to_rfc3339();
    let from = instant_or_none_text(observation.active_from);
    let until = instant_or_none_text(observation.active_until);
    let snapshot = if observation.is_current_snapshot {
        "true"
    } else {
        "false"
    };
    let parts: [&str; 9] = [
        "account_plan_projection.v1",
        observation.provider.as_str(),
        account.0.as_str(),
        plan.as_str(),
        observed.as_str(),
        from.as_str(),
        until.as_str(),
        snapshot,
        observation.evidence_kind.name(),
    ];
    proof {
        assert(strs(parts@) =~= projection_key(*observation, account.0@));
    }
    let key = key_text(&parts);
    let semantic_fingerprint = hash_text(key.as_str());
    let id_parts: [&str; 2] = [device_id, semantic_fingerprint.as_str()];
    proof {
        assert(strs(id_parts@) =~= seq![device_id@, semantic_fingerprint@]);
    }
    let projection_id = make_id("account_plan_projection_", &id_parts, 32);
    Some(
        AccountPlanProjectionV1 {
            schema_version: ACCOUNT_PLAN_PROJECTION_SCHEMA_VERSION.to_owned(),
            projection_id,
            semantic_fingerprint,
            device_id: device_id.to_owned(),
            provider: observation.provider.clone(),
            provider_account_id: account.clone(),
            raw_plan_name: observation.raw_plan_name.clone(),
            plan_name: observation.plan_name.clone(),
            observed_at: observation.observed_at,
            active_from: observation.active_from,
            active_until: observation.active_until,
            is_current_snapshot: observation.is_current_snapshot,
            evidence_kind: observation.evidence_kind,
            confidence: observation.confidence,
        },
    )
}

/// A word of a plan's name: not empty, and without blanks and separators.
spec fn plain_word(w: Seq<char>) -> bool {
    &&& w.len() > 0
    &&& forall|k: int| 0 <= k < w.len() ==> #[trigger] w[k] != ' ' && w[k] != '_' && w[k] != '-'
}

proof fn lemma_capitalized_plain(w: Seq<char>)
    requires
        plain_word(w),
    ensures
        plain_word(capitalized(w)),
{
    let c = capitalized(w);
    assert forall|k: int| 0 <= k < c.len() implies #[trigger] c[k] != ' ' && c[k] != '_' && c[k]
        != '-' by {
        lemma_lower_keeps(w[k], ' ');
        lemma_lower_keeps(w[k], '_');
        lemma_lower_keeps(w[k], '-');
    }
}

proof fn lemma_split_plain(s: Seq<char>)
    requires
        forall|k: int| 0 <= k < s.len() ==> #[trigger] s[k] != '_' && s[k] != '-',
    ensures
        forall|i: int|
            0 <= i < split_on(s, ' ').len() && (#[trigger] split_on(s, ' ')[i]).len() > 0
                ==> plain_word(split_on(s, ' ')[i]),
    decreases s.len(),
{
    let i = index_of_char(s, ' ');
    lemma_index_of_char(s, ' ');
    if i < s.len() {
        lemma_split_plain(s.skip(i + 1));
        let rest = split_on(s.skip(i + 1), ' ');
        assert forall|j: int|
            0 <= j < split_on(s, ' ').len() && (#[trigger] split_on(s, ' ')[j]).len()
                > 0 implies plain_word(split_on(s, ' ')[j]) by {
            if j > 0 {
                assert(split_on(s, ' ')[j] == rest[j - 1]);
            }
        }
    }
}

proof fn lemma_capital_words_plain(parts: Seq<Seq<char>>)
    requires
        forall|i: int|
            0 <= i < parts.len() && (#[trigger] parts[i]).len() > 0 ==> plain_word(parts[i]),
    ensures
        forall|i: int|
            0 <= i < capital_words(parts).len() ==> plain_word(#[trigger] capital_words(parts)[i]),
    decreases parts.len(),
{
    if parts.len() > 0 {
        assert forall|i: int|
            0 <= i < parts.drop_last().len() && (#[trigger] parts.drop_last()[i]).len()
                > 0 implies plain_word(parts.drop_last()[i]) by {
            assert(parts.drop_last()[i] == parts[i]);
        }
        lemma_capital_words_plain(parts.drop_last());
        let before = capital_words(parts.drop_last());
        assert(parts.last() == parts[parts.len() - 1]);
        if parts.last().len() > 0 {
            lemma_capitalized_plain(parts.last());
            assert forall|i: int| 0 <= i < capital_words(parts).len() implies plain_word(
                #[trigger] capital_words(parts)[i],
            ) by {
                if i < before.len() {
                    assert(capital_words(parts)[i] == before[i]);
                }
            }
        }
    }
}

/// No separators, no blank at either end, and single blanks between.
pub open spec fn tidy(n: Seq<char>) -> bool {
    &&& forall|k: int| 0 <= k < n.len() ==> #[trigger] n[k] != '_' && n[k] != '-'
    &&& n.len() > 0 ==> n[0] != ' ' && n.last() != ' '
    &&& forall|k: int| 0 < k < n.len() ==> !(n[k - 1] == ' ' && #[trigger] n[k] == ' ')
}

proof fn lemma_joined_tidy(words: Seq<Seq<char>>)
    requires
        forall|i: int| 0 <= i < words.len() ==> plain_word(#[trigger] words[i]),
    ensures
        tidy(joined(words, " "@)),
        words.len() > 0 ==> joined(words, " "@).len() > 0,
    decreases words.len(),
{
    if words.len() > 0 {
        assert(plain_word(words[words.len() - 1]));
    }
    if words.len() > 1 {
        reveal_strlit(" ");
        assert forall|i: int| 0 <= i < words.drop_last().len() implies plain_word(
            #[trigger] words.drop_last()[i],
        ) by {
            assert(words.drop_last()[i] == words[i]);
        }
        lemma_joined_tidy(words.drop_last());
        let a = joined(words.drop_last(), " "@);
        let w = words.last();
        let n = joined(words, " "@);
        assert(n.len() == a.len() + 1 + w.len());
        assert forall|k: int| 0 <= k < n.len() implies #[trigger] n[k] != '_' && n[k] != '-' by {
            if k < a.len() {
                assert(n[k] == a[k]);
            } else if k > a.len() {
                assert(n[k] == w[k - a.len() - 1]);
            }
        }
        assert forall|k: int| 0 < k < n.len() implies !(n[k - 1] == ' ' && #[trigger] n[k]
            == ' ') by {
            if k < a.len() {
                assert(n[k] == a[k] && n[k - 1] == a[k - 1]);
            } else if k == a.len() {
                assert(n[k - 1] == a.last());
            } else {
                assert(n[k] == w[k - a.len() - 1]);
            }
        }
        assert(n[0] == a[0]);
        assert(n.last() == w[w.len() - 1]);
    }
}

/// A plan's name holds no underscore and no hyphen, neither starts nor ends with
/// a blank, and never has two blanks in a row.
pub proof fn plan_names_are_tidy(raw: Seq<char>)
    ensures
        tidy(plan_name_spec(raw)),
{
    let s = replaced(replaced(trimmed(raw), '_', ' '), '-', ' ');
    assert forall|k: int| 0 <= k < s.len() implies #[trigger] s[k] != '_' && s[k] != '-' by {
        assert(replaced(trimmed(raw), '_', ' ')[k] != '_');
    }
    lemma_split_plain(s);
    lemma_capital_words_plain(plan_words(raw));
    lemma_joined_tidy(capital_words(plan_words(raw)));
}

proof fn lemma_capitalized_lowered(w: Seq<char>)
    ensures
        capitalized(lowered(w)) == capitalized(w),
{
    if w.len() > 0 {
        lemma_lower_keeps(w[0], ' ');
        lemma_lowered_twice(w.skip(1));
        assert(lowered(w).skip(1) =~= lowered(w.skip(1)));
    }
}

proof fn lemma_capital_words_lowered(parts: Seq<Seq<char>>)
    ensures
        capital_words(all_lowered(parts)) == capital_words(parts),
    decreases parts.len(),
{
    if parts.len() > 0 {
        lemma_capital_words_lowered(parts.drop_last());
        assert(all_lowered(parts).drop_last() =~= all_lowered(parts.drop_last()));
        lemma_capitalized_lowered(parts.last());
    }
}

proof fn lemma_plan_name_lowered(raw: Seq<char>)
    ensures
        plan_name_spec(lowered(raw)) == plan_name_spec(raw),
{
    let t = trimmed(raw);
    lemma_trimmed_lowered(raw);
    lemma_replaced_lowered(t, '_', ' ');
    lemma_replaced_lowered(replaced(t, '_', ' '), '-', ' ');
    lemma_split_lowered(replaced(replaced(t, '_', ' '), '-', ' '), ' ');
    lemma_capital_words_lowered(plan_words(raw));
}

/// Two spellings that differ only in the case of ASCII letters name one plan, so
/// a name written in small letters or in capitals throughout gives the same.
pub proof fn letter_case_never_changes_a_plan_name(a: Seq<char>, b: Seq<char>)
    ensures
        lowered(a) == lowered(b) ==> plan_name_spec(a) == plan_name_spec(b),
        plan_name_spec(lowered(a)) == plan_name_spec(a),
        plan_name_spec(raised(a)) == plan_name_spec(a),
{
    lemma_plan_name_lowered(a);
    lemma_plan_name_lowered(b);
    lemma_plan_name_lowered(raised(a));
    lemma_lowered_raised(a);
}

} // verus!
