//! Daily rollups of usage events.
use crate::code_types::sat_add;
use crate::ids::{semantic_id_spec, summary_id};
use crate::records::{
    Confidence, CostInfo, EventSource, PrivacyInfo, PrivacyMode, SummaryMetadata,
    USAGE_SUMMARY_SCHEMA_VERSION, UsageCounts, UsageEvent, UsageSummary, copy_account_id, or_zero,
};
use crate::render::{drop_repeats, no_lines, push_line, without_repeats};
use crate::sorted::{sort_texts, sorted_texts, sorting_texts_orders_them, texts_increase};
use crate::sync::DAILY_ROLLUP_FORMAT;
use crate::text::{
    concat2, concat3, lemma_text_lt_irreflexive, lemma_text_lt_total, lemma_text_lt_transitive,
    opt_text, same_text, text_lt, texts,
};
use crate::time::{MAX_DAY, Timestamp, day_text, format_day, midnight, midnight_spec};
use vstd::prelude::*;

verus! {

/// What tells the buckets of a rollup apart.
#[derive(Debug, Clone, PartialEq, Eq)]
pub struct SyncRollupStatsBucketKey {
    pub provider: String,
    pub source_id: String,
    pub account_key: String,
    pub day_key: String,
}

pub open spec fn account_key_of(e: UsageEvent) -> Seq<char> {
    match e.provider_account_id {
        Some(id) => id.0@,
        None => "unlinked"@,
    }
}

pub open spec fn day_key_of(e: UsageEvent) -> Seq<char> {
    day_text(e.session.started_at.day_spec())
}

/// The bucket that an event belongs to: its provider, source, account and day.
pub fn sync_rollup_stats_bucket_key(event: &UsageEvent) -> (r: SyncRollupStatsBucketKey)
    requires
        event.session.started_at.wf(),
    ensures
        r.provider@ == event.provider@,
        r.source_id@ == event.source_id.0@,
        r.account_key@ == account_key_of(*event),
        r.day_key@ == day_key_of(*event),
{
    let account_key = match &event.provider_account_id {
        Some(id) => id.0.clone(),
        None => "unlinked".to_owned(),
    };
    SyncRollupStatsBucketKey {
        provider: event.provider.clone(),
        source_id: event.source_id.0.clone(),
        account_key,
        day_key: format_day(event.session.started_at.day()),
    }
}

/// The bucket's key as one text.
pub open spec fn bucket_text(e: UsageEvent) -> Seq<char> {
    e.provider@ + "|"@ + e.source_id.0@ + "|"@ + account_key_of(e) + "|"@ + day_key_of(e)
}

fn bucket_key_text(event: &UsageEvent) -> (r: String)
    requires
        event.session.started_at.wf(),
    ensures
        r@ == bucket_text(*event),
{
    let key = sync_rollup_stats_bucket_key(event);
    let a = concat3(key.provider.as_str(), "|", key.source_id.as_str());
    let b = concat3(a.as_str(), "|", key.account_key.as_str());
    let r = concat3(b.as_str(), "|", key.day_key.as_str());
    proof {
        assert(r@ =~= bucket_text(*event));
    }
    r
}

/// The events' buckets, in order and each once.
pub open spec fn buckets_of(events: Seq<UsageEvent>) -> Seq<Seq<char>> {
    without_repeats(sorted_texts(events.map_values(|e: UsageEvent| bucket_text(e))))
}

/// The sums of a bucket's events.
pub struct RollupSums {
    pub input: u64,
    pub output: u64,
    pub cache_creation: u64,
    pub cache_read: u64,
    pub reasoning: u64,
    pub total: u64,
    pub events: u64,
    pub cost: int,
    /// The first event of the bucket.
    pub first: Option<UsageEvent>,
    /// When the latest began.
    pub latest: Timestamp,
}

pub open spec fn no_sums() -> RollupSums {
    RollupSums {
        input: 0,
        output: 0,
        cache_creation: 0,
        cache_read: 0,
        reasoning: 0,
        total: 0,
        events: 0,
        cost: 0,
        first: None,
        latest: Timestamp { secs: 0, nanos: 0 },
    }
}

pub open spec fn cost_of(e: UsageEvent) -> int {
    match e.cost.estimated_api_equivalent_usd {
        Some(c) => c as int,
        None => 0,
    }
}

pub open spec fn sums_plus(s: RollupSums, e: UsageEvent) -> RollupSums {
    let at = e.session.started_at;
    RollupSums {
        input: sat_add(s.input, or_zero(e.usage.input_tokens)),
        output: sat_add(s.output, or_zero(e.usage.output_tokens)),
        cache_creation: sat_add(s.cache_creation, or_zero(e.usage.cache_creation_tokens)),
        cache_read: sat_add(s.cache_read, or_zero(e.usage.cache_read_tokens)),
        reasoning: sat_add(s.reasoning, or_zero(e.usage.reasoning_tokens)),
        total: sat_add(s.total, e.usage.computed_total_spec()),
        events: sat_add(s.events, 1),
        cost: s.cost + cost_of(e),
        first: match s.first {
            Some(f) => Some(f),
            None => Some(e),
        },
        latest: if s.first is None || s.latest.at() < at.at() {
            at
        } else {
            s.latest
        },
    }
}

pub open spec fn rollup_sums(events: Seq<UsageEvent>, bucket: Seq<char>) -> RollupSums
    decreases events.len(),
{
    if events.len() == 0 {
        no_sums()
    } else {
        let before = rollup_sums(events.drop_last(), bucket);
        if bucket_text(events.last()) == bucket {
            sums_plus(before, events.last())
        } else {
            before
        }
    }
}

/// Whether every bucket's cost can be held, after each of its events.
pub open spec fn costs_fit(events: Seq<UsageEvent>) -> bool {
    forall|n: int, bucket: Seq<char>|
        0 <= n <= events.len() ==> i64::MIN <= (#[trigger] rollup_sums(
            events.take(n),
            bucket,
        )).cost <= i64::MAX
}

/// Whether each event began on a day of the time line that another one follows.
pub open spec fn days_fit(events: Seq<UsageEvent>) -> bool {
    forall|i: int|
        0 <= i < events.len() ==> (#[trigger] events[i]).session.started_at.wf()
            && events[i].session.started_at.day_spec() < MAX_DAY
}

/// Whether `s` is the rollup of a bucket with these sums, whose first event is
/// `f`.
pub open spec fn is_rollup(s: UsageSummary, sums: RollupSums, f: UsageEvent, device: Seq<char>, now: Timestamp) -> bool {
    let day = f.session.started_at.day_spec();
    &&& s.schema_version@ == USAGE_SUMMARY_SCHEMA_VERSION@
    &&& s.summary_id.0@ == semantic_id_spec(
        "sum_"@,
        f.provider@,
        f.source_id.0@,
        "daily_stats:"@ + day_key_of(f) + ":"@ + account_key_of(f),
    )
    &&& s.device_id@ == device
    &&& s.provider == f.provider
    &&& s.source_id == f.source_id
    &&& s.provider_account_id == f.provider_account_id
    &&& s.source == (EventSource { source_record_id: None, ..f.source })
    &&& s.model is None
    &&& s.usage == (UsageCounts {
        input_tokens: Some(sums.input),
        output_tokens: Some(sums.output),
        cache_creation_tokens: Some(sums.cache_creation),
        cache_creation_5m_tokens: None,
        cache_creation_1h_tokens: None,
        cache_read_tokens: Some(sums.cache_read),
        reasoning_tokens: Some(sums.reasoning),
        total_tokens: Some(sums.total),
        requests: Some(sums.events),
        local_prompt_eval_tokens: None,
        local_eval_tokens: None,
    })
    &&& s.cost.currency@ == "USD"@
    &&& s.cost.estimated_api_equivalent_usd == Some(sums.cost as i64)
    &&& s.cost.provider_reported_usd is None
    &&& opt_text(s.cost.pricing_source) == Some("local_rollup"@)
    &&& s.cost.pricing_version is None
    &&& s.cost.confidence == Confidence::Medium
    &&& s.parse_evidence is None
    &&& s.project is None
    &&& s.privacy == (PrivacyInfo {
        mode: PrivacyMode::MetadataOnly,
        contains_prompt_text: false,
        contains_response_text: false,
        contains_file_paths: false,
    })
    &&& s.period_start == Some(midnight_spec(day))
    &&& s.period_end == Some(midnight_spec(day + 1))
    &&& s.observed_at == sums.latest
    &&& s.metadata.summary_format@ == DAILY_ROLLUP_FORMAT@
    &&& opt_text(s.metadata.summary_version) == Some("6"@)
    &&& s.metadata.total_sessions is None
    &&& s.metadata.total_messages is None
    &&& s.metadata.last_computed_at == Some(now)
    &&& s.imported_at == now
}

/// The sums of a bucket in the making.
struct Accumulator {
    input: u64,
    output: u64,
    cache_creation: u64,
    cache_read: u64,
    reasoning: u64,
    total: u64,
    events: u64,
    cost: i64,
    first: Option<usize>,
    latest: Timestamp,
}

impl Accumulator {
    spec fn sums(self, all: Seq<UsageEvent>) -> RollupSums {
        RollupSums {
            input: self.input,
            output: self.output,
            cache_creation: self.cache_creation,
            cache_read: self.cache_read,
            reasoning: self.reasoning,
            total: self.total,
            events: self.events,
            cost: self.cost as int,
            first: match self.first {
                Some(i) => Some(all[i as int]),
                None => None,
            },
            latest: self.latest,
        }
    }

    fn add(&mut self, events: &[UsageEvent], i: usize)
        requires
            i < events.len(),
            i64::MIN <= old(self).cost + cost_of(events@[i as int]) <= i64::MAX,
        ensures
            final(self).sums(events@) == sums_plus(old(self).sums(events@), events@[i as int]),
            final(self).first == match old(self).first {
                Some(f) => Some(f),
                None => Some(i),
            },
    {
        let e = &events[i];
        let at = e.session.started_at;
        if self.first.is_none() || self.latest.before(&at) {
            self.latest = at;
        }
        if self.first.is_none() {
            self.first = Some(i);
        }
        self.input = self.input.saturating_add(e.usage.input_tokens.unwrap_or(0));
        self.output = self.output.saturating_add(e.usage.output_tokens.unwrap_or(0));
        self.cache_creation =
        self.cache_creation.saturating_add(e.usage.cache_creation_tokens.unwrap_or(0));
        self.cache_read = self.cache_read.saturating_add(e.usage.cache_read_tokens.unwrap_or(0));
        self.reasoning = self.reasoning.saturating_add(e.usage.reasoning_tokens.unwrap_or(0));
        self.total = self.total.saturating_add(e.usage.computed_total());
        self.events = self.events.saturating_add(1);
        self.cost = self.cost + e.cost.estimated_api_equivalent_usd.unwrap_or(0);
    }
}

/// The first event of a bucket and the bucket's sums.
fn sum_bucket(events: &[UsageEvent], keys: &[String], bucket: &str) -> (r: Accumulator)
    requires
        costs_fit(events@),
        texts(keys@) == events@.map_values(|e: UsageEvent| bucket_text(e)),
    ensures
        r.sums(events@) == rollup_sums(events@, bucket@),
        r.first matches Some(i) ==> i < events@.len() && bucket_text(events@[i as int]) == bucket@,
{
    let mut acc = Accumulator {
        input: 0,
        output: 0,
        cache_creation: 0,
        cache_read: 0,
        reasoning: 0,
        total: 0,
        events: 0,
        cost: 0,
        first: None,
        latest: Timestamp { secs: 0, nanos: 0 },
    };
    let mut i: usize = 0;
    proof {
        assert(events@.take(0) =~= Seq::empty());
        assert(texts(keys@).len() == keys@.len());
    }
    while i < events.len()
        invariant
            costs_fit(events@),
            texts(keys@) == events@.map_values(|e: UsageEvent| bucket_text(e)),
            keys@.len() == events@.len(),
            i <= events.len(),
            acc.sums(events@) == rollup_sums(events@.take(i as int), bucket@),
            acc.first matches Some(f) ==> f < i && bucket_text(events@[f as int]) == bucket@,
        decreases events.len() - i,
    {
        proof {
            assert(events@.take(i + 1).drop_last() =~= events@.take(i as int));
            assert(events@.take(i + 1).last() == events@[i as int]);
            assert(texts(keys@)[i as int] == keys@[i as int]@);
            let next = rollup_sums(events@.take(i + 1), bucket@);
            assert(i64::MIN <= next.cost <= i64::MAX);
        }
        if same_text(keys[i].as_str(), bucket) {
            acc.add(events, i);
        }
        i = i + 1;
    }
    proof {
        assert(events@.take(i as int) =~= events@);
    }
    acc
}

fn make_rollup(
    acc: &Accumulator,
    f: &UsageEvent,
    device_id: &str,
    now: Timestamp,
    all: Ghost<Seq<UsageEvent>>,
) -> (r: UsageSummary)
    requires
        f.session.started_at.wf(),
        f.session.started_at.day_spec() < MAX_DAY,
    ensures
        is_rollup(r, acc.sums(all@), *f, device_id@, now),
{
    let key = sync_rollup_stats_bucket_key(f);
    let day: i64 = f.session.started_at.day();
    let a = concat3("daily_stats:", key.day_key.as_str(), ":");
    let semantic = concat2(a.as_str(), key.account_key.as_str());
    let mut source = f.source.clone();
    source.source_record_id = None;
    UsageSummary {
        schema_version: USAGE_SUMMARY_SCHEMA_VERSION.to_owned(),
        summary_id: summary_id(f.provider.as_str(), &f.source_id, semantic.as_str()),
        device_id: device_id.to_owned(),
        provider: f.provider.clone(),
        source_id: f.source_id.clone(),
        provider_account_id: copy_account_id(&f.provider_account_id),
        source,
        model: None,
        usage: UsageCounts {
            input_tokens: Some(acc.input),
            output_tokens: Some(acc.output),
            cache_creation_tokens: Some(acc.cache_creation),
            cache_creation_5m_tokens: None,
            cache_creation_1h_tokens: None,
            cache_read_tokens: Some(acc.cache_read),
            reasoning_tokens: Some(acc.reasoning),
            total_tokens: Some(acc.total),
            requests: Some(acc.events),
            local_prompt_eval_tokens: None,
            local_eval_tokens: None,
        },
        cost: CostInfo {
            currency: "USD".to_owned(),
            estimated_api_equivalent_usd: Some(acc.cost),
            provider_reported_usd: None,
            pricing_source: Some("local_rollup".to_owned()),
            pricing_version: None,
            confidence: Confidence::Medium,
        },
        parse_evidence: None,
        project: None,
        privacy: PrivacyInfo {
            mode: PrivacyMode::MetadataOnly,
            contains_prompt_text: false,
            contains_response_text: false,
            contains_file_paths: false,
        },
        period_start: Some(midnight(day)),
        period_end: Some(midnight(day + 1)),
        observed_at: acc.latest,
        metadata: SummaryMetadata {
            summary_format: DAILY_ROLLUP_FORMAT.to_owned(),
            summary_version: Some("6".to_owned()),
            total_sessions: None,
            total_messages: None,
            last_computed_at: Some(now),
        },
        imported_at: now,
    }
}

/// Whether `s` is the rollup of a bucket of the events.
pub open spec fn rolls_up(
    s: UsageSummary,
    events: Seq<UsageEvent>,
    bucket: Seq<char>,
    device: Seq<char>,
    now: Timestamp,
) -> bool {
    let sums = rollup_sums(events, bucket);
    sums.first matches Some(f) && is_rollup(s, sums, f, device, now)
}

/// One summary for each provider, source, account and day of the events, in the
/// order of the buckets' keys. `now` is when this is asked.
pub fn build_sync_rollup_stats_summaries(events: &[UsageEvent], device_id: &str, now: Timestamp) -> (r:
    Vec<UsageSummary>)
    requires
        days_fit(events@),
        costs_fit(events@),
    ensures
        r@.len() == buckets_of(events@).len(),
        forall|k: int|
            0 <= k < r@.len() ==> rolls_up(
                #[trigger] r@[k],
                events@,
                buckets_of(events@)[k],
                device_id@,
                now,
            ),
{
    let ghost names = events@.map_values(|e: UsageEvent| bucket_text(e));
    let mut keys: Vec<String> = no_lines();
    let mut i: usize = 0;
    proof {
        assert(names.take(0) =~= Seq::empty());
    }
    while i < events.len()
        invariant
            days_fit(events@),
            names == events@.map_values(|e: UsageEvent| bucket_text(e)),
            i <= events.len(),
            texts(keys@) == names.take(i as int),
        decreases events.len() - i,
    {
        proof {
            assert(events@[i as int].session.started_at.wf());
        }
        push_line(&mut keys, bucket_key_text(&events[i]));
        i = i + 1;
        proof {
            assert(texts(keys@) =~= names.take(i as int));
        }
    }
    proof {
        assert(names.take(i as int) =~= names);
    }
    let sorted = sort_texts(&keys);
    let buckets = drop_repeats(&sorted);
    let ghost all = buckets_of(events@);
    let mut out: Vec<UsageSummary> = Vec::new();
    let mut k: usize = 0;
    proof {
        assert(texts(buckets@) == all);
        assert(all.len() == buckets@.len());
    }
    while k < buckets.len()
        invariant
            days_fit(events@),
            costs_fit(events@),
            texts(keys@) == events@.map_values(|e: UsageEvent| bucket_text(e)),
            all == buckets_of(events@),
            texts(buckets@) == all,
            all.len() == buckets@.len(),
            k <= buckets.len(),
            out@.len() == k,
            forall|x: int|
                0 <= x < k ==> rolls_up(#[trigger] out@[x], events@, all[x], device_id@, now),
        decreases buckets.len() - k,
    {
        let acc = sum_bucket(events, &keys, buckets[k].as_str());
        proof {
            assert(all[k as int] == buckets@[k as int]@);
            lemma_bucket_has_event(events@, k as int);
            lemma_first(events@, all[k as int]);
        }
        match acc.first {
            Some(i) => {
                proof {
                    assert(events@[i as int].session.started_at.wf());
                }
                let s = make_rollup(&acc, &events[i], device_id, now, Ghost(events@));
                out.push(s);
            },
            None => {
                proof {
                    assert(false);
                }
            },
        }
        k = k + 1;
    }
    out
}

// ---------------------------------------------------------------------------
// Every event counts once
// ---------------------------------------------------------------------------

proof fn lemma_first(events: Seq<UsageEvent>, bucket: Seq<char>)
    ensures
        rollup_sums(events, bucket).first is None ==> forall|i: int|
            0 <= i < events.len() ==> bucket_text(#[trigger] events[i]) != bucket,
    decreases events.len(),
{
    if events.len() > 0 {
        lemma_first(events.drop_last(), bucket);
        if rollup_sums(events, bucket).first is None {
            assert forall|i: int| 0 <= i < events.len() implies bucket_text(#[trigger] events[i])
                != bucket by {
                if i < events.len() - 1 {
                    assert(events.drop_last()[i] == events[i]);
                }
            }
        }
    }
}

proof fn lemma_without_repeats(s: Seq<Seq<char>>)
    ensures
        forall|x: Seq<char>| without_repeats(s).contains(x) == s.contains(x),
        s.len() > 0 ==> without_repeats(s).len() > 0 && without_repeats(s).last() == s.last(),
    decreases s.len(),
{
    if s.len() > 0 {
        let front = s.drop_last();
        lemma_without_repeats(front);
        let w = without_repeats(s);
        let v = without_repeats(front);
        assert forall|x: Seq<char>| w.contains(x) == s.contains(x) by {
            if s.contains(x) {
                let i = choose|i: int| 0 <= i < s.len() && s[i] == x;
                if i < s.len() - 1 {
                    assert(front[i] == x);
                    assert(front.contains(x));
                    assert(v.contains(x));
                    let j = choose|j: int| 0 <= j < v.len() && v[j] == x;
                    assert(w[j] == x);
                } else {
                    assert(w.last() == x);
                    assert(w[w.len() - 1] == x);
                }
            }
            if w.contains(x) {
                let j = choose|j: int| 0 <= j < w.len() && w[j] == x;
                if j < v.len() {
                    assert(v[j] == x);
                    assert(v.contains(x));
                    assert(front.contains(x));
                    let i = choose|i: int| 0 <= i < front.len() && front[i] == x;
                    assert(s[i] == x);
                } else {
                    assert(s[s.len() - 1] == x);
                }
            }
        }
    }
}

proof fn lemma_same_members(a: Seq<Seq<char>>, b: Seq<Seq<char>>)
    requires
        a.to_multiset() == b.to_multiset(),
    ensures
        forall|x: Seq<char>| a.contains(x) == b.contains(x),
{
    a.to_multiset_ensures();
    b.to_multiset_ensures();
    assert forall|x: Seq<char>| a.contains(x) == b.contains(x) by {
        assert(a.contains(x) == (a.to_multiset().count(x) > 0));
        assert(b.contains(x) == (b.to_multiset().count(x) > 0));
    }
}

pub proof fn lemma_bucket_has_event(events: Seq<UsageEvent>, k: int)
    requires
        0 <= k < buckets_of(events).len(),
    ensures
        exists|i: int| 0 <= i < events.len() && bucket_text(#[trigger] events[i]) == buckets_of(
            events,
        )[k],
{
    let names = events.map_values(|e: UsageEvent| bucket_text(e));
    sorting_texts_orders_them(names);
    lemma_same_members(sorted_texts(names), names);
    lemma_without_repeats(sorted_texts(names));
    let x = buckets_of(events)[k];
    assert(buckets_of(events).contains(x));
    assert(names.contains(x));
    let i = choose|i: int| 0 <= i < names.len() && names[i] == x;
    assert(bucket_text(events[i]) == x);
}

proof fn lemma_buckets_increase(s: Seq<Seq<char>>)
    requires
        forall|i: int, j: int| 0 <= i < j < s.len() ==> !text_lt(#[trigger] s[j], #[trigger] s[i]),
    ensures
        texts_increase(without_repeats(s)),
    decreases s.len(),
{
    if s.len() > 0 {
        let front = s.drop_last();
        assert forall|i: int, j: int| 0 <= i < j < front.len() implies !text_lt(
            #[trigger] front[j],
            #[trigger] front[i],
        ) by {
            assert(front[j] == s[j] && front[i] == s[i]);
        }
        lemma_buckets_increase(front);
        lemma_without_repeats(front);
        let v = without_repeats(front);
        let w = without_repeats(s);
        assert forall|i: int, j: int| 0 <= i < j < w.len() implies text_lt(
            #[trigger] w[i],
            #[trigger] w[j],
        ) by {
            if j < v.len() {
                assert(w[i] == v[i] && w[j] == v[j]);
            } else {
                assert(w[j] == s.last());
                assert(front.last() == s[s.len() - 2]);
                assert(!text_lt(s[s.len() - 1], s[s.len() - 2]));
                lemma_text_lt_total(s.last(), v.last());
                if i < v.len() - 1 {
                    assert(text_lt(v[i], v[v.len() - 1]));
                    lemma_text_lt_transitive(v[i], v.last(), s.last());
                }
            }
        }
    }
}

/// The number of events in the buckets.
pub open spec fn rolled_events(events: Seq<UsageEvent>, buckets: Seq<Seq<char>>) -> int
    decreases buckets.len(),
{
    if buckets.len() == 0 {
        0
    } else {
        rolled_events(events, buckets.drop_last()) + rollup_sums(events, buckets.last()).events
    }
}

proof fn lemma_one_more(events: Seq<UsageEvent>, buckets: Seq<Seq<char>>)
    requires
        0 < events.len() < u64::MAX,
        texts_increase(buckets),
    ensures
        rolled_events(events, buckets) == rolled_events(events.drop_last(), buckets) + (
        if buckets.contains(bucket_text(events.last())) {
            1int
        } else {
            0int
        }),
    decreases buckets.len(),
{
    let x = bucket_text(events.last());
    if buckets.len() > 0 {
        let front = buckets.drop_last();
        assert(texts_increase(front)) by {
            assert forall|i: int, j: int| 0 <= i < j < front.len() implies text_lt(
                #[trigger] front[i],
                #[trigger] front[j],
            ) by {
                assert(front[i] == buckets[i] && front[j] == buckets[j]);
            }
        }
        lemma_one_more(events, front);
        lemma_events_bounded(events.drop_last(), buckets.last());
        if buckets.last() == x {
            assert(buckets[buckets.len() - 1] == x);
            if front.contains(x) {
                let i = choose|i: int| 0 <= i < front.len() && front[i] == x;
                assert(text_lt(buckets[i], buckets[buckets.len() - 1]));
                lemma_text_lt_irreflexive(x);
            }
        } else {
            if buckets.contains(x) {
                let i = choose|i: int| 0 <= i < buckets.len() && buckets[i] == x;
                assert(front[i] == x);
            }
            if front.contains(x) {
                let i = choose|i: int| 0 <= i < front.len() && front[i] == x;
                assert(buckets[i] == x);
            }
        }
    }
}

proof fn lemma_events_bounded(events: Seq<UsageEvent>, bucket: Seq<char>)
    requires
        events.len() < u64::MAX,
    ensures
        rollup_sums(events, bucket).events <= events.len(),
    decreases events.len(),
{
    if events.len() > 0 {
        lemma_events_bounded(events.drop_last(), bucket);
    }
}

proof fn lemma_all_rolled(events: Seq<UsageEvent>, buckets: Seq<Seq<char>>)
    requires
        events.len() < u64::MAX,
        texts_increase(buckets),
        forall|i: int| 0 <= i < events.len() ==> buckets.contains(bucket_text(#[trigger] events[i])),
    ensures
        rolled_events(events, buckets) == events.len(),
    decreases events.len(),
{
    if events.len() == 0 {
        lemma_none_rolled(buckets);
        assert(events =~= Seq::empty());
    } else {
        let front = events.drop_last();
        assert forall|i: int| 0 <= i < front.len() implies buckets.contains(
            bucket_text(#[trigger] front[i]),
        ) by {
            assert(front[i] == events[i]);
        }
        lemma_all_rolled(front, buckets);
        lemma_one_more(events, buckets);
    }
}

proof fn lemma_none_rolled(buckets: Seq<Seq<char>>)
    ensures
        rolled_events(Seq::empty(), buckets) == 0,
    decreases buckets.len(),
{
    if buckets.len() > 0 {
        lemma_none_rolled(buckets.drop_last());
    }
}

/// The rollups' buckets are distinct and in order, and every event is counted in
/// exactly one of them.
pub proof fn rollups_count_every_event_once(events: Seq<UsageEvent>)
    requires
        events.len() < u64::MAX,
    ensures
        texts_increase(buckets_of(events)),
        rolled_events(events, buckets_of(events)) == events.len(),
{
    let names = events.map_values(|e: UsageEvent| bucket_text(e));
    sorting_texts_orders_them(names);
    lemma_same_members(sorted_texts(names), names);
    lemma_without_repeats(sorted_texts(names));
    lemma_buckets_increase(sorted_texts(names));
    assert forall|i: int| 0 <= i < events.len() implies buckets_of(events).contains(
        bucket_text(#[trigger] events[i]),
    ) by {
        assert(names[i] == bucket_text(events[i]));
        assert(names.contains(names[i]));
    }
    lemma_all_rolled(events, buckets_of(events));
}

pub proof fn lemma_every_bucket(events: Seq<UsageEvent>, i: int)
    requires
        0 <= i < events.len(),
    ensures
        buckets_of(events).contains(bucket_text(events[i])),
{
    let names = events.map_values(|e: UsageEvent| bucket_text(e));
    sorting_texts_orders_them(names);
    lemma_same_members(sorted_texts(names), names);
    lemma_without_repeats(sorted_texts(names));
    assert(names[i] == bucket_text(events[i]));
    assert(names.contains(names[i]));
}

} // verus!
