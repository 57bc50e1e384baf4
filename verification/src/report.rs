//! Usage reports: usage by account, reported summaries, and what subscriptions
//! were worth.
use crate::ids::{ProviderAccountId, SubscriptionId};
use crate::periods::{ReportPeriod, earlier};
use crate::records::{
    BillingPeriod, ProviderAccount, SourceLocation, Subscription, SubscriptionStatus, UsageEvent,
    UsageSummary, account_name, account_text, display_account_identity, effective_end,
    effective_subscription_ended_at, or_zero, overlapping, periods_overlap,
};
use crate::sorted::{
    Keyed, Ranked, has_key, insert_text, key_at, key_lt, key_place, keys_increase,
    lemma_insert_keeps_order, lemma_key_found, lemma_key_lt_irreflexive, ranked,
    ranking_keeps_every_record, sort_ranked, texts_increase,
};
use crate::text::{
    after_prefix, ascii_lowercase, concat2, lemma_text_lt_irreflexive, lemma_text_lt_total,
    lemma_text_lt_transitive, less_text, lowered, opt_str, same_text, strip_prefix, text_lt, texts,
};
use crate::time::{MAX_SECONDS, MIN_SECONDS, Timestamp, first_instant};
use crate::usage::{
    EventSample, EventUsageSeries, UsageTotals, count_upto, prefix_of, sat_sub, usage_between_spec,
};
use vstd::prelude::*;

verus! {

#[derive(Debug, Clone, PartialEq, Eq)]
pub struct UsageReportRow {
    pub provider: String,
    pub account: String,
    pub events: u64,
    pub usage: UsageTotals,
    /// In order, none twice.
    pub sources: Vec<String>,
    /// In order, none twice.
    pub paths: Vec<String>,
}

#[derive(Debug, Clone, PartialEq, Eq)]
pub struct SummaryReportRow {
    pub provider: String,
    pub account: String,
    pub kind: String,
    pub summaries: u64,
    pub usage: UsageTotals,
    pub direct_event_usage: UsageTotals,
    pub exact_overlap_summaries: u64,
    pub observed_at: Option<Timestamp>,
    /// In order, none twice.
    pub sources: Vec<String>,
    /// In order, none twice.
    pub paths: Vec<String>,
}

#[derive(Debug, Clone, PartialEq, Eq)]
pub struct SubscriptionReportRow {
    pub subscription_id: SubscriptionId,
    pub provider: String,
    pub provider_account_id: ProviderAccountId,
    pub account: String,
    pub plan_name: String,
    /// In hundredths of the currency's unit.
    pub price: i64,
    pub currency: String,
    pub billing_period: BillingPeriod,
    pub started_at: Timestamp,
    pub ended_at: Option<Timestamp>,
    pub status: SubscriptionStatus,
    pub events: u64,
    pub usage: UsageTotals,
    /// In cents of a dollar.
    pub value_minus_price_usd: Option<i64>,
    /// The value and the price, in cents of a dollar, whose ratio is shown.
    pub value_to_price: Option<(i64, i64)>,
}

#[derive(Debug, Clone, PartialEq, Eq)]
pub struct UsageReport {
    pub label: String,
    pub since: Option<Timestamp>,
    pub until: Timestamp,
    pub rows: Vec<UsageReportRow>,
    pub summary_rows: Vec<SummaryReportRow>,
    pub subscription_rows: Vec<SubscriptionReportRow>,
    pub total_events: u64,
    pub total_usage: UsageTotals,
    pub total_summary_usage: UsageTotals,
}

// ---------------------------------------------------------------------------
// Names
// ---------------------------------------------------------------------------

/// The last account with this identifier.
pub open spec fn find_account(accounts: Seq<ProviderAccount>, id: Seq<char>) -> Option<
    ProviderAccount,
>
    decreases accounts.len(),
{
    if accounts.len() == 0 {
        None
    } else if accounts.last().provider_account_id.0@ == id {
        Some(accounts.last())
    } else {
        find_account(accounts.drop_last(), id)
    }
}

/// The last source with this identifier.
pub open spec fn find_source(sources: Seq<SourceLocation>, id: Seq<char>) -> Option<SourceLocation>
    decreases sources.len(),
{
    if sources.len() == 0 {
        None
    } else if sources.last().source_id.0@ == id {
        Some(sources.last())
    } else {
        find_source(sources.drop_last(), id)
    }
}

fn account_by_id<'a>(accounts: &'a [ProviderAccount], id: &str) -> (r: Option<&'a ProviderAccount>)
    ensures
        match r {
            Some(a) => find_account(accounts@, id@) == Some(*a),
            None => find_account(accounts@, id@) is None,
        },
{
    let mut n: usize = accounts.len();
    proof {
        assert(accounts@.take(n as int) =~= accounts@);
    }
    while n > 0
        invariant
            n <= accounts.len(),
            find_account(accounts@, id@) == find_account(accounts@.take(n as int), id@),
        decreases n,
    {
        proof {
            assert(accounts@.take(n as int).last() == accounts@[n - 1]);
            assert(accounts@.take(n as int).drop_last() =~= accounts@.take(n - 1));
        }
        if same_text(accounts[n - 1].provider_account_id.0.as_str(), id) {
            return Some(&accounts[n - 1]);
        }
        n = n - 1;
    }
    None
}

pub(crate) fn source_by_id<'a>(sources: &'a [SourceLocation], id: &str) -> (r: Option<&'a SourceLocation>)
    ensures
        match r {
            Some(a) => find_source(sources@, id@) == Some(*a),
            None => find_source(sources@, id@) is None,
        },
{
    let mut n: usize = sources.len();
    proof {
        assert(sources@.take(n as int) =~= sources@);
    }
    while n > 0
        invariant
            n <= sources.len(),
            find_source(sources@, id@) == find_source(sources@.take(n as int), id@),
        decreases n,
    {
        proof {
            assert(sources@.take(n as int).last() == sources@[n - 1]);
            assert(sources@.take(n as int).drop_last() =~= sources@.take(n - 1));
        }
        if same_text(sources[n - 1].source_id.0.as_str(), id) {
            return Some(&sources[n - 1]);
        }
        n = n - 1;
    }
    None
}

/// What an account is called in a report.
pub open spec fn identity_label(id: Option<ProviderAccountId>, accounts: Seq<ProviderAccount>) -> Seq<
    char,
> {
    match id {
        None => "unassigned"@,
        Some(i) => match find_account(accounts, i.0@) {
            Some(a) => account_name(a),
            None => i.0@,
        },
    }
}

pub fn report_identity_label(
    provider_account_id: &Option<ProviderAccountId>,
    accounts: &[ProviderAccount],
) -> (r: String)
    ensures
        r@ == identity_label(*provider_account_id, accounts@),
{
    match provider_account_id {
        None => "unassigned".to_owned(),
        Some(id) => match account_by_id(accounts, id.0.as_str()) {
            Some(a) => display_account_identity(a),
            None => id.0.clone(),
        },
    }
}

/// A path with the home directory shortened.
pub open spec fn shortened(path: Seq<char>, home: Option<Seq<char>>) -> Seq<char> {
    match home {
        Some(h) => match after_prefix(path, h) {
            Some(rest) => "~"@ + rest,
            None => path,
        },
        None => path,
    }
}

pub open spec fn path_label_spec(s: SourceLocation, home: Option<Seq<char>>) -> Seq<char> {
    shortened(
        match s.path_label {
            Some(p) => p@,
            None => "unknown"@,
        },
        home,
    )
}

/// A path with the home directory, where there is one, shortened.
pub fn abbreviate_home(path: &str, home: Option<&str>) -> (r: String)
    ensures
        r@ == shortened(path@, opt_str(home)),
{
    match home {
        Some(h) => match strip_prefix(path, h) {
            Some(rest) => concat2("~", rest.as_str()),
            None => path.to_owned(),
        },
        None => path.to_owned(),
    }
}

pub fn report_path_label(source: &SourceLocation, home: Option<&str>) -> (r: String)
    ensures
        r@ == path_label_spec(*source, opt_str(home)),
{
    match &source.path_label {
        Some(p) => abbreviate_home(p.as_str(), home),
        None => abbreviate_home("unknown", home),
    }
}

// ---------------------------------------------------------------------------
// Usage by account
// ---------------------------------------------------------------------------

/// What a report is made with.
#[verifier::ext_equal]
pub struct ReportContext {
    pub accounts: Seq<ProviderAccount>,
    pub sources: Seq<SourceLocation>,
    pub home: Option<Seq<char>>,
    pub since: Option<Timestamp>,
    pub until: Timestamp,
}

/// Whether an event lies in the window; both ends belong to it.
pub open spec fn in_window(e: UsageEvent, c: ReportContext) -> bool {
    &&& c.since matches Some(s) ==> s.at() <= e.session.started_at.at()
    &&& e.session.started_at.at() <= c.until.at()
}

pub open spec fn event_key(e: UsageEvent, c: ReportContext) -> Seq<Seq<char>> {
    seq![e.provider@, identity_label(e.provider_account_id, c.accounts)]
}

/// Whether an event counts in the row with this key.
pub open spec fn counts_in(e: UsageEvent, c: ReportContext, key: Seq<Seq<char>>) -> bool {
    in_window(e, c) && event_key(e, c) == key
}

/// How many of the first `n` events count in a row.
pub open spec fn row_events(events: Seq<UsageEvent>, c: ReportContext, key: Seq<Seq<char>>, n: int) -> int
    decreases n,
{
    if n <= 0 {
        0
    } else {
        row_events(events, c, key, n - 1) + if counts_in(events[n - 1], c, key) {
            1int
        } else {
            0int
        }
    }
}

/// The totals of those of the first `n` events that count in a row.
pub open spec fn row_usage(events: Seq<UsageEvent>, c: ReportContext, key: Seq<Seq<char>>, n: int) -> UsageTotals
    decreases n,
{
    if n <= 0 {
        UsageTotals::zero()
    } else {
        let before = row_usage(events, c, key, n - 1);
        if counts_in(events[n - 1], c, key) {
            before.plus_event(events[n - 1])
        } else {
            before
        }
    }
}

/// Whether an event of a row comes from this source.
pub open spec fn row_source(
    events: Seq<UsageEvent>,
    c: ReportContext,
    key: Seq<Seq<char>>,
    n: int,
    source: Seq<char>,
) -> bool {
    exists|i: int|
        0 <= i < n && counts_in(#[trigger] events[i], c, key) && events[i].source_id.0@ == source
}

/// The path shown for a source, where the source is known.
pub open spec fn shown_path(id: Seq<char>, c: ReportContext) -> Option<Seq<char>> {
    match find_source(c.sources, id) {
        Some(s) => Some(path_label_spec(s, c.home)),
        None => None,
    }
}

pub open spec fn row_path(
    events: Seq<UsageEvent>,
    c: ReportContext,
    key: Seq<Seq<char>>,
    n: int,
    path: Seq<char>,
) -> bool {
    exists|i: int|
        0 <= i < n && counts_in(#[trigger] events[i], c, key) && shown_path(
            events[i].source_id.0@,
            c,
        ) == Some(path)
}

impl Keyed for UsageReportRow {
    open spec fn key(&self) -> Seq<Seq<char>> {
        seq![self.provider@, self.account@]
    }

    fn key_texts(&self) -> (r: Vec<String>) {
        let mut out: Vec<String> = Vec::new();
        out.push(self.provider.clone());
        out.push(self.account.clone());
        proof {
            assert(texts(out@) =~= self.key());
        }
        out
    }
}

/// Whether a row holds what the first `n` events say of its key.
pub open spec fn row_right(row: UsageReportRow, events: Seq<UsageEvent>, c: ReportContext, n: int) -> bool {
    let key = row.key();
    &&& row.events == row_events(events, c, key, n)
    &&& row.events > 0
    &&& row.usage == row_usage(events, c, key, n)
    &&& texts_increase(texts(row.sources@))
    &&& forall|x: Seq<char>|
        texts(row.sources@).contains(x) == #[trigger] row_source(events, c, key, n, x)
    &&& texts_increase(texts(row.paths@))
    &&& forall|x: Seq<char>|
        texts(row.paths@).contains(x) == #[trigger] row_path(events, c, key, n, x)
}

/// Whether the rows are those of the first `n` events: one for each key that an
/// event in the window has, in the order of the keys.
pub open spec fn are_rows(
    rows: Seq<UsageReportRow>,
    events: Seq<UsageEvent>,
    c: ReportContext,
    n: int,
) -> bool {
    &&& keys_increase(rows)
    &&& forall|i: int| 0 <= i < rows.len() ==> row_right(#[trigger] rows[i], events, c, n)
    &&& forall|i: int|
        0 <= i < n && in_window(#[trigger] events[i], c) ==> has_key(rows, event_key(events[i], c))
}

proof fn lemma_row_events_bound(events: Seq<UsageEvent>, c: ReportContext, key: Seq<Seq<char>>, n: int)
    requires
        0 <= n,
    ensures
        0 <= row_events(events, c, key, n) <= n,
    decreases n,
{
    if n > 0 {
        lemma_row_events_bound(events, c, key, n - 1);
    }
}

proof fn lemma_row_sources_step(
    events: Seq<UsageEvent>,
    c: ReportContext,
    key: Seq<Seq<char>>,
    n: int,
    x: Seq<char>,
)
    requires
        0 <= n < events.len(),
    ensures
        row_source(events, c, key, n + 1, x) == (row_source(events, c, key, n, x) || (counts_in(
            events[n],
            c,
            key,
        ) && events[n].source_id.0@ == x)),
        row_path(events, c, key, n + 1, x) == (row_path(events, c, key, n, x) || (counts_in(
            events[n],
            c,
            key,
        ) && shown_path(events[n].source_id.0@, c) == Some(x))),
{
    if row_source(events, c, key, n, x) {
        let i = choose|i: int|
            0 <= i < n && counts_in(#[trigger] events[i], c, key) && events[i].source_id.0@ == x;
        assert(counts_in(events[i], c, key));
    }
    if row_path(events, c, key, n, x) {
        let i = choose|i: int|
            0 <= i < n && counts_in(#[trigger] events[i], c, key) && shown_path(
                events[i].source_id.0@,
                c,
            ) == Some(x);
        assert(counts_in(events[i], c, key));
    }
}

/// An event of another key, or outside the window, leaves a row as it is.
proof fn lemma_row_other(row: UsageReportRow, events: Seq<UsageEvent>, c: ReportContext, n: int)
    requires
        0 <= n < events.len(),
        row_right(row, events, c, n),
        !counts_in(events[n], c, row.key()),
    ensures
        row_right(row, events, c, n + 1),
{
    let key = row.key();
    assert forall|x: Seq<char>|
        texts(row.sources@).contains(x) == #[trigger] row_source(events, c, key, n + 1, x) by {
        lemma_row_sources_step(events, c, key, n, x);
        assert(texts(row.sources@).contains(x) == row_source(events, c, key, n, x));
    }
    assert forall|x: Seq<char>|
        texts(row.paths@).contains(x) == #[trigger] row_path(events, c, key, n + 1, x) by {
        lemma_row_sources_step(events, c, key, n, x);
        assert(texts(row.paths@).contains(x) == row_path(events, c, key, n, x));
    }
}

/// A row of nothing so far.
spec fn row_empty(row: UsageReportRow) -> bool {
    &&& row.events == 0
    &&& row.usage == UsageTotals::zero()
    &&& row.sources@.len() == 0
    &&& row.paths@.len() == 0
}

fn add_event_to_row(
    row: UsageReportRow,
    event: &UsageEvent,
    sources: &[SourceLocation],
    home: Option<&str>,
    Ghost(events): Ghost<Seq<UsageEvent>>,
    Ghost(c): Ghost<ReportContext>,
    Ghost(n): Ghost<int>,
) -> (r: UsageReportRow)
    requires
        0 <= n < events.len() <= u64::MAX,
        events[n] == *event,
        c.sources == sources@,
        c.home == opt_str(home),
        counts_in(*event, c, row.key()),
        row_right(row, events, c, n) || (row_empty(row) && row_events(events, c, row.key(), n) == 0),
    ensures
        r.key() == row.key(),
        row_right(r, events, c, n + 1),
{
    let ghost key = row.key();
    let ghost was = row;
    proof {
        lemma_row_events_bound(events, c, key, n);
        if row_empty(row) && row_events(events, c, key, n) == 0 {
            lemma_nothing_counted(events, c, key, n);
            assert(texts(row.sources@) =~= Seq::empty());
            assert(texts(row.paths@) =~= Seq::empty());
        }
        assert(forall|x: Seq<char>|
            texts(was.sources@).contains(x) == #[trigger] row_source(events, c, key, n, x));
        assert(forall|x: Seq<char>|
            texts(was.paths@).contains(x) == #[trigger] row_path(events, c, key, n, x));
    }
    let mut r = row;
    r.events = r.events + 1;
    r.usage.add_event(event);
    insert_text(&mut r.sources, event.source_id.0.as_str());
    match source_by_id(sources, event.source_id.0.as_str()) {
        Some(s) => {
            let label = report_path_label(s, home);
            insert_text(&mut r.paths, label.as_str());
        },
        None => {},
    }
    proof {
        assert forall|x: Seq<char>|
            texts(r.sources@).contains(x) == #[trigger] row_source(events, c, key, n + 1, x) by {
            lemma_row_sources_step(events, c, key, n, x);
            assert(texts(was.sources@).contains(x) == row_source(events, c, key, n, x));
        }
        assert forall|x: Seq<char>|
            texts(r.paths@).contains(x) == #[trigger] row_path(events, c, key, n + 1, x) by {
            lemma_row_sources_step(events, c, key, n, x);
            assert(texts(was.paths@).contains(x) == row_path(events, c, key, n, x));
        }
    }
    r
}

proof fn lemma_nothing_counted(events: Seq<UsageEvent>, c: ReportContext, key: Seq<Seq<char>>, n: int)
    requires
        0 <= n <= events.len(),
        row_events(events, c, key, n) == 0,
    ensures
        row_usage(events, c, key, n) == UsageTotals::zero(),
        forall|i: int| 0 <= i < n ==> !counts_in(#[trigger] events[i], c, key),
    decreases n,
{
    if n > 0 {
        lemma_row_events_bound(events, c, key, n - 1);
        lemma_nothing_counted(events, c, key, n - 1);
    }
}

/// A key that no row has was never counted.
proof fn lemma_unknown_key(
    rows: Seq<UsageReportRow>,
    events: Seq<UsageEvent>,
    c: ReportContext,
    key: Seq<Seq<char>>,
    n: int,
    m: int,
)
    requires
        0 <= m <= n <= events.len(),
        are_rows(rows, events, c, n),
        !has_key(rows, key),
    ensures
        row_events(events, c, key, m) == 0,
    decreases m,
{
    if m > 0 {
        lemma_unknown_key(rows, events, c, key, n, m - 1);
        if counts_in(events[m - 1], c, key) {
            assert(has_key(rows, event_key(events[m - 1], c)));
        }
    }
}

#[verifier::rlimit(50)]
#[verifier::spinoff_prover]
fn usage_rows(
    events: &[UsageEvent],
    sources: &[SourceLocation],
    accounts: &[ProviderAccount],
    home: Option<&str>,
    since: Option<Timestamp>,
    until: Timestamp,
) -> (r: Vec<UsageReportRow>)
    ensures
        are_rows(
            r@,
            events@,
            (ReportContext {
                accounts: accounts@,
                sources: sources@,
                home: opt_str(home),
                since,
                until,
            }),
            events@.len() as int,
        ),
{
    let ghost c = ReportContext {
        accounts: accounts@,
        sources: sources@,
        home: opt_str(home),
        since,
        until,
    };
    let mut rows: Vec<UsageReportRow> = Vec::new();
    let mut n: usize = 0;
    while n < events.len()
        invariant
            c == (ReportContext {
                accounts: accounts@,
                sources: sources@,
                home: opt_str(home),
                since,
                until,
            }),
            n <= events.len(),
            are_rows(rows@, events@, c, n as int),
        decreases events.len() - n,
    {
        let event = &events[n];
        let early = match since {
            Some(s) => event.session.started_at.before(&s),
            None => false,
        };
        let ghost was = rows@;
        if early || until.before(&event.session.started_at) {
            proof {
                assert(!in_window(*event, c));
                assert forall|i: int| 0 <= i < was.len() implies row_right(
                    #[trigger] was[i],
                    events@,
                    c,
                    n + 1,
                ) by {
                    lemma_row_other(was[i], events@, c, n as int);
                }
            }
        } else {
            let label = report_identity_label(&event.provider_account_id, accounts);
            let mut key: Vec<String> = Vec::new();
            key.push(event.provider.clone());
            key.push(label.clone());
            let ghost k = event_key(*event, c);
            proof {
                assert(texts(key@) =~= k);
                assert(in_window(*event, c));
            }
            let p: usize = key_place(&rows, &key);
            let there = key_at(&rows, &key, p);
            proof {
                lemma_key_found(rows@, k, p as int);
            }
            if there {
                let row = rows.remove(p);
                proof {
                    assert(row == was[p as int]);
                    assert(row_right(was[p as int], events@, c, n as int));
                }
                let grown = add_event_to_row(
                    row,
                    event,
                    sources,
                    home,
                    Ghost(events@),
                    Ghost(c),
                    Ghost(n as int),
                );
                rows.insert(p, grown);
                proof {
                    assert(rows@ =~= was.update(p as int, grown));
                    lemma_rows_update(was, rows@, p as int);
                    assert forall|i: int| 0 <= i < rows@.len() implies row_right(
                        #[trigger] rows@[i],
                        events@,
                        c,
                        n + 1,
                    ) by {
                        if i != p {
                            assert(rows@[i] == was[i]);
                            if i < p {
                                assert(key_lt(was[i].key(), was[p as int].key()));
                            } else {
                                assert(key_lt(was[p as int].key(), was[i].key()));
                            }
                            lemma_key_lt_irreflexive(k);
                            lemma_row_other(was[i], events@, c, n as int);
                        }
                    }
                }
            } else {
                let row = UsageReportRow {
                    provider: event.provider.clone(),
                    account: label,
                    events: 0,
                    usage: UsageTotals::default(),
                    sources: Vec::new(),
                    paths: Vec::new(),
                };
                proof {
                    assert(row.key() =~= k);
                    lemma_unknown_key(rows@, events@, c, k, n as int, n as int);
                }
                let grown = add_event_to_row(
                    row,
                    event,
                    sources,
                    home,
                    Ghost(events@),
                    Ghost(c),
                    Ghost(n as int),
                );
                proof {
                    lemma_insert_keeps_order(rows@, grown, p as int);
                }
                rows.insert(p, grown);
                proof {
                    assert forall|i: int| 0 <= i < rows@.len() implies row_right(
                        #[trigger] rows@[i],
                        events@,
                        c,
                        n + 1,
                    ) by {
                        if i != p {
                            let a = if i < p { i } else { i - 1 };
                            assert(rows@[i] == was[a]);
                            assert(was[a].key() != k);
                            lemma_row_other(was[a], events@, c, n as int);
                        }
                    }
                }
            }
            proof {
                assert forall|i: int| 0 <= i < n + 1 && in_window(#[trigger] events@[i], c) implies has_key(
                    rows@,
                    event_key(events@[i], c),
                ) by {
                    if i < n {
                        assert(has_key(was, event_key(events@[i], c)));
                    } else {
                        assert(rows@[p as int].key() == k);
                    }
                }
            }
        }
        n = n + 1;
    }
    rows
}

/// Replacing a record by one with the same key keeps keys and order.
proof fn lemma_rows_update<T: Keyed>(was: Seq<T>, now: Seq<T>, p: int)
    requires
        keys_increase(was),
        0 <= p < was.len(),
        now.len() == was.len(),
        now[p].key() == was[p].key(),
        forall|i: int| 0 <= i < was.len() && i != p ==> now[i] == was[i],
    ensures
        keys_increase(now),
        forall|key: Seq<Seq<char>>| has_key(now, key) == has_key(was, key),
{
    assert forall|i: int| 0 <= i < was.len() implies (#[trigger] now[i]).key() == was[i].key() by {
        if i != p {
            assert(now[i] == was[i]);
        }
    }
    assert forall|i: int, j: int| 0 <= i < j < now.len() implies key_lt(
        (#[trigger] now[i]).key(),
        (#[trigger] now[j]).key(),
    ) by {
        assert(key_lt(was[i].key(), was[j].key()));
    }
    assert forall|key: Seq<Seq<char>>| has_key(now, key) == has_key(was, key) by {
        if has_key(was, key) {
            let i = choose|i: int| 0 <= i < was.len() && (#[trigger] was[i]).key() == key;
            assert(now[i].key() == key);
        }
        if has_key(now, key) {
            let i = choose|i: int| 0 <= i < now.len() && (#[trigger] now[i]).key() == key;
            assert(was[i].key() == key);
        }
    }
}

// ---------------------------------------------------------------------------
// Events by account, in the order of time
// ---------------------------------------------------------------------------

/// What an event is grouped under: the account's name in the report, or the
/// account's identifier.
pub open spec fn series_name(e: UsageEvent, accounts: Seq<ProviderAccount>, by_label: bool) -> Option<
    Seq<char>,
> {
    if by_label {
        Some(identity_label(e.provider_account_id, accounts))
    } else {
        account_text(e.provider_account_id)
    }
}

pub open spec fn in_series(
    e: UsageEvent,
    accounts: Seq<ProviderAccount>,
    by_label: bool,
    key: Seq<Seq<char>>,
) -> bool {
    series_name(e, accounts, by_label) matches Some(name) && key == seq![e.provider@, name]
}

/// Those of the first `n` events that are grouped under a key.
pub open spec fn series_samples(
    events: Seq<UsageEvent>,
    accounts: Seq<ProviderAccount>,
    by_label: bool,
    key: Seq<Seq<char>>,
    n: int,
) -> Seq<EventSample>
    decreases n,
{
    if n <= 0 {
        Seq::empty()
    } else {
        let before = series_samples(events, accounts, by_label, key, n - 1);
        if in_series(events[n - 1], accounts, by_label, key) {
            before.push(EventSample::of_spec(events[n - 1]))
        } else {
            before
        }
    }
}

/// The events under a key, in the order of time.
pub open spec fn series_of(
    events: Seq<UsageEvent>,
    accounts: Seq<ProviderAccount>,
    by_label: bool,
    key: Seq<Seq<char>>,
) -> Seq<EventSample> {
    ranked(series_samples(events, accounts, by_label, key, events.len() as int))
}

struct SeriesGroup {
    provider: String,
    name: String,
    samples: Vec<EventSample>,
}

impl Keyed for SeriesGroup {
    closed spec fn key(&self) -> Seq<Seq<char>> {
        seq![self.provider@, self.name@]
    }

    fn key_texts(&self) -> (r: Vec<String>) {
        let mut out: Vec<String> = Vec::new();
        out.push(self.provider.clone());
        out.push(self.name.clone());
        proof {
            assert(texts(out@) =~= self.key());
        }
        out
    }
}

/// The events of all accounts, each account's in the order of time.
pub struct SeriesEntry {
    pub provider: String,
    pub name: String,
    pub series: EventUsageSeries,
}

impl Keyed for SeriesEntry {
    open spec fn key(&self) -> Seq<Seq<char>> {
        seq![self.provider@, self.name@]
    }

    fn key_texts(&self) -> (r: Vec<String>) {
        let mut out: Vec<String> = Vec::new();
        out.push(self.provider.clone());
        out.push(self.name.clone());
        proof {
            assert(texts(out@) =~= self.key());
        }
        out
    }
}

spec fn groups_right(
    groups: Seq<SeriesGroup>,
    events: Seq<UsageEvent>,
    accounts: Seq<ProviderAccount>,
    by_label: bool,
    n: int,
) -> bool {
    &&& keys_increase(groups)
    &&& forall|i: int|
        0 <= i < groups.len() ==> (#[trigger] groups[i]).samples@ == series_samples(
            events,
            accounts,
            by_label,
            groups[i].key(),
            n,
        )
    &&& forall|key: Seq<Seq<char>>|
        !has_key(groups, key) ==> (#[trigger] series_samples(events, accounts, by_label, key, n)).len()
            == 0
}

#[verifier::rlimit(50)]
#[verifier::spinoff_prover]
fn group_series(events: &[UsageEvent], accounts: &[ProviderAccount], by_label: bool) -> (r: Vec<
    SeriesGroup,
>)
    ensures
        groups_right(r@, events@, accounts@, by_label, events@.len() as int),
{
    let mut groups: Vec<SeriesGroup> = Vec::new();
    let mut n: usize = 0;
    while n < events.len()
        invariant
            n <= events.len(),
            groups_right(groups@, events@, accounts@, by_label, n as int),
        decreases events.len() - n,
    {
        let event = &events[n];
        let name: Option<String> = if by_label {
            Some(report_identity_label(&event.provider_account_id, accounts))
        } else {
            match &event.provider_account_id {
                Some(id) => Some(id.0.clone()),
                None => None,
            }
        };
        let ghost was = groups@;
        match name {
            Some(name) => {
                let mut key: Vec<String> = Vec::new();
                key.push(event.provider.clone());
                key.push(name.clone());
                let ghost k = seq![event.provider@, name@];
                proof {
                    assert(texts(key@) =~= k);
                    assert(in_series(*event, accounts@, by_label, k));
                    assert forall|other: Seq<Seq<char>>| other != k implies !in_series(
                        *event,
                        accounts@,
                        by_label,
                        other,
                    ) by {}
                }
                let p: usize = key_place(&groups, &key);
                let there = key_at(&groups, &key, p);
                proof {
                    lemma_key_found(groups@, k, p as int);
                }
                let sample = EventSample::of(event);
                if there {
                    let mut group = groups.remove(p);
                    group.samples.push(sample);
                    groups.insert(p, group);
                    proof {
                        assert(groups@ =~= was.update(p as int, group));
                        lemma_rows_update(was, groups@, p as int);
                        assert forall|i: int| 0 <= i < groups@.len() implies (
                        #[trigger] groups@[i]).samples@ == series_samples(
                            events@,
                            accounts@,
                            by_label,
                            groups@[i].key(),
                            n + 1,
                        ) by {
                            if i != p {
                                assert(groups@[i] == was[i]);
                                if i < p {
                                    assert(key_lt(was[i].key(), was[p as int].key()));
                                } else {
                                    assert(key_lt(was[p as int].key(), was[i].key()));
                                }
                                lemma_key_lt_irreflexive(k);
                            }
                        }
                    }
                } else {
                    let mut samples: Vec<EventSample> = Vec::new();
                    samples.push(sample);
                    let group = SeriesGroup { provider: event.provider.clone(), name, samples };
                    proof {
                        assert(group.key() =~= k);
                        lemma_insert_keeps_order(groups@, group, p as int);
                        assert(series_samples(events@, accounts@, by_label, k, n as int).len() == 0);
                        assert(samples@ =~= series_samples(events@, accounts@, by_label, k, n + 1));
                    }
                    groups.insert(p, group);
                    proof {
                        assert forall|i: int| 0 <= i < groups@.len() implies (
                        #[trigger] groups@[i]).samples@ == series_samples(
                            events@,
                            accounts@,
                            by_label,
                            groups@[i].key(),
                            n + 1,
                        ) by {
                            if i != p {
                                let a = if i < p { i } else { i - 1 };
                                assert(groups@[i] == was[a]);
                                assert(was[a].key() != k);
                            }
                        }
                    }
                }
                proof {
                    assert forall|other: Seq<Seq<char>>| !has_key(groups@, other) implies (
                    #[trigger] series_samples(events@, accounts@, by_label, other, n + 1)).len()
                        == 0 by {
                        assert(groups@[p as int].key() == k);
                        assert(other != k);
                        assert(!has_key(was, other));
                        assert(series_samples(events@, accounts@, by_label, other, n as int).len()
                            == 0);
                    }
                }
            },
            None => {
                proof {
                    assert forall|other: Seq<Seq<char>>| !has_key(groups@, other) implies (
                    #[trigger] series_samples(events@, accounts@, by_label, other, n + 1)).len()
                        == 0 by {
                        assert(series_samples(events@, accounts@, by_label, other, n as int).len()
                            == 0);
                    }
                }
            },
        }
        n = n + 1;
    }
    groups
}

/// Whether an index holds the events of every account.
pub open spec fn index_right(
    index: Seq<SeriesEntry>,
    events: Seq<UsageEvent>,
    accounts: Seq<ProviderAccount>,
    by_label: bool,
) -> bool {
    &&& keys_increase(index)
    &&& forall|i: int|
        0 <= i < index.len() ==> (#[trigger] index[i]).series.wf() && index[i].series.samples@
            == series_of(events, accounts, by_label, index[i].key())
    &&& forall|key: Seq<Seq<char>>|
        !has_key(index, key) ==> (#[trigger] series_of(events, accounts, by_label, key)).len() == 0
}

pub fn event_usage_index(events: &[UsageEvent], accounts: &[ProviderAccount], by_label: bool) -> (r:
    Vec<SeriesEntry>)
    ensures
        index_right(r@, events@, accounts@, by_label),
{
    let groups = group_series(events, accounts, by_label);
    let ghost all = groups@;
    let ghost total = events@.len() as int;
    let mut rest = groups;
    let mut back: Vec<SeriesEntry> = Vec::new();
    // `back` holds the entries from the last one on.
    while rest.len() > 0
        invariant
            groups_right(all, events@, accounts@, by_label, total),
            total == events@.len(),
            rest@.len() + back@.len() == all.len(),
            rest@ == all.take(rest@.len() as int),
            forall|i: int|
                0 <= i < back@.len() ==> (#[trigger] back@[i]).key() == all[all.len() - 1 - i].key()
                    && back@[i].series.wf() && back@[i].series.samples@ == series_of(
                    events@,
                    accounts@,
                    by_label,
                    back@[i].key(),
                ),
        decreases rest.len(),
    {
        let ghost m = rest@.len() - 1;
        match rest.pop() {
            Some(group) => {
                proof {
                    assert(group == all[m]);
                    assert(rest@ =~= all.take(m));
                }
                let entry = SeriesEntry {
                    provider: group.provider,
                    name: group.name,
                    series: EventUsageSeries::from_events(group.samples),
                };
                proof {
                    assert(entry.key() == all[m].key());
                }
                back.push(entry);
            },
            None => {},
        }
    }
    let mut index: Vec<SeriesEntry> = Vec::new();
    while back.len() > 0
        invariant
            all.len() == index@.len() + back@.len(),
            forall|i: int|
                0 <= i < back@.len() ==> (#[trigger] back@[i]).key() == all[all.len() - 1 - i].key()
                    && back@[i].series.wf() && back@[i].series.samples@ == series_of(
                    events@,
                    accounts@,
                    by_label,
                    back@[i].key(),
                ),
            forall|i: int|
                0 <= i < index@.len() ==> (#[trigger] index@[i]).key() == all[i].key()
                    && index@[i].series.wf() && index@[i].series.samples@ == series_of(
                    events@,
                    accounts@,
                    by_label,
                    index@[i].key(),
                ),
        decreases back.len(),
    {
        match back.pop() {
            Some(entry) => {
                index.push(entry);
            },
            None => {},
        }
    }
    proof {
        assert forall|i: int, j: int| 0 <= i < j < index@.len() implies key_lt(
            (#[trigger] index@[i]).key(),
            (#[trigger] index@[j]).key(),
        ) by {
            assert(key_lt(all[i].key(), all[j].key()));
        }
        assert forall|key: Seq<Seq<char>>| !has_key(index@, key) implies (
        #[trigger] series_of(events@, accounts@, by_label, key)).len() == 0 by {
            assert(!has_key(all, key)) by {
                if has_key(all, key) {
                    let i = choose|i: int| 0 <= i < all.len() && (#[trigger] all[i]).key() == key;
                    assert(index@[i].key() == key);
                }
            }
            let s = series_samples(events@, accounts@, by_label, key, total);
            assert(s.len() == 0);
        }
    }
    index
}

fn index_usage(
    index: &[SeriesEntry],
    provider: &str,
    name: &str,
    start: Timestamp,
    end: Timestamp,
    end_inclusive: bool,
    Ghost(events): Ghost<Seq<UsageEvent>>,
    Ghost(accounts): Ghost<Seq<ProviderAccount>>,
    Ghost(by_label): Ghost<bool>,
) -> (r: (u64, UsageTotals))
    requires
        index_right(index@, events, accounts, by_label),
    ensures
        r == usage_between_spec(
            series_of(events, accounts, by_label, seq![provider@, name@]),
            start,
            end,
            end_inclusive,
        ),
{
    let mut key: Vec<String> = Vec::new();
    key.push(provider.to_owned());
    key.push(name.to_owned());
    let ghost k = seq![provider@, name@];
    proof {
        assert(texts(key@) =~= k);
    }
    let p: usize = key_place(index, &key);
    let there = key_at(index, &key, p);
    proof {
        lemma_key_found(index@, k, p as int);
    }
    if there {
        index[p].series.usage_between(start, end, end_inclusive)
    } else {
        proof {
            let s = series_of(events, accounts, by_label, k);
            assert(s.len() == 0);
            assert(count_upto(s, start, false, 0) == 0);
            assert(count_upto(s, end, end_inclusive, 0) == 0);
        }
        (0, UsageTotals::default())
    }
}

// ---------------------------------------------------------------------------
// Summaries
// ---------------------------------------------------------------------------

pub open spec fn summary_key(s: UsageSummary, c: ReportContext) -> Seq<Seq<char>> {
    seq![
        s.provider@,
        identity_label(s.provider_account_id, c.accounts),
        s.metadata.summary_format@,
    ]
}

pub open spec fn or_instant(o: Option<Timestamp>, t: Timestamp) -> Timestamp {
    match o {
        Some(x) => x,
        None => t,
    }
}

/// The usage of the events that a summary covers: those of its account in its
/// period, up to the report's end.
pub open spec fn direct_usage(s: UsageSummary, events: Seq<UsageEvent>, c: ReportContext) -> UsageTotals {
    usage_between_spec(
        series_of(
            events,
            c.accounts,
            true,
            seq![s.provider@, identity_label(s.provider_account_id, c.accounts)],
        ),
        or_instant(s.period_start, s.observed_at),
        earlier(or_instant(s.period_end, s.observed_at), c.until),
        true,
    ).1
}

/// Whether a summary says exactly what the events that it covers say. A provider
/// may count cached input in the input or beside it.
pub open spec fn matches_direct(s: UsageSummary, d: UsageTotals) -> bool {
    &&& d.total_tokens != 0
    &&& s.usage.computed_total_spec() == d.total_tokens
    &&& d.input_tokens == or_zero(s.usage.input_tokens) || sat_sub(
        d.input_tokens,
        d.cached_input_tokens,
    ) == or_zero(s.usage.input_tokens)
    &&& or_zero(s.usage.cache_creation_tokens) == d.cache_creation_tokens
    &&& or_zero(s.usage.cache_read_tokens) == d.cached_input_tokens
    &&& or_zero(s.usage.output_tokens) == d.output_tokens
    &&& or_zero(s.usage.reasoning_tokens) == d.reasoning_tokens
}

pub fn summary_usage_matches_direct_overlap(summary: &UsageSummary, direct: &UsageTotals) -> (r: bool)
    ensures
        r == matches_direct(*summary, *direct),
{
    if direct.total_tokens == 0 || summary.usage.computed_total() != direct.total_tokens {
        return false;
    }
    let summary_input: u64 = summary.usage.input_tokens.unwrap_or(0);
    let direct_input_matches = direct.input_tokens == summary_input
        || direct.input_tokens.saturating_sub(direct.cached_input_tokens) == summary_input;
    direct_input_matches && summary.usage.cache_creation_tokens.unwrap_or(0)
        == direct.cache_creation_tokens && summary.usage.cache_read_tokens.unwrap_or(0)
        == direct.cached_input_tokens && summary.usage.output_tokens.unwrap_or(0)
        == direct.output_tokens && summary.usage.reasoning_tokens.unwrap_or(0)
        == direct.reasoning_tokens
}

/// Whether a summary counts in the row with this key.
pub open spec fn summary_counts(s: UsageSummary, c: ReportContext, key: Seq<Seq<char>>) -> bool {
    s.observed_at.at() <= c.until.at() && summary_key(s, c) == key
}

/// What a row of summaries adds up to.
#[verifier::ext_equal]
pub struct SummarySums {
    pub summaries: int,
    pub usage: UsageTotals,
    pub direct: UsageTotals,
    pub exact: int,
    pub observed: Option<Timestamp>,
}

pub open spec fn later(o: Option<Timestamp>, t: Timestamp) -> Timestamp {
    match o {
        Some(x) => if x.at() > t.at() {
            x
        } else {
            t
        },
        None => t,
    }
}

/// What those of the first `n` summaries that count in a row add up to.
pub open spec fn summary_sums(
    summaries: Seq<UsageSummary>,
    events: Seq<UsageEvent>,
    c: ReportContext,
    key: Seq<Seq<char>>,
    n: int,
) -> SummarySums
    decreases n,
{
    if n <= 0 {
        SummarySums {
            summaries: 0,
            usage: UsageTotals::zero(),
            direct: UsageTotals::zero(),
            exact: 0,
            observed: None,
        }
    } else {
        let before = summary_sums(summaries, events, c, key, n - 1);
        let s = summaries[n - 1];
        if summary_counts(s, c, key) {
            let d = direct_usage(s, events, c);
            SummarySums {
                summaries: before.summaries + 1,
                usage: before.usage.plus_summary(s),
                direct: before.direct.plus_totals(d),
                exact: before.exact + if matches_direct(s, d) {
                    1int
                } else {
                    0int
                },
                observed: Some(later(before.observed, s.observed_at)),
            }
        } else {
            before
        }
    }
}

pub open spec fn summary_source(
    summaries: Seq<UsageSummary>,
    c: ReportContext,
    key: Seq<Seq<char>>,
    n: int,
    source: Seq<char>,
) -> bool {
    exists|i: int|
        0 <= i < n && summary_counts(#[trigger] summaries[i], c, key)
            && summaries[i].source_id.0@ == source
}

pub open spec fn summary_path(
    summaries: Seq<UsageSummary>,
    c: ReportContext,
    key: Seq<Seq<char>>,
    n: int,
    path: Seq<char>,
) -> bool {
    exists|i: int|
        0 <= i < n && summary_counts(#[trigger] summaries[i], c, key) && shown_path(
            summaries[i].source_id.0@,
            c,
        ) == Some(path)
}

impl Keyed for SummaryReportRow {
    open spec fn key(&self) -> Seq<Seq<char>> {
        seq![self.provider@, self.account@, self.kind@]
    }

    fn key_texts(&self) -> (r: Vec<String>) {
        let mut out: Vec<String> = Vec::new();
        out.push(self.provider.clone());
        out.push(self.account.clone());
        out.push(self.kind.clone());
        proof {
            assert(texts(out@) =~= self.key());
        }
        out
    }
}

impl SummaryReportRow {
    pub open spec fn sums(self) -> SummarySums {
        SummarySums {
            summaries: self.summaries as int,
            usage: self.usage,
            direct: self.direct_event_usage,
            exact: self.exact_overlap_summaries as int,
            observed: self.observed_at,
        }
    }
}

/// Whether a row holds what the first `n` summaries say of its key.
pub open spec fn summary_row_right(
    row: SummaryReportRow,
    summaries: Seq<UsageSummary>,
    events: Seq<UsageEvent>,
    c: ReportContext,
    n: int,
) -> bool {
    let key = row.key();
    &&& row.sums() == summary_sums(summaries, events, c, key, n)
    &&& texts_increase(texts(row.sources@))
    &&& forall|x: Seq<char>|
        texts(row.sources@).contains(x) == #[trigger] summary_source(summaries, c, key, n, x)
    &&& texts_increase(texts(row.paths@))
    &&& forall|x: Seq<char>|
        texts(row.paths@).contains(x) == #[trigger] summary_path(summaries, c, key, n, x)
}

/// Whether the rows are those of the first `n` summaries: one for each key that a
/// summary observed in time has, in the order of the keys.
pub open spec fn are_summary_rows(
    rows: Seq<SummaryReportRow>,
    summaries: Seq<UsageSummary>,
    events: Seq<UsageEvent>,
    c: ReportContext,
    n: int,
) -> bool {
    &&& keys_increase(rows)
    &&& forall|i: int|
        0 <= i < rows.len() ==> summary_row_right(#[trigger] rows[i], summaries, events, c, n)
            && rows[i].summaries > 0
    &&& forall|i: int|
        0 <= i < n && (#[trigger] summaries[i]).observed_at.at() <= c.until.at() ==> has_key(
            rows,
            summary_key(summaries[i], c),
        )
}

proof fn lemma_summary_sums_bound(
    summaries: Seq<UsageSummary>,
    events: Seq<UsageEvent>,
    c: ReportContext,
    key: Seq<Seq<char>>,
    n: int,
)
    requires
        0 <= n,
    ensures
        0 <= summary_sums(summaries, events, c, key, n).exact <= summary_sums(
            summaries,
            events,
            c,
            key,
            n,
        ).summaries <= n,
    decreases n,
{
    if n > 0 {
        lemma_summary_sums_bound(summaries, events, c, key, n - 1);
    }
}

proof fn lemma_summary_sources_step(
    summaries: Seq<UsageSummary>,
    c: ReportContext,
    key: Seq<Seq<char>>,
    n: int,
    x: Seq<char>,
)
    requires
        0 <= n < summaries.len(),
    ensures
        summary_source(summaries, c, key, n + 1, x) == (summary_source(summaries, c, key, n, x) || (
        summary_counts(summaries[n], c, key) && summaries[n].source_id.0@ == x)),
        summary_path(summaries, c, key, n + 1, x) == (summary_path(summaries, c, key, n, x) || (
        summary_counts(summaries[n], c, key) && shown_path(summaries[n].source_id.0@, c) == Some(
            x,
        ))),
{
    if summary_source(summaries, c, key, n, x) {
        let i = choose|i: int|
            0 <= i < n && summary_counts(#[trigger] summaries[i], c, key)
                && summaries[i].source_id.0@ == x;
        assert(summary_counts(summaries[i], c, key));
    }
    if summary_path(summaries, c, key, n, x) {
        let i = choose|i: int|
            0 <= i < n && summary_counts(#[trigger] summaries[i], c, key) && shown_path(
                summaries[i].source_id.0@,
                c,
            ) == Some(x);
        assert(summary_counts(summaries[i], c, key));
    }
}

proof fn lemma_summary_row_other(
    row: SummaryReportRow,
    summaries: Seq<UsageSummary>,
    events: Seq<UsageEvent>,
    c: ReportContext,
    n: int,
)
    requires
        0 <= n < summaries.len(),
        summary_row_right(row, summaries, events, c, n),
        !summary_counts(summaries[n], c, row.key()),
    ensures
        summary_row_right(row, summaries, events, c, n + 1),
{
    let key = row.key();
    assert forall|x: Seq<char>|
        texts(row.sources@).contains(x) == #[trigger] summary_source(summaries, c, key, n + 1, x) by {
        lemma_summary_sources_step(summaries, c, key, n, x);
        assert(texts(row.sources@).contains(x) == summary_source(summaries, c, key, n, x));
    }
    assert forall|x: Seq<char>|
        texts(row.paths@).contains(x) == #[trigger] summary_path(summaries, c, key, n + 1, x) by {
        lemma_summary_sources_step(summaries, c, key, n, x);
        assert(texts(row.paths@).contains(x) == summary_path(summaries, c, key, n, x));
    }
}

fn add_summary_to_row(
    row: SummaryReportRow,
    summary: &UsageSummary,
    direct: &UsageTotals,
    sources: &[SourceLocation],
    home: Option<&str>,
    Ghost(summaries): Ghost<Seq<UsageSummary>>,
    Ghost(events): Ghost<Seq<UsageEvent>>,
    Ghost(c): Ghost<ReportContext>,
    Ghost(n): Ghost<int>,
) -> (r: SummaryReportRow)
    requires
        0 <= n < summaries.len() <= u64::MAX,
        summaries[n] == *summary,
        *direct == direct_usage(*summary, events, c),
        c.sources == sources@,
        c.home == opt_str(home),
        summary_counts(*summary, c, row.key()),
        summary_row_right(row, summaries, events, c, n),
    ensures
        r.key() == row.key(),
        r.summaries > 0,
        summary_row_right(r, summaries, events, c, n + 1),
{
    let ghost key = row.key();
    let ghost was = row;
    proof {
        lemma_summary_sums_bound(summaries, events, c, key, n);
    }
    let mut r = row;
    r.summaries = r.summaries + 1;
    r.usage.add_summary(summary);
    r.direct_event_usage.add_totals(direct);
    if summary_usage_matches_direct_overlap(summary, direct) {
        r.exact_overlap_summaries = r.exact_overlap_summaries + 1;
    }
    r.observed_at =
    match r.observed_at {
        Some(t) => Some(t.max(summary.observed_at)),
        None => Some(summary.observed_at),
    };
    insert_text(&mut r.sources, summary.source_id.0.as_str());
    match source_by_id(sources, summary.source_id.0.as_str()) {
        Some(s) => {
            let label = report_path_label(s, home);
            insert_text(&mut r.paths, label.as_str());
        },
        None => {},
    }
    proof {
        assert(r.sums() =~= summary_sums(summaries, events, c, key, n + 1));
        assert forall|x: Seq<char>|
            texts(r.sources@).contains(x) == #[trigger] summary_source(
                summaries,
                c,
                key,
                n + 1,
                x,
            ) by {
            lemma_summary_sources_step(summaries, c, key, n, x);
            assert(texts(was.sources@).contains(x) == summary_source(summaries, c, key, n, x));
        }
        assert forall|x: Seq<char>|
            texts(r.paths@).contains(x) == #[trigger] summary_path(
                summaries,
                c,
                key,
                n + 1,
                x,
            ) by {
            lemma_summary_sources_step(summaries, c, key, n, x);
            assert(texts(was.paths@).contains(x) == summary_path(summaries, c, key, n, x));
        }
    }
    r
}

proof fn lemma_unknown_summary_key(
    rows: Seq<SummaryReportRow>,
    summaries: Seq<UsageSummary>,
    events: Seq<UsageEvent>,
    c: ReportContext,
    key: Seq<Seq<char>>,
    n: int,
    m: int,
)
    requires
        0 <= m <= n <= summaries.len(),
        are_summary_rows(rows, summaries, events, c, n),
        !has_key(rows, key),
    ensures
        summary_sums(summaries, events, c, key, m) == (SummarySums {
            summaries: 0,
            usage: UsageTotals::zero(),
            direct: UsageTotals::zero(),
            exact: 0,
            observed: None,
        }),
        forall|i: int| 0 <= i < m ==> !summary_counts(#[trigger] summaries[i], c, key),
    decreases m,
{
    if m > 0 {
        lemma_unknown_summary_key(rows, summaries, events, c, key, n, m - 1);
        if summary_counts(summaries[m - 1], c, key) {
            assert(has_key(rows, summary_key(summaries[m - 1], c)));
        }
    }
}

fn direct_usage_for_summary(
    summary: &UsageSummary,
    summary_account: &str,
    index: &[SeriesEntry],
    until: Timestamp,
    Ghost(events): Ghost<Seq<UsageEvent>>,
    Ghost(c): Ghost<ReportContext>,
) -> (r: UsageTotals)
    requires
        index_right(index@, events, c.accounts, true),
        summary_account@ == identity_label(summary.provider_account_id, c.accounts),
        c.until == until,
    ensures
        r == direct_usage(*summary, events, c),
{
    let start = match summary.period_start {
        Some(t) => t,
        None => summary.observed_at,
    };
    let end = match summary.period_end {
        Some(t) => t,
        None => summary.observed_at,
    };
    let (_, usage) = index_usage(
        index,
        summary.provider.as_str(),
        summary_account,
        start,
        end.min(until),
        true,
        Ghost(events),
        Ghost(c.accounts),
        Ghost(true),
    );
    usage
}

#[verifier::rlimit(50)]
#[verifier::spinoff_prover]
fn summary_report_rows(
    summaries: &[UsageSummary],
    index: &[SeriesEntry],
    sources: &[SourceLocation],
    accounts: &[ProviderAccount],
    home: Option<&str>,
    since: Option<Timestamp>,
    until: Timestamp,
    Ghost(events): Ghost<Seq<UsageEvent>>,
) -> (r: Vec<SummaryReportRow>)
    requires
        index_right(index@, events, accounts@, true),
    ensures
        are_summary_rows(
            r@,
            summaries@,
            events,
            (ReportContext {
                accounts: accounts@,
                sources: sources@,
                home: opt_str(home),
                since,
                until,
            }),
            summaries@.len() as int,
        ),
{
    let ghost c = ReportContext {
        accounts: accounts@,
        sources: sources@,
        home: opt_str(home),
        since,
        until,
    };
    let mut rows: Vec<SummaryReportRow> = Vec::new();
    let mut n: usize = 0;
    while n < summaries.len()
        invariant
            index_right(index@, events, accounts@, true),
            c == (ReportContext {
                accounts: accounts@,
                sources: sources@,
                home: opt_str(home),
                since,
                until,
            }),
            n <= summaries.len(),
            are_summary_rows(rows@, summaries@, events, c, n as int),
        decreases summaries.len() - n,
    {
        let summary = &summaries[n];
        let ghost was = rows@;
        if until.before(&summary.observed_at) {
            proof {
                assert forall|i: int| 0 <= i < was.len() implies summary_row_right(
                    #[trigger] was[i],
                    summaries@,
                    events,
                    c,
                    n + 1,
                ) && was[i].summaries > 0 by {
                    lemma_summary_row_other(was[i], summaries@, events, c, n as int);
                }
            }
        } else {
            let account = report_identity_label(&summary.provider_account_id, accounts);
            let direct = direct_usage_for_summary(
                summary,
                account.as_str(),
                index,
                until,
                Ghost(events),
                Ghost(c),
            );
            let mut key: Vec<String> = Vec::new();
            key.push(summary.provider.clone());
            key.push(account.clone());
            key.push(summary.metadata.summary_format.clone());
            let ghost k = summary_key(*summary, c);
            proof {
                assert(texts(key@) =~= k);
            }
            let p: usize = key_place(&rows, &key);
            let there = key_at(&rows, &key, p);
            proof {
                lemma_key_found(rows@, k, p as int);
            }
            if there {
                let row = rows.remove(p);
                proof {
                    assert(row == was[p as int]);
                    assert(summary_row_right(was[p as int], summaries@, events, c, n as int));
                }
                let grown = add_summary_to_row(
                    row,
                    summary,
                    &direct,
                    sources,
                    home,
                    Ghost(summaries@),
                    Ghost(events),
                    Ghost(c),
                    Ghost(n as int),
                );
                rows.insert(p, grown);
                proof {
                    assert(rows@ =~= was.update(p as int, grown));
                    lemma_rows_update(was, rows@, p as int);
                    assert forall|i: int| 0 <= i < rows@.len() implies summary_row_right(
                        #[trigger] rows@[i],
                        summaries@,
                        events,
                        c,
                        n + 1,
                    ) && rows@[i].summaries > 0 by {
                        if i != p {
                            assert(rows@[i] == was[i]);
                            if i < p {
                                assert(key_lt(was[i].key(), was[p as int].key()));
                            } else {
                                assert(key_lt(was[p as int].key(), was[i].key()));
                            }
                            lemma_key_lt_irreflexive(k);
                            lemma_summary_row_other(was[i], summaries@, events, c, n as int);
                        }
                    }
                }
            } else {
                let row = SummaryReportRow {
                    provider: summary.provider.clone(),
                    account,
                    kind: summary.metadata.summary_format.clone(),
                    summaries: 0,
                    usage: UsageTotals::default(),
                    direct_event_usage: UsageTotals::default(),
                    exact_overlap_summaries: 0,
                    observed_at: None,
                    sources: Vec::new(),
                    paths: Vec::new(),
                };
                proof {
                    assert(row.key() =~= k);
                    lemma_unknown_summary_key(
                        rows@,
                        summaries@,
                        events,
                        c,
                        k,
                        n as int,
                        n as int,
                    );
                    assert(texts(row.sources@) =~= Seq::empty());
                    assert(texts(row.paths@) =~= Seq::empty());
                    assert(row.sums() =~= summary_sums(summaries@, events, c, k, n as int));
                    assert(summary_row_right(row, summaries@, events, c, n as int));
                }
                let grown = add_summary_to_row(
                    row,
                    summary,
                    &direct,
                    sources,
                    home,
                    Ghost(summaries@),
                    Ghost(events),
                    Ghost(c),
                    Ghost(n as int),
                );
                proof {
                    lemma_insert_keeps_order(rows@, grown, p as int);
                }
                rows.insert(p, grown);
                proof {
                    assert forall|i: int| 0 <= i < rows@.len() implies summary_row_right(
                        #[trigger] rows@[i],
                        summaries@,
                        events,
                        c,
                        n + 1,
                    ) && rows@[i].summaries > 0 by {
                        if i != p {
                            let a = if i < p { i } else { i - 1 };
                            assert(rows@[i] == was[a]);
                            assert(was[a].key() != k);
                            lemma_summary_row_other(was[a], summaries@, events, c, n as int);
                        }
                    }
                }
            }
            proof {
                assert forall|i: int|
                    0 <= i < n + 1 && (#[trigger] summaries@[i]).observed_at.at()
                        <= c.until.at() implies has_key(rows@, summary_key(summaries@[i], c)) by {
                    if i < n {
                        assert(has_key(was, summary_key(summaries@[i], c)));
                    } else {
                        assert(rows@[p as int].key() == k);
                    }
                }
            }
        }
        n = n + 1;
    }
    rows
}

// ---------------------------------------------------------------------------
// Subscriptions
// ---------------------------------------------------------------------------

/// Whether a subscription's period meets the window. The window's end belongs to
/// it, so that the next second is the first that does not.
pub open spec fn meets_window(
    started: Timestamp,
    ended: Option<Timestamp>,
    since: Option<Timestamp>,
    until: Timestamp,
) -> bool {
    &&& since matches Some(s) ==> s.at() <= until.at()
    &&& started.at() <= until.at()
    &&& overlapping(
        started,
        ended,
        or_instant(since, first_instant()),
        Some(until.next_second()),
    )
}

pub fn subscription_intersects_report_window(
    started_at: Timestamp,
    ended_at: Option<Timestamp>,
    since: Option<Timestamp>,
    until: Timestamp,
) -> (r: bool)
    requires
        until.wf(),
        until.secs < MAX_SECONDS,
    ensures
        r == meets_window(started_at, ended_at, since, until),
{
    let inverted = match since {
        Some(s) => until.before(&s),
        None => false,
    };
    if inverted || until.before(&started_at) {
        return false;
    }
    let window_start = match since {
        Some(s) => s,
        None => Timestamp { secs: MIN_SECONDS, nanos: 0 },
    };
    periods_overlap(started_at, ended_at, window_start, Some(until.plus_second()))
}

/// What a subscription was worth beyond its price, and the two amounts: only for
/// a price in dollars above nothing and a known value.
pub open spec fn value_spec(price: i64, currency: Seq<char>, value: Option<i64>) -> Option<(i64, i64)> {
    if lowered(currency) != lowered("USD"@) || price <= 0 {
        None
    } else {
        match value {
            Some(v) => Some((v, price)),
            None => None,
        }
    }
}

pub open spec fn worth(pair: Option<(i64, i64)>) -> Option<i64> {
    match pair {
        Some(p) => Some((p.0 - p.1) as i64),
        None => None,
    }
}

pub fn subscription_value_metrics(
    price_cents: i64,
    currency: &str,
    estimated_cost_usd_cents: Option<i64>,
) -> (r: (Option<i64>, Option<(i64, i64)>))
    requires
        price_cents > 0 && estimated_cost_usd_cents is Some ==> estimated_cost_usd_cents->0
            - price_cents >= i64::MIN,
    ensures
        r.1 == value_spec(price_cents, currency@, estimated_cost_usd_cents),
        r.0 == worth(r.1),
{
    let given = ascii_lowercase(currency);
    let usd = ascii_lowercase("USD");
    if !same_text(given.as_str(), usd.as_str()) || price_cents <= 0 {
        return (None, None);
    }
    match estimated_cost_usd_cents {
        Some(v) => (Some(v - price_cents), Some((v, price_cents))),
        None => (None, None),
    }
}

/// The span of a subscription's usage in a report, and whether its end belongs
/// to it.
pub open spec fn usage_span(s: Subscription, c: ReportContext) -> (Timestamp, Timestamp, bool) {
    let start = match c.since {
        Some(since) => if s.started_at.at() > since.at() {
            s.started_at
        } else {
            since
        },
        None => s.started_at,
    };
    match effective_end(s) {
        Some(e) => if e.at() <= c.until.at() {
            (start, e, false)
        } else {
            (start, c.until, true)
        },
        None => (start, c.until, true),
    }
}

/// The events, and their totals, of a subscription's account in its period.
pub open spec fn subscription_usage(s: Subscription, events: Seq<UsageEvent>, c: ReportContext) -> (
    u64,
    UsageTotals,
) {
    let span = usage_span(s, c);
    usage_between_spec(
        series_of(
            events,
            c.accounts,
            false,
            seq![s.provider@, s.provider_account_id.0@],
        ),
        span.0,
        span.1,
        span.2,
    )
}

pub open spec fn shown(s: Subscription, c: ReportContext) -> bool {
    meets_window(s.started_at, effective_end(s), c.since, c.until)
}

/// Whether a row shows the subscription.
pub open spec fn shows(row: SubscriptionReportRow, s: Subscription, events: Seq<UsageEvent>, c: ReportContext) -> bool {
    let u = subscription_usage(s, events, c);
    &&& row.subscription_id == s.subscription_id
    &&& row.provider@ == s.provider@
    &&& row.provider_account_id == s.provider_account_id
    &&& row.account@ == identity_label(Some(s.provider_account_id), c.accounts)
    &&& row.plan_name@ == s.plan_name@
    &&& row.price == s.price
    &&& row.currency@ == s.currency@
    &&& row.billing_period == s.billing_period
    &&& row.started_at == s.started_at
    &&& row.ended_at == effective_end(s)
    &&& row.status == s.status
    &&& row.events == u.0
    &&& row.usage == u.1
    &&& row.value_to_price == value_spec(s.price, s.currency@, u.1.estimated_cost_usd)
    &&& row.value_minus_price_usd == worth(row.value_to_price)
}

/// The subscriptions among the first `n` that the report shows.
pub open spec fn shown_subscriptions(subs: Seq<Subscription>, c: ReportContext, n: int) -> Seq<
    Subscription,
>
    decreases n,
{
    if n <= 0 {
        Seq::empty()
    } else {
        let before = shown_subscriptions(subs, c, n - 1);
        if shown(subs[n - 1], c) {
            before.push(subs[n - 1])
        } else {
            before
        }
    }
}

pub open spec fn show_all(
    rows: Seq<SubscriptionReportRow>,
    subs: Seq<Subscription>,
    events: Seq<UsageEvent>,
    c: ReportContext,
) -> bool {
    &&& rows.len() == subs.len()
    &&& forall|i: int| 0 <= i < rows.len() ==> shows(#[trigger] rows[i], subs[i], events, c)
}

/// Prices from which any value that totals can show may be subtracted.
pub const MAX_PRICE: i64 = 9_222_449_699_651_090_330;

pub open spec fn prices_fit(subs: Seq<Subscription>) -> bool {
    forall|i: int| 0 <= i < subs.len() ==> (#[trigger] subs[i]).price <= MAX_PRICE
}

proof fn lemma_prefix_cost(s: Seq<EventSample>, n: int)
    requires
        0 <= n <= u64::MAX,
    ensures
        prefix_of(s, n).usage.cost_wf(),
        prefix_of(s, n).events == n,
        prefix_of(s, n).estimated_cost_samples <= n,
        (prefix_of(s, n).estimated_cost_samples > 0) == (
        prefix_of(s, n).usage.estimated_cost_micro_usd is Some),
    decreases n,
{
    if n > 0 {
        lemma_prefix_cost(s, n - 1);
    }
}

proof fn lemma_count_range(s: Seq<EventSample>, t: Timestamp, included: bool, n: int)
    requires
        0 <= n,
    ensures
        0 <= count_upto(s, t, included, n) <= n,
    decreases n,
{
    if n > 0 {
        lemma_count_range(s, t, included, n - 1);
    }
}

/// A value that totals show is far from the smallest number.
pub proof fn lemma_value_bounded(
    s: Seq<EventSample>,
    start: Timestamp,
    end: Timestamp,
    included: bool,
)
    requires
        s.len() <= u64::MAX,
    ensures
        usage_between_spec(s, start, end, included).1.estimated_cost_usd matches Some(v) ==> v
            >= -922_337_203_685_478,
{
    let n = s.len() as int;
    lemma_count_range(s, start, false, n);
    lemma_count_range(s, end, included, n);
    lemma_prefix_cost(s, count_upto(s, start, false, n));
    lemma_prefix_cost(s, count_upto(s, end, included, n));
}

pub proof fn lemma_series_length(
    events: Seq<UsageEvent>,
    accounts: Seq<ProviderAccount>,
    by_label: bool,
    key: Seq<Seq<char>>,
    n: int,
)
    requires
        0 <= n,
    ensures
        series_samples(events, accounts, by_label, key, n).len() <= n,
    decreases n,
{
    if n > 0 {
        lemma_series_length(events, accounts, by_label, key, n - 1);
    }
}

impl Ranked for SubscriptionReportRow {
    /// By usage, the greatest first, then by start, then by plan.
    open spec fn goes_before(&self, other: &Self) -> bool {
        if self.usage.total_tokens != other.usage.total_tokens {
            self.usage.total_tokens > other.usage.total_tokens
        } else if self.started_at.at() != other.started_at.at() {
            self.started_at.at() < other.started_at.at()
        } else {
            text_lt(self.plan_name@, other.plan_name@)
        }
    }

    fn ranks_before(&self, other: &Self) -> (r: bool) {
        if self.usage.total_tokens != other.usage.total_tokens {
            self.usage.total_tokens > other.usage.total_tokens
        } else if self.started_at.before(&other.started_at) {
            true
        } else if other.started_at.before(&self.started_at) {
            false
        } else {
            less_text(self.plan_name.as_str(), other.plan_name.as_str())
        }
    }

    proof fn lemma_rank(&self, b: &Self, c: &Self) {
        lemma_text_rank(self.plan_name@, b.plan_name@, c.plan_name@);
    }
}

proof fn lemma_text_rank(a: Seq<char>, b: Seq<char>, c: Seq<char>)
    ensures
        !text_lt(a, a),
        text_lt(a, b) && text_lt(b, c) ==> text_lt(a, c),
        text_lt(a, c) ==> text_lt(a, b) || text_lt(b, c),
        text_lt(a, b) || a == b || text_lt(b, a),
        text_lt(b, c) || b == c || text_lt(c, b),
        text_lt(a, b) ==> !text_lt(b, a),
{
    lemma_text_lt_irreflexive(a);
    lemma_text_lt_total(a, b);
    lemma_text_lt_total(b, c);
    if text_lt(a, b) && text_lt(b, c) {
        lemma_text_lt_transitive(a, b, c);
    }
    if text_lt(b, a) && text_lt(a, c) {
        lemma_text_lt_transitive(b, a, c);
    }
    if text_lt(a, b) && text_lt(b, a) {
        lemma_text_lt_transitive(a, b, a);
    }
}

fn build_subscription_report_rows(
    subscriptions: &[Subscription],
    index: &[SeriesEntry],
    accounts: &[ProviderAccount],
    since: Option<Timestamp>,
    until: Timestamp,
    Ghost(events): Ghost<Seq<UsageEvent>>,
    Ghost(c): Ghost<ReportContext>,
) -> (r: Vec<SubscriptionReportRow>)
    requires
        index_right(index@, events, accounts@, false),
        c.accounts == accounts@,
        c.since == since,
        c.until == until,
        until.wf(),
        until.secs < MAX_SECONDS,
        prices_fit(subscriptions@),
        events.len() <= u64::MAX,
    ensures
        exists|rows: Seq<SubscriptionReportRow>|
            show_all(
                rows,
                shown_subscriptions(subscriptions@, c, subscriptions@.len() as int),
                events,
                c,
            ) && r@ == #[trigger] ranked(rows),
{
    let mut rows: Vec<SubscriptionReportRow> = Vec::new();
    let mut n: usize = 0;
    while n < subscriptions.len()
        invariant
            index_right(index@, events, accounts@, false),
            c.accounts == accounts@,
            c.since == since,
            c.until == until,
            until.wf(),
            until.secs < MAX_SECONDS,
            prices_fit(subscriptions@),
            events.len() <= u64::MAX,
            n <= subscriptions.len(),
            show_all(
                rows@,
                shown_subscriptions(subscriptions@, c, n as int),
                events,
                c,
            ),
        decreases subscriptions.len() - n,
    {
        let s = &subscriptions[n];
        let ended_at = effective_subscription_ended_at(s);
        if subscription_intersects_report_window(s.started_at, ended_at, since, until) {
            let range_start = match since {
                Some(t) => s.started_at.max(t),
                None => s.started_at,
            };
            let (range_end, end_inclusive) = match ended_at {
                Some(e) => if e.not_after(&until) {
                    (e, false)
                } else {
                    (until, true)
                },
                None => (until, true),
            };
            let (count, usage) = index_usage(
                index,
                s.provider.as_str(),
                s.provider_account_id.0.as_str(),
                range_start,
                range_end,
                end_inclusive,
                Ghost(events),
                Ghost(accounts@),
                Ghost(false),
            );
            let account = match account_by_id(accounts, s.provider_account_id.0.as_str()) {
                Some(a) => display_account_identity(a),
                None => s.provider_account_id.0.clone(),
            };
            proof {
                let key = seq![s.provider@, s.provider_account_id.0@];
                let samples = series_samples(events, accounts@, false, key, events.len() as int);
                lemma_series_length(events, accounts@, false, key, events.len() as int);
                ranking_keeps_every_record(samples);
                lemma_value_bounded(
                    series_of(events, accounts@, false, key),
                    range_start,
                    range_end,
                    end_inclusive,
                );
                assert(subscriptions@[n as int].price <= MAX_PRICE);
            }
            let (value_minus_price_usd, value_to_price) = subscription_value_metrics(
                s.price,
                s.currency.as_str(),
                usage.estimated_cost_usd,
            );
            let row = SubscriptionReportRow {
                subscription_id: s.subscription_id.clone(),
                provider: s.provider.clone(),
                provider_account_id: s.provider_account_id.clone(),
                account,
                plan_name: s.plan_name.clone(),
                price: s.price,
                currency: s.currency.clone(),
                billing_period: s.billing_period,
                started_at: s.started_at,
                ended_at,
                status: s.status,
                events: count,
                usage,
                value_minus_price_usd,
                value_to_price,
            };
            proof {
                assert(shows(row, *s, events, c));
            }
            rows.push(row);
        }
        n = n + 1;
    }
    let ghost all = rows@;
    let r = sort_ranked(rows);
    proof {
        assert(r@ == ranked(all));
    }
    r
}

// ---------------------------------------------------------------------------
// The report
// ---------------------------------------------------------------------------

impl Ranked for UsageReportRow {
    /// By usage, the greatest first, then by account.
    open spec fn goes_before(&self, other: &Self) -> bool {
        if self.usage.total_tokens != other.usage.total_tokens {
            self.usage.total_tokens > other.usage.total_tokens
        } else {
            text_lt(self.account@, other.account@)
        }
    }

    fn ranks_before(&self, other: &Self) -> (r: bool) {
        if self.usage.total_tokens != other.usage.total_tokens {
            self.usage.total_tokens > other.usage.total_tokens
        } else {
            less_text(self.account.as_str(), other.account.as_str())
        }
    }

    proof fn lemma_rank(&self, b: &Self, c: &Self) {
        lemma_text_rank(self.account@, b.account@, c.account@);
    }
}

impl Ranked for SummaryReportRow {
    /// By usage, the greatest first, then by account, then by kind.
    open spec fn goes_before(&self, other: &Self) -> bool {
        if self.usage.total_tokens != other.usage.total_tokens {
            self.usage.total_tokens > other.usage.total_tokens
        } else if self.account@ != other.account@ {
            text_lt(self.account@, other.account@)
        } else {
            text_lt(self.kind@, other.kind@)
        }
    }

    fn ranks_before(&self, other: &Self) -> (r: bool) {
        if self.usage.total_tokens != other.usage.total_tokens {
            self.usage.total_tokens > other.usage.total_tokens
        } else if !same_text(self.account.as_str(), other.account.as_str()) {
            less_text(self.account.as_str(), other.account.as_str())
        } else {
            less_text(self.kind.as_str(), other.kind.as_str())
        }
    }

    proof fn lemma_rank(&self, b: &Self, c: &Self) {
        lemma_text_rank(self.account@, b.account@, c.account@);
        lemma_text_rank(c.account@, self.account@, b.account@);
        lemma_text_rank(self.kind@, b.kind@, c.kind@);
    }
}

/// The totals of the first `n` rows together.
pub open spec fn rows_total(rows: Seq<UsageReportRow>, n: int) -> UsageTotals
    decreases n,
{
    if n <= 0 {
        UsageTotals::zero()
    } else {
        rows_total(rows, n - 1).plus_totals(rows[n - 1].usage)
    }
}

pub open spec fn summary_rows_total(rows: Seq<SummaryReportRow>, n: int) -> UsageTotals
    decreases n,
{
    if n <= 0 {
        UsageTotals::zero()
    } else {
        summary_rows_total(rows, n - 1).plus_totals(rows[n - 1].usage)
    }
}

/// How many of the first `n` events lie in the window.
pub open spec fn events_in_window(events: Seq<UsageEvent>, c: ReportContext, n: int) -> int
    decreases n,
{
    if n <= 0 {
        0
    } else {
        events_in_window(events, c, n - 1) + if in_window(events[n - 1], c) {
            1int
        } else {
            0int
        }
    }
}

pub open spec fn report_context(
    accounts: Seq<ProviderAccount>,
    sources: Seq<SourceLocation>,
    home: Option<Seq<char>>,
    period: ReportPeriod,
    now: Timestamp,
) -> ReportContext {
    ReportContext {
        accounts,
        sources,
        home,
        since: period.window_spec(now).0,
        until: period.window_spec(now).1,
    }
}

/// Whether `r` is the report. Rows stand by usage, the greatest first. Summaries
/// are reported over all time only.
pub open spec fn is_report(
    r: UsageReport,
    events: Seq<UsageEvent>,
    summaries: Seq<UsageSummary>,
    subs: Seq<Subscription>,
    c: ReportContext,
    period: ReportPeriod,
    now: Timestamp,
) -> bool {
    &&& r.label@ == period.label_spec(now)
    &&& (r.since, r.until) == period.published_spec(now)
    &&& exists|rows: Seq<UsageReportRow>|
        are_rows(rows, events, c, events.len() as int) && r.rows@ == #[trigger] ranked(rows)
    &&& r.total_events == events_in_window(events, c, events.len() as int)
    &&& r.total_usage == rows_total(r.rows@, r.rows@.len() as int)
    &&& if period is AllTime {
        exists|rows: Seq<SummaryReportRow>|
            are_summary_rows(rows, summaries, events, c, summaries.len() as int)
                && r.summary_rows@ == #[trigger] ranked(rows)
    } else {
        r.summary_rows@.len() == 0
    }
    &&& r.total_summary_usage == summary_rows_total(
        r.summary_rows@,
        r.summary_rows@.len() as int,
    )
    &&& exists|rows: Seq<SubscriptionReportRow>|
        show_all(rows, shown_subscriptions(subs, c, subs.len() as int), events, c)
            && r.subscription_rows@ == #[trigger] ranked(rows)
}

fn count_in_window(events: &[UsageEvent], since: Option<Timestamp>, until: Timestamp, Ghost(c): Ghost<
    ReportContext,
>) -> (r: u64)
    requires
        c.since == since,
        c.until == until,
    ensures
        r == events_in_window(events@, c, events@.len() as int),
{
    let mut count: u64 = 0;
    let mut n: usize = 0;
    while n < events.len()
        invariant
            c.since == since,
            c.until == until,
            n <= events.len(),
            count <= n,
            count == events_in_window(events@, c, n as int),
        decreases events.len() - n,
    {
        let at = events[n].session.started_at;
        let early = match since {
            Some(s) => at.before(&s),
            None => false,
        };
        if !early && !until.before(&at) {
            count = count + 1;
        }
        n = n + 1;
    }
    count
}

/// Builds the report of a period as seen from `now`. `home` is the home
/// directory, where there is one.
pub fn build_usage_report(
    events: &[UsageEvent],
    summaries: &[UsageSummary],
    sources: &[SourceLocation],
    accounts: &[ProviderAccount],
    subscriptions: &[Subscription],
    period: ReportPeriod,
    now: Timestamp,
    home: Option<&str>,
) -> (r: UsageReport)
    requires
        now.wf(),
        now.secs < MAX_SECONDS,
        period.wf(),
        period.fits(now),
        prices_fit(subscriptions@),
    ensures
        is_report(
            r,
            events@,
            summaries@,
            subscriptions@,
            report_context(accounts@, sources@, opt_str(home), period, now),
            period,
            now,
        ),
{
    let (since, until) = period.window(now);
    let (published_since, published_until) = period.published_window(now);
    let label = period.label(now);
    let ghost c = report_context(accounts@, sources@, opt_str(home), period, now);
    let total_events: u64 = count_in_window(events, since, until, Ghost(c));
    let event_count: usize = events.len();
    let by_label = event_usage_index(events, accounts, true);
    let by_id = event_usage_index(events, accounts, false);
    let rows = usage_rows(events, sources, accounts, home, since, until);
    let ghost raw_rows = rows@;
    let rows = sort_ranked(rows);
    let mut total_usage = UsageTotals::default();
    let mut i: usize = 0;
    while i < rows.len()
        invariant
            i <= rows.len(),
            total_usage == rows_total(rows@, i as int),
        decreases rows.len() - i,
    {
        total_usage.add_totals(&rows[i].usage);
        i = i + 1;
    }
    let all_time = match period {
        ReportPeriod::AllTime => true,
        _ => false,
    };
    let summary_rows = if all_time {
        summary_report_rows(
            summaries,
            &by_label,
            sources,
            accounts,
            home,
            since,
            until,
            Ghost(events@),
        )
    } else {
        Vec::new()
    };
    let ghost raw_summary_rows = summary_rows@;
    let summary_rows = sort_ranked(summary_rows);
    proof {
        ranking_keeps_every_record(raw_summary_rows);
    }
    let mut total_summary_usage = UsageTotals::default();
    let mut j: usize = 0;
    while j < summary_rows.len()
        invariant
            j <= summary_rows.len(),
            total_summary_usage == summary_rows_total(summary_rows@, j as int),
        decreases summary_rows.len() - j,
    {
        total_summary_usage.add_totals(&summary_rows[j].usage);
        j = j + 1;
    }
    proof {
        assert(events@.len() == event_count);
    }
    let subscription_rows = build_subscription_report_rows(
        subscriptions,
        &by_id,
        accounts,
        since,
        until,
        Ghost(events@),
        Ghost(c),
    );
    let r = UsageReport {
        label,
        since: published_since,
        until: published_until,
        rows,
        summary_rows,
        subscription_rows,
        total_events,
        total_usage,
        total_summary_usage,
    };
    proof {
        assert(are_rows(raw_rows, events@, c, events@.len() as int) && r.rows@ == ranked(raw_rows));
        if all_time {
            assert(are_summary_rows(
                raw_summary_rows,
                summaries@,
                events@,
                c,
                summaries@.len() as int,
            ) && r.summary_rows@ == ranked(raw_summary_rows));
        }
    }
    r
}

} // verus!
