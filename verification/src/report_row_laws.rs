//! What each row of a report says of the records.
use crate::ids::ProviderAccountId;
use crate::matching::chosen;
use crate::periods::{ReportPeriod, earlier};
use crate::records::{
    ProviderAccount, SourceLocation, Subscription, UsageCounts, UsageEvent, UsageSummary,
    account_name, effective_end,
};
use crate::report::{
    MAX_PRICE, ReportContext, SubscriptionReportRow, SummaryReportRow, UsageReport, UsageReportRow,
    are_rows, are_summary_rows, counts_in, direct_usage, event_key, identity_label, in_series,
    in_window, is_report, lemma_series_length, lemma_value_bounded, matches_direct, or_instant,
    prices_fit, report_context, row_events, row_right, row_source, row_usage, series_name,
    series_of, series_samples, show_all, shown, shown_subscriptions, shows, summary_counts,
    summary_key, summary_row_right, summary_sums, usage_span, value_spec, worth,
};
use crate::report_laws::{counted, within};
use crate::sorted::{
    Keyed, Ranked, has_key, key_lt, keys_increase, lemma_key_lt_irreflexive, lemma_rank_place,
    rank_place, ranked, ranking_keeps_every_record, ranking_puts_records_in_order,
};
use crate::text::{lowered, text_lt, texts};
use crate::time::{MAX_SECONDS, Timestamp, first_instant, last_instant};
use crate::usage::{EventSample, UsageTotals, in_time_order, usage_between_spec};
use crate::usage_laws::{
    a_computed_total_is_given_or_the_sum_of_the_parts, absolute_of, all_tokens, amount_or_nothing,
    cost_is_sum, counts_are_sums, event_cost, held, lemma_cost_step, lemma_counts_step,
    lemma_summed_natural, lemma_summed_push, lemma_summed_ranked, lemma_summed_same, lies_between,
    picked, sample_cost, summary_cost, summed, sums_fit, tokens,
    usage_between_adds_up_what_lies_between,
};
use vstd::prelude::*;

verus! {

// ---------------------------------------------------------------------------
// Usage by account
// ---------------------------------------------------------------------------

/// Whether an event counts in a row: it lies in the window, and is of the row's
/// provider and account.
pub open spec fn belongs_to(
    e: UsageEvent,
    row: UsageReportRow,
    accounts: Seq<ProviderAccount>,
    window: (Option<Timestamp>, Timestamp),
) -> bool {
    &&& within(e, window)
    &&& e.provider@ == row.provider@
    &&& identity_label(e.provider_account_id, accounts) == row.account@
}

proof fn lemma_row_sums(events: Seq<UsageEvent>, c: ReportContext, key: Seq<Seq<char>>, n: int)
    requires
        0 <= n <= events.len(),
    ensures
        counts_are_sums(
            row_usage(events, c, key, n),
            events.take(n),
            |e: UsageEvent| counts_in(e, c, key),
            |e: UsageEvent| e.usage,
        ),
        cost_is_sum(
            row_usage(events, c, key, n),
            events.take(n),
            |e: UsageEvent| counts_in(e, c, key),
            |e: UsageEvent| event_cost(e),
        ),
        row_events(events, c, key, n) == picked(
            events.take(n),
            |e: UsageEvent| counts_in(e, c, key),
        ),
    decreases n,
{
    let pick = |e: UsageEvent| counts_in(e, c, key);
    let usage = |e: UsageEvent| e.usage;
    let cost = |e: UsageEvent| event_cost(e);
    if n > 0 {
        lemma_row_sums(events, c, key, n - 1);
        let e = events[n - 1];
        let before = row_usage(events, c, key, n - 1);
        let s = events.take(n - 1);
        assert(events.take(n) =~= s.push(e));
        lemma_counts_step(before, s, e, pick, usage, e.cost.estimated_spec());
        lemma_cost_step(before, s, e, pick, cost, e.usage, e.cost.estimated_spec());
        lemma_summed_push(s, e, pick, |e: UsageEvent| 1int);
    } else {
        assert(events.take(0) =~= Seq::empty());
    }
}

pub proof fn lemma_ranked_contains<T: Ranked>(s: Seq<T>, k: int) -> (i: int)
    requires
        0 <= k < ranked(s).len(),
    ensures
        0 <= i < s.len(),
        s[i] == ranked(s)[k],
{
    ranking_keeps_every_record(s);
    s.to_multiset_ensures();
    ranked(s).to_multiset_ensures();
    let x = ranked(s)[k];
    assert(ranked(s).contains(x));
    assert(ranked(s).to_multiset().count(x) > 0);
    assert(s.contains(x));
    choose|i: int| 0 <= i < s.len() && s[i] == x
}

proof fn lemma_ranked_keeps<T: Ranked>(s: Seq<T>, i: int) -> (k: int)
    requires
        0 <= i < s.len(),
    ensures
        0 <= k < ranked(s).len(),
        s[i] == ranked(s)[k],
{
    ranking_keeps_every_record(s);
    s.to_multiset_ensures();
    ranked(s).to_multiset_ensures();
    let x = s[i];
    assert(s.contains(x));
    assert(s.to_multiset().count(x) > 0);
    assert(ranked(s).contains(x));
    choose|k: int| 0 <= k < ranked(s).len() && ranked(s)[k] == x
}

pub proof fn lemma_two_texts(a: Seq<char>, b: Seq<char>, c: Seq<char>, d: Seq<char>)
    ensures
        (seq![a, b] == seq![c, d]) == (a == c && b == d),
{
    if seq![a, b] == seq![c, d] {
        assert(seq![a, b][0] == seq![c, d][0]);
        assert(seq![a, b][1] == seq![c, d][1]);
    }
}

/// Each row's counts are the sums of the counts of the events that count in it,
/// its events are their number, and its cost is what they are estimated to have
/// cost.
pub proof fn a_row_is_the_sum_of_its_events(
    r: UsageReport,
    events: Seq<UsageEvent>,
    summaries: Seq<UsageSummary>,
    sources: Seq<SourceLocation>,
    accounts: Seq<ProviderAccount>,
    subs: Seq<Subscription>,
    period: ReportPeriod,
    now: Timestamp,
    home: Option<Seq<char>>,
    k: int,
)
    requires
        is_report(
            r,
            events,
            summaries,
            subs,
            report_context(accounts, sources, home, period, now),
            period,
            now,
        ),
        0 <= k < r.rows@.len(),
    ensures
        ({
            let row = r.rows@[k];
            let pick = |e: UsageEvent| belongs_to(e, row, accounts, period.window_spec(now));
            &&& row.events == picked(events, pick)
            &&& row.events > 0
            &&& counts_are_sums(row.usage, events, pick, |e: UsageEvent| e.usage)
            &&& cost_is_sum(row.usage, events, pick, |e: UsageEvent| event_cost(e))
        }),
{
    let c = report_context(accounts, sources, home, period, now);
    let rows = choose|rows: Seq<UsageReportRow>|
        are_rows(rows, events, c, events.len() as int) && r.rows@ == #[trigger] ranked(rows);
    let i = lemma_ranked_contains(rows, k);
    let row = r.rows@[k];
    assert(row_right(rows[i], events, c, events.len() as int));
    let key = row.key();
    let p = |e: UsageEvent| counts_in(e, c, key);
    let q = |e: UsageEvent| belongs_to(e, row, accounts, period.window_spec(now));
    lemma_row_sums(events, c, key, events.len() as int);
    assert(events.take(events.len() as int) =~= events);
    assert forall|e: UsageEvent| #[trigger] p(e) == q(e) by {
        lemma_two_texts(
            e.provider@,
            identity_label(e.provider_account_id, accounts),
            row.provider@,
            row.account@,
        );
    }
    lemma_same_picks(row.usage, events, p, q, |e: UsageEvent| e.usage, |e: UsageEvent| event_cost(e));
}

/// What is said of picked items holds of the same items picked in other words.
pub proof fn lemma_same_picks<T>(
    t: UsageTotals,
    s: Seq<T>,
    p: spec_fn(T) -> bool,
    q: spec_fn(T) -> bool,
    usage: spec_fn(T) -> UsageCounts,
    cost: spec_fn(T) -> Option<int>,
)
    requires
        forall|x: T| #[trigger] p(x) == q(x),
    ensures
        counts_are_sums(t, s, p, usage) ==> counts_are_sums(t, s, q, usage),
        cost_is_sum(t, s, p, cost) ==> cost_is_sum(t, s, q, cost),
        picked(s, p) == picked(s, q),
{
    let f1 = |x: T| tokens(usage(x).input_tokens);
    let f2 = |x: T| tokens(usage(x).cache_creation_tokens);
    let f3 = |x: T| tokens(usage(x).cache_read_tokens);
    let f4 = |x: T| tokens(usage(x).output_tokens);
    let f5 = |x: T| tokens(usage(x).reasoning_tokens);
    let f6 = |x: T| all_tokens(usage(x));
    let f7 = |x: T| absolute_of(cost(x));
    let f8 = |x: T| amount_or_nothing(cost(x));
    let one = |x: T| 1int;
    lemma_summed_same(s, p, q, f1, f1);
    lemma_summed_same(s, p, q, f2, f2);
    lemma_summed_same(s, p, q, f3, f3);
    lemma_summed_same(s, p, q, f4, f4);
    lemma_summed_same(s, p, q, f5, f5);
    lemma_summed_same(s, p, q, f6, f6);
    lemma_summed_same(s, p, q, f7, f7);
    lemma_summed_same(s, p, q, f8, f8);
    lemma_summed_same(s, p, q, one, one);
    lemma_summed_same(
        s,
        |x: T| p(x) && cost(x) is Some,
        |x: T| q(x) && cost(x) is Some,
        one,
        one,
    );
}

/// Every event of the period counts in exactly one row.
pub proof fn every_event_has_one_row(
    r: UsageReport,
    events: Seq<UsageEvent>,
    summaries: Seq<UsageSummary>,
    sources: Seq<SourceLocation>,
    accounts: Seq<ProviderAccount>,
    subs: Seq<Subscription>,
    period: ReportPeriod,
    now: Timestamp,
    home: Option<Seq<char>>,
    n: int,
)
    requires
        is_report(
            r,
            events,
            summaries,
            subs,
            report_context(accounts, sources, home, period, now),
            period,
            now,
        ),
        0 <= n < events.len(),
        within(events[n], period.window_spec(now)),
    ensures
        exists|k: int|
            0 <= k < r.rows@.len() && belongs_to(
                events[n],
                #[trigger] r.rows@[k],
                accounts,
                period.window_spec(now),
            ) && r.rows@[k].sources@.map_values(|t: String| t@).contains(events[n].source_id.0@),
        forall|j: int, k: int|
            0 <= j < k < r.rows@.len() ==> !((#[trigger] r.rows@[j]).provider@ == (
            #[trigger] r.rows@[k]).provider@ && r.rows@[j].account@ == r.rows@[k].account@),
{
    let c = report_context(accounts, sources, home, period, now);
    let rows = choose|rows: Seq<UsageReportRow>|
        are_rows(rows, events, c, events.len() as int) && r.rows@ == #[trigger] ranked(rows);
    let e = events[n];
    assert(in_window(e, c));
    assert(has_key(rows, event_key(e, c)));
    let i = choose|i: int| 0 <= i < rows.len() && (#[trigger] rows[i]).key() == event_key(e, c);
    let k = lemma_ranked_keeps(rows, i);
    let row = r.rows@[k];
    lemma_two_texts(
        row.provider@,
        row.account@,
        e.provider@,
        identity_label(e.provider_account_id, accounts),
    );
    assert(row_right(rows[i], events, c, events.len() as int));
    assert(counts_in(e, c, row.key()));
    assert(row_source(events, c, row.key(), events.len() as int, e.source_id.0@));
    assert(texts(row.sources@).contains(e.source_id.0@));
    assert(texts(row.sources@) =~= row.sources@.map_values(|t: String| t@));
    assert(belongs_to(e, r.rows@[k], accounts, period.window_spec(now)));
    lemma_ranked_apart(rows);
    assert forall|j: int, k: int| 0 <= j < k < r.rows@.len() implies !((
    #[trigger] r.rows@[j]).provider@ == (#[trigger] r.rows@[k]).provider@ && r.rows@[j].account@
        == r.rows@[k].account@) by {
        assert(ranked(rows)[j].key() != ranked(rows)[k].key());
    }
}

/// Rows with distinct keys keep them when they are put in order.
proof fn lemma_ranked_apart<T: Ranked + Keyed>(s: Seq<T>)
    requires
        keys_increase(s),
    ensures
        forall|j: int, k: int|
            0 <= j < k < ranked(s).len() ==> (#[trigger] ranked(s)[j]).key() != (
            #[trigger] ranked(s)[k]).key(),
    decreases s.len(),
{
    if s.len() > 0 {
        let w = s.drop_last();
        assert(keys_increase(w)) by {
            assert forall|i: int, j: int| 0 <= i < j < w.len() implies key_lt(
                (#[trigger] w[i]).key(),
                (#[trigger] w[j]).key(),
            ) by {
                assert(w[i] == s[i] && w[j] == s[j]);
            }
        }
        lemma_ranked_apart(w);
        let front = ranked(w);
        let x = s.last();
        lemma_rank_place(front, x);
        let p = rank_place(front, x);
        let all = ranked(s);
        assert forall|j: int| 0 <= j < front.len() implies (#[trigger] front[j]).key() != x.key() by {
            let i = lemma_ranked_contains(w, j);
            assert(w[i] == s[i]);
            assert(key_lt(s[i].key(), s[s.len() - 1].key()));
            lemma_key_lt_irreflexive(x.key());
        }
        assert forall|j: int, k: int| 0 <= j < k < all.len() implies (#[trigger] all[j]).key() != (
        #[trigger] all[k]).key() by {
            let a = if j < p {
                j
            } else {
                j - 1
            };
            let b = if k < p {
                k
            } else {
                k - 1
            };
            if j == p {
                assert(all[j] == x && all[k] == front[b]);
            } else if k == p {
                assert(all[k] == x && all[j] == front[a]);
            } else {
                assert(all[j] == front[a] && all[k] == front[b]);
            }
        }
    }
}

/// Rows stand by their tokens, the most first; rows with as many stand by the
/// account's name.
pub proof fn rows_stand_by_usage(
    r: UsageReport,
    events: Seq<UsageEvent>,
    summaries: Seq<UsageSummary>,
    subs: Seq<Subscription>,
    c: ReportContext,
    period: ReportPeriod,
    now: Timestamp,
)
    requires
        is_report(r, events, summaries, subs, c, period, now),
    ensures
        forall|j: int, k: int|
            0 <= j < k < r.rows@.len() ==> (#[trigger] r.rows@[j]).usage.total_tokens >= (
            #[trigger] r.rows@[k]).usage.total_tokens,
        forall|j: int, k: int|
            0 <= j < k < r.rows@.len() && (#[trigger] r.rows@[j]).usage.total_tokens == (
            #[trigger] r.rows@[k]).usage.total_tokens ==> !text_lt(
                r.rows@[k].account@,
                r.rows@[j].account@,
            ),
        forall|j: int, k: int|
            0 <= j < k < r.summary_rows@.len() ==> (
            #[trigger] r.summary_rows@[j]).usage.total_tokens >= (
            #[trigger] r.summary_rows@[k]).usage.total_tokens,
        forall|j: int, k: int|
            0 <= j < k < r.subscription_rows@.len() ==> (
            #[trigger] r.subscription_rows@[j]).usage.total_tokens >= (
            #[trigger] r.subscription_rows@[k]).usage.total_tokens,
        forall|j: int, k: int|
            0 <= j < k < r.subscription_rows@.len() && (
            #[trigger] r.subscription_rows@[j]).usage.total_tokens == (
            #[trigger] r.subscription_rows@[k]).usage.total_tokens
                ==> r.subscription_rows@[j].started_at.at()
                <= r.subscription_rows@[k].started_at.at(),
{
    let rows = choose|rows: Seq<UsageReportRow>|
        are_rows(rows, events, c, events.len() as int) && r.rows@ == #[trigger] ranked(rows);
    ranking_puts_records_in_order(rows);
    assert forall|j: int, k: int| 0 <= j < k < r.rows@.len() implies (
    #[trigger] r.rows@[j]).usage.total_tokens >= (#[trigger] r.rows@[k]).usage.total_tokens && (
    r.rows@[j].usage.total_tokens == r.rows@[k].usage.total_tokens ==> !text_lt(
        r.rows@[k].account@,
        r.rows@[j].account@,
    )) by {
        assert(!r.rows@[k].goes_before(&r.rows@[j]));
    }
    if period is AllTime {
        let summary_rows = choose|rows: Seq<SummaryReportRow>|
            are_summary_rows(rows, summaries, events, c, summaries.len() as int)
                && r.summary_rows@ == #[trigger] ranked(rows);
        ranking_puts_records_in_order(summary_rows);
        assert forall|j: int, k: int| 0 <= j < k < r.summary_rows@.len() implies (
        #[trigger] r.summary_rows@[j]).usage.total_tokens >= (
        #[trigger] r.summary_rows@[k]).usage.total_tokens by {
            assert(!r.summary_rows@[k].goes_before(&r.summary_rows@[j]));
        }
    }
    let shown_rows = choose|rows: Seq<SubscriptionReportRow>|
        show_all(rows, shown_subscriptions(subs, c, subs.len() as int), events, c)
            && r.subscription_rows@ == #[trigger] ranked(rows);
    ranking_puts_records_in_order(shown_rows);
    assert forall|j: int, k: int| 0 <= j < k < r.subscription_rows@.len() implies (
    #[trigger] r.subscription_rows@[j]).usage.total_tokens >= (
    #[trigger] r.subscription_rows@[k]).usage.total_tokens && (
    r.subscription_rows@[j].usage.total_tokens == r.subscription_rows@[k].usage.total_tokens
        ==> r.subscription_rows@[j].started_at.at() <= r.subscription_rows@[k].started_at.at()) by {
        assert(!r.subscription_rows@[k].goes_before(&r.subscription_rows@[j]));
    }
}

/// A known account is shown by its name, and an unknown one by its identifier;
/// usage without an account is unassigned. Of several accounts with one
/// identifier the last counts.
pub proof fn accounts_are_shown_by_name(
    accounts: Seq<ProviderAccount>,
    id: ProviderAccountId,
    i: int,
)
    ensures
        identity_label(None, accounts) == "unassigned"@,
        0 <= i < accounts.len() && accounts[i].provider_account_id.0@ == id.0@ && (forall|j: int|
            i < j < accounts.len() ==> (#[trigger] accounts[j]).provider_account_id.0@ != id.0@)
            ==> identity_label(Some(id), accounts) == account_name(accounts[i]),
        (forall|j: int|
            0 <= j < accounts.len() ==> (#[trigger] accounts[j]).provider_account_id.0@ != id.0@)
            ==> identity_label(Some(id), accounts) == id.0@,
    decreases accounts.len(),
{
    if accounts.len() > 0 {
        let w = accounts.drop_last();
        accounts_are_shown_by_name(w, id, i);
        assert(accounts.last() == accounts[accounts.len() - 1]);
        if forall|j: int|
            0 <= j < accounts.len() ==> (#[trigger] accounts[j]).provider_account_id.0@ != id.0@ {
            assert forall|j: int| 0 <= j < w.len() implies (
            #[trigger] w[j]).provider_account_id.0@ != id.0@ by {
                assert(w[j] == accounts[j]);
            }
        }
        if 0 <= i < accounts.len() - 1 && accounts[i].provider_account_id.0@ == id.0@ && (forall|
            j: int,
        |
            i < j < accounts.len() ==> (#[trigger] accounts[j]).provider_account_id.0@ != id.0@) {
            assert(w[i] == accounts[i]);
            assert forall|j: int| i < j < w.len() implies (
            #[trigger] w[j]).provider_account_id.0@ != id.0@ by {
                assert(w[j] == accounts[j]);
            }
            assert(accounts[accounts.len() - 1].provider_account_id.0@ != id.0@);
        }
    }
}

// ---------------------------------------------------------------------------
// What a subscription was worth
// ---------------------------------------------------------------------------

/// Whether a currency is the dollar, in any letter case.
pub open spec fn dollars(currency: Seq<char>) -> bool {
    lowered(currency) == seq!['u', 's', 'd']
}

/// What a subscription was worth beyond its price, added to the price, is what
/// its usage was worth; it is known exactly for a price in dollars above nothing
/// and a known value. The ratio shown is that of the two.
pub proof fn worth_and_price_make_up_the_value(
    price: i64,
    currency: Seq<char>,
    value: Option<i64>,
)
    requires
        price > 0 && value is Some ==> value->0 - price >= i64::MIN,
    ensures
        ({
            let pair = value_spec(price, currency, value);
            let known = dollars(currency) && price > 0 && value is Some;
            &&& worth(pair) is Some == known
            &&& pair is Some == known
            &&& known ==> worth(pair)->0 + price == value->0
            &&& known ==> pair == Some((value->0, price))
            &&& known && value->0 == price ==> worth(pair)->0 == 0
        }),
{
    reveal_strlit("USD");
    assert(lowered("USD"@) =~= seq!['u', 's', 'd']);
}

// ---------------------------------------------------------------------------
// Usage of an account over time
// ---------------------------------------------------------------------------

proof fn lemma_series_sum(
    events: Seq<UsageEvent>,
    accounts: Seq<ProviderAccount>,
    by_label: bool,
    key: Seq<Seq<char>>,
    n: int,
    pick: spec_fn(EventSample) -> bool,
    number: spec_fn(EventSample) -> int,
)
    requires
        0 <= n <= events.len(),
    ensures
        summed(series_samples(events, accounts, by_label, key, n), pick, number) == summed(
            events.take(n),
            |e: UsageEvent|
                in_series(e, accounts, by_label, key) && pick(EventSample::of_spec(e)),
            |e: UsageEvent| number(EventSample::of_spec(e)),
        ),
    decreases n,
{
    let p = |e: UsageEvent| in_series(e, accounts, by_label, key) && pick(EventSample::of_spec(e));
    let f = |e: UsageEvent| number(EventSample::of_spec(e));
    if n > 0 {
        lemma_series_sum(events, accounts, by_label, key, n - 1, pick, number);
        let e = events[n - 1];
        let before = series_samples(events, accounts, by_label, key, n - 1);
        assert(events.take(n) =~= events.take(n - 1).push(e));
        lemma_summed_push(events.take(n - 1), e, p, f);
        lemma_summed_push(before, EventSample::of_spec(e), pick, number);
    } else {
        assert(events.take(0) =~= Seq::empty());
    }
}

proof fn lemma_summed_subset<T>(s: Seq<T>, pick: spec_fn(T) -> bool, number: spec_fn(T) -> int)
    requires
        forall|x: T| #[trigger] number(x) >= 0,
    ensures
        summed(s, pick, number) <= summed(s, |x: T| true, number),
    decreases s.len(),
{
    if s.len() > 0 {
        lemma_summed_subset(s.drop_last(), pick, number);
    }
}

proof fn lemma_summed_member<T>(s: Seq<T>, number: spec_fn(T) -> int, i: int)
    requires
        0 <= i < s.len(),
        forall|x: T| #[trigger] number(x) >= 0,
    ensures
        number(s[i]) <= summed(s, |x: T| true, number),
    decreases s.len(),
{
    lemma_summed_natural(s.drop_last(), |x: T| true, number);
    if i < s.len() - 1 {
        lemma_summed_member(s.drop_last(), number, i);
        assert(s.drop_last()[i] == s[i]);
    }
}

/// A series' sum is the sum over the events of the key.
proof fn lemma_series_of_sum(
    events: Seq<UsageEvent>,
    accounts: Seq<ProviderAccount>,
    by_label: bool,
    key: Seq<Seq<char>>,
    pick: spec_fn(EventSample) -> bool,
    number: spec_fn(EventSample) -> int,
    chosen: spec_fn(UsageEvent) -> bool,
    counted: spec_fn(UsageEvent) -> int,
)
    requires
        forall|i: int|
            0 <= i < events.len() ==> chosen(#[trigger] events[i]) == (in_series(
                events[i],
                accounts,
                by_label,
                key,
            ) && pick(EventSample::of_spec(events[i]))),
        forall|i: int|
            0 <= i < events.len() ==> counted(#[trigger] events[i]) == number(
                EventSample::of_spec(events[i]),
            ),
    ensures
        summed(series_of(events, accounts, by_label, key), pick, number) == summed(
            events,
            chosen,
            counted,
        ),
{
    let n = events.len() as int;
    let samples = series_samples(events, accounts, by_label, key, n);
    lemma_summed_ranked(samples, pick, number);
    lemma_series_sum(events, accounts, by_label, key, n, pick, number);
    assert(events.take(n) =~= events);
    lemma_summed_same(
        events,
        |e: UsageEvent| in_series(e, accounts, by_label, key) && pick(EventSample::of_spec(e)),
        chosen,
        |e: UsageEvent| number(EventSample::of_spec(e)),
        counted,
    );
}

proof fn lemma_series_fits(
    events: Seq<UsageEvent>,
    accounts: Seq<ProviderAccount>,
    by_label: bool,
    key: Seq<Seq<char>>,
)
    requires
        sums_fit(events, |e: UsageEvent| e.usage, |e: UsageEvent| event_cost(e)),
    ensures
        sums_fit(
            series_of(events, accounts, by_label, key),
            |x: EventSample| x.usage,
            |x: EventSample| sample_cost(x),
        ),
        in_time_order(series_of(events, accounts, by_label, key)),
        forall|i: int|
            0 <= i < events.len() ==> sample_cost(EventSample::of_spec(#[trigger] events[i]))
                == event_cost(events[i]),
{
    let s = series_of(events, accounts, by_label, key);
    let samples = series_samples(events, accounts, by_label, key, events.len() as int);
    let usage = |e: UsageEvent| e.usage;
    let cost = |e: UsageEvent| event_cost(e);
    let f7 = |e: UsageEvent| absolute_of(cost(e));
    assert forall|i: int| 0 <= i < events.len() implies sample_cost(
        EventSample::of_spec(#[trigger] events[i]),
    ) == event_cost(events[i]) by {
        lemma_summed_member(events, f7, i);
    }
    ranking_puts_records_in_order(samples);
    ranking_keeps_every_record(samples);
    lemma_series_length(events, accounts, by_label, key, events.len() as int);
    assert(in_time_order(s)) by {
        assert forall|i: int, j: int| 0 <= i < j < s.len() implies (#[trigger] s[i]).at.at() <= (
        #[trigger] s[j]).at.at() by {
            assert(!s[j].goes_before(&s[i]));
        }
    }
    let all = |x: EventSample| true;
    let mine = |e: UsageEvent| in_series(e, accounts, by_label, key);
    let g1 = |e: UsageEvent| tokens(usage(e).input_tokens);
    let g2 = |e: UsageEvent| tokens(usage(e).cache_creation_tokens);
    let g3 = |e: UsageEvent| tokens(usage(e).cache_read_tokens);
    let g4 = |e: UsageEvent| tokens(usage(e).output_tokens);
    let g5 = |e: UsageEvent| tokens(usage(e).reasoning_tokens);
    let g6 = |e: UsageEvent| all_tokens(usage(e));
    let u = |x: EventSample| x.usage;
    let c = |x: EventSample| sample_cost(x);
    lemma_series_of_sum(events, accounts, by_label, key, all, |x: EventSample| tokens(u(x).input_tokens), mine, g1);
    lemma_series_of_sum(events, accounts, by_label, key, all, |x: EventSample| tokens(u(x).cache_creation_tokens), mine, g2);
    lemma_series_of_sum(events, accounts, by_label, key, all, |x: EventSample| tokens(u(x).cache_read_tokens), mine, g3);
    lemma_series_of_sum(events, accounts, by_label, key, all, |x: EventSample| tokens(u(x).output_tokens), mine, g4);
    lemma_series_of_sum(events, accounts, by_label, key, all, |x: EventSample| tokens(u(x).reasoning_tokens), mine, g5);
    lemma_series_of_sum(events, accounts, by_label, key, all, |x: EventSample| all_tokens(u(x)), mine, g6);
    lemma_series_of_sum(events, accounts, by_label, key, all, |x: EventSample| absolute_of(c(x)), mine, f7);
    lemma_summed_subset(events, mine, g1);
    lemma_summed_subset(events, mine, g2);
    lemma_summed_subset(events, mine, g3);
    lemma_summed_subset(events, mine, g4);
    lemma_summed_subset(events, mine, g5);
    lemma_summed_subset(events, mine, g6);
    lemma_summed_subset(events, mine, f7);
}

/// The usage of a key's series between two instants is that of the key's events
/// between them.
proof fn lemma_series_between(
    events: Seq<UsageEvent>,
    accounts: Seq<ProviderAccount>,
    by_label: bool,
    key: Seq<Seq<char>>,
    start: Timestamp,
    end: Timestamp,
    included: bool,
    chosen: spec_fn(UsageEvent) -> bool,
)
    requires
        sums_fit(events, |e: UsageEvent| e.usage, |e: UsageEvent| event_cost(e)),
        forall|i: int|
            0 <= i < events.len() ==> chosen(#[trigger] events[i]) == (in_series(
                events[i],
                accounts,
                by_label,
                key,
            ) && lies_between(events[i].session.started_at, start, end, included)),
    ensures
        ({
            let r = usage_between_spec(
                series_of(events, accounts, by_label, key),
                start,
                end,
                included,
            );
            &&& r.0 == picked(events, chosen)
            &&& counts_are_sums(r.1, events, chosen, |e: UsageEvent| e.usage)
            &&& cost_is_sum(r.1, events, chosen, |e: UsageEvent| event_cost(e))
        }),
{
    let s = series_of(events, accounts, by_label, key);
    lemma_series_fits(events, accounts, by_label, key);
    usage_between_adds_up_what_lies_between(s, start, end, included);
    let pick = |x: EventSample| lies_between(x.at, start, end, included);
    let usage = |e: UsageEvent| e.usage;
    let cost = |e: UsageEvent| event_cost(e);
    let u = |x: EventSample| x.usage;
    let c = |x: EventSample| sample_cost(x);
    lemma_series_of_sum(events, accounts, by_label, key, pick, |x: EventSample| tokens(u(x).input_tokens), chosen, |e: UsageEvent| tokens(usage(e).input_tokens));
    lemma_series_of_sum(events, accounts, by_label, key, pick, |x: EventSample| tokens(u(x).cache_creation_tokens), chosen, |e: UsageEvent| tokens(usage(e).cache_creation_tokens));
    lemma_series_of_sum(events, accounts, by_label, key, pick, |x: EventSample| tokens(u(x).cache_read_tokens), chosen, |e: UsageEvent| tokens(usage(e).cache_read_tokens));
    lemma_series_of_sum(events, accounts, by_label, key, pick, |x: EventSample| tokens(u(x).output_tokens), chosen, |e: UsageEvent| tokens(usage(e).output_tokens));
    lemma_series_of_sum(events, accounts, by_label, key, pick, |x: EventSample| tokens(u(x).reasoning_tokens), chosen, |e: UsageEvent| tokens(usage(e).reasoning_tokens));
    lemma_series_of_sum(events, accounts, by_label, key, pick, |x: EventSample| all_tokens(u(x)), chosen, |e: UsageEvent| all_tokens(usage(e)));
    lemma_series_of_sum(events, accounts, by_label, key, pick, |x: EventSample| absolute_of(c(x)), chosen, |e: UsageEvent| absolute_of(cost(e)));
    lemma_series_of_sum(events, accounts, by_label, key, pick, |x: EventSample| amount_or_nothing(c(x)), chosen, |e: UsageEvent| amount_or_nothing(cost(e)));
    lemma_series_of_sum(events, accounts, by_label, key, pick, |x: EventSample| 1int, chosen, |e: UsageEvent| 1int);
    lemma_series_of_sum(
        events,
        accounts,
        by_label,
        key,
        |x: EventSample| pick(x) && c(x) is Some,
        |x: EventSample| 1int,
        |e: UsageEvent| chosen(e) && cost(e) is Some,
        |e: UsageEvent| 1int,
    );
}

// ---------------------------------------------------------------------------
// Subscriptions
// ---------------------------------------------------------------------------

/// Whether an event is usage of a subscription within a window: of its account,
/// from its start on, before its end, and within the window.
pub open spec fn used_under(
    e: UsageEvent,
    s: Subscription,
    window: (Option<Timestamp>, Timestamp),
) -> bool {
    let at = e.session.started_at.at();
    &&& e.provider@ == s.provider@
    &&& match e.provider_account_id {
        Some(id) => id.0@ == s.provider_account_id.0@,
        None => false,
    }
    &&& s.started_at.at() <= at
    &&& effective_end(s) is Some ==> at < effective_end(s)->0.at()
    &&& window.0 is Some ==> window.0->0.at() <= at
    &&& at <= window.1.at()
}

/// Whether a row tells of a subscription: what it is, the usage under it, and
/// what that was worth beside its price.
pub open spec fn tells_of(
    row: SubscriptionReportRow,
    s: Subscription,
    events: Seq<UsageEvent>,
    accounts: Seq<ProviderAccount>,
    window: (Option<Timestamp>, Timestamp),
) -> bool {
    let used = |e: UsageEvent| used_under(e, s, window);
    let known = dollars(s.currency@) && s.price > 0 && row.usage.estimated_cost_usd is Some;
    &&& row.subscription_id == s.subscription_id
    &&& row.provider@ == s.provider@
    &&& row.provider_account_id == s.provider_account_id
    &&& row.account@ == identity_label(Some(s.provider_account_id), accounts)
    &&& row.plan_name@ == s.plan_name@
    &&& row.price == s.price
    &&& row.currency@ == s.currency@
    &&& row.billing_period == s.billing_period
    &&& row.started_at == s.started_at
    &&& row.ended_at == effective_end(s)
    &&& row.status == s.status
    &&& row.events == picked(events, used)
    &&& counts_are_sums(row.usage, events, used, |e: UsageEvent| e.usage)
    &&& cost_is_sum(row.usage, events, used, |e: UsageEvent| event_cost(e))
    &&& row.value_minus_price_usd is Some == known
    &&& known ==> row.value_minus_price_usd->0 + s.price == row.usage.estimated_cost_usd->0
    &&& known ==> row.value_to_price == Some((row.usage.estimated_cost_usd->0, s.price))
    &&& !known ==> row.value_to_price is None
}

proof fn lemma_shows_tells(
    row: SubscriptionReportRow,
    s: Subscription,
    events: Seq<UsageEvent>,
    c: ReportContext,
)
    requires
        shows(row, s, events, c),
        s.price <= MAX_PRICE,
        sums_fit(events, |e: UsageEvent| e.usage, |e: UsageEvent| event_cost(e)),
    ensures
        tells_of(row, s, events, c.accounts, (c.since, c.until)),
{
    let window = (c.since, c.until);
    let used = |e: UsageEvent| used_under(e, s, window);
    let key = seq![s.provider@, s.provider_account_id.0@];
    let span = usage_span(s, c);
    assert forall|i: int| 0 <= i < events.len() implies used(#[trigger] events[i]) == (in_series(
        events[i],
        c.accounts,
        false,
        key,
    ) && lies_between(events[i].session.started_at, span.0, span.1, span.2)) by {
        let e = events[i];
        match series_name(e, c.accounts, false) {
            Some(name) => {
                lemma_two_texts(s.provider@, s.provider_account_id.0@, e.provider@, name);
            },
            None => {},
        }
    }
    lemma_series_between(events, c.accounts, false, key, span.0, span.1, span.2, used);
    let samples = series_of(events, c.accounts, false, key);
    lemma_series_fits(events, c.accounts, false, key);
    lemma_value_bounded(samples, span.0, span.1, span.2);
    worth_and_price_make_up_the_value(s.price, s.currency@, row.usage.estimated_cost_usd);
}

/// Whether a subscription's period, up to its end, has an instant in common with
/// the window.
pub open spec fn runs_within(s: Subscription, window: (Option<Timestamp>, Timestamp)) -> bool {
    let from = match window.0 {
        Some(t) => t.at(),
        None => first_instant().at(),
    };
    &&& window.0 is Some ==> from <= window.1.at()
    &&& s.started_at.at() <= window.1.at()
    &&& match effective_end(s) {
        Some(end) => from < end.at(),
        None => from < last_instant().at(),
    }
}

proof fn lemma_shown(s: Subscription, c: ReportContext)
    ensures
        shown(s, c) == runs_within(s, (c.since, c.until)) || c.until.secs >= MAX_SECONDS,
{
}

proof fn lemma_shown_all(subs: Seq<Subscription>, c: ReportContext, n: int, i: int)
    requires
        0 <= n <= subs.len(),
    ensures
        0 <= i < shown_subscriptions(subs, c, n).len() ==> exists|j: int|
            0 <= j < n && shown(#[trigger] subs[j], c) && subs[j] == shown_subscriptions(
                subs,
                c,
                n,
            )[i],
        0 <= i < n && shown(subs[i], c) ==> shown_subscriptions(subs, c, n).contains(subs[i]),
    decreases n,
{
    if n > 0 {
        lemma_shown_all(subs, c, n - 1, i);
        let before = shown_subscriptions(subs, c, n - 1);
        let now = shown_subscriptions(subs, c, n);
        if 0 <= i < now.len() {
            if i < before.len() {
                assert(now[i] == before[i]);
                let j = choose|j: int|
                    0 <= j < n - 1 && shown(#[trigger] subs[j], c) && subs[j] == before[i];
                assert(shown(subs[j], c) && subs[j] == now[i]);
            } else {
                assert(subs[n - 1] == now[i]);
            }
        }
        if 0 <= i < n && shown(subs[i], c) {
            if i < n - 1 {
                let k = choose|k: int| 0 <= k < before.len() && before[k] == subs[i];
                assert(now[k] == subs[i]);
            } else {
                assert(now[now.len() - 1] == subs[i]);
            }
        }
    }
}

/// Each row of subscriptions tells of one whose period meets the window: its
/// usage is that of its account's events from its start to its end within the
/// window, and what it was worth is that usage's value less its price.
pub proof fn a_subscription_row_tells_of_its_usage(
    r: UsageReport,
    events: Seq<UsageEvent>,
    summaries: Seq<UsageSummary>,
    sources: Seq<SourceLocation>,
    accounts: Seq<ProviderAccount>,
    subs: Seq<Subscription>,
    period: ReportPeriod,
    now: Timestamp,
    home: Option<Seq<char>>,
    k: int,
)
    requires
        is_report(
            r,
            events,
            summaries,
            subs,
            report_context(accounts, sources, home, period, now),
            period,
            now,
        ),
        prices_fit(subs),
        period.window_spec(now).1.secs < MAX_SECONDS,
        sums_fit(events, |e: UsageEvent| e.usage, |e: UsageEvent| event_cost(e)),
        0 <= k < r.subscription_rows@.len(),
    ensures
        exists|i: int|
            0 <= i < subs.len() && runs_within(#[trigger] subs[i], period.window_spec(now))
                && tells_of(
                r.subscription_rows@[k],
                subs[i],
                events,
                accounts,
                period.window_spec(now),
            ),
{
    let c = report_context(accounts, sources, home, period, now);
    let list = shown_subscriptions(subs, c, subs.len() as int);
    let rows = choose|rows: Seq<SubscriptionReportRow>|
        show_all(rows, list, events, c) && r.subscription_rows@ == #[trigger] ranked(rows);
    let i = lemma_ranked_contains(rows, k);
    assert(shows(rows[i], list[i], events, c));
    lemma_shown_all(subs, c, subs.len() as int, i);
    let j = choose|j: int| 0 <= j < subs.len() && shown(#[trigger] subs[j], c) && subs[j] == list[i];
    assert(subs[j].price <= MAX_PRICE);
    lemma_shows_tells(rows[i], subs[j], events, c);
    lemma_shown(subs[j], c);
    assert(runs_within(subs[j], period.window_spec(now)));
}

/// Every subscription whose period meets the window has a row.
pub proof fn every_running_subscription_has_a_row(
    r: UsageReport,
    events: Seq<UsageEvent>,
    summaries: Seq<UsageSummary>,
    sources: Seq<SourceLocation>,
    accounts: Seq<ProviderAccount>,
    subs: Seq<Subscription>,
    period: ReportPeriod,
    now: Timestamp,
    home: Option<Seq<char>>,
    i: int,
)
    requires
        is_report(
            r,
            events,
            summaries,
            subs,
            report_context(accounts, sources, home, period, now),
            period,
            now,
        ),
        period.window_spec(now).1.secs < MAX_SECONDS,
        0 <= i < subs.len(),
        runs_within(subs[i], period.window_spec(now)),
    ensures
        exists|k: int|
            0 <= k < r.subscription_rows@.len() && (
            #[trigger] r.subscription_rows@[k]).subscription_id == subs[i].subscription_id,
        r.subscription_rows@.len() <= subs.len(),
{
    let c = report_context(accounts, sources, home, period, now);
    let list = shown_subscriptions(subs, c, subs.len() as int);
    let rows = choose|rows: Seq<SubscriptionReportRow>|
        show_all(rows, list, events, c) && r.subscription_rows@ == #[trigger] ranked(rows);
    lemma_shown(subs[i], c);
    lemma_shown_all(subs, c, subs.len() as int, i);
    let j = choose|j: int| 0 <= j < list.len() && list[j] == subs[i];
    assert(shows(rows[j], list[j], events, c));
    let k = lemma_ranked_keeps(rows, j);
    assert(r.subscription_rows@[k].subscription_id == subs[i].subscription_id);
    ranking_keeps_every_record(rows);
    lemma_shown_count(subs, c, subs.len() as int);
}

proof fn lemma_shown_count(subs: Seq<Subscription>, c: ReportContext, n: int)
    requires
        0 <= n <= subs.len(),
    ensures
        shown_subscriptions(subs, c, n).len() <= n,
    decreases n,
{
    if n > 0 {
        lemma_shown_count(subs, c, n - 1);
    }
}

// ---------------------------------------------------------------------------
// Summaries
// ---------------------------------------------------------------------------

/// Whether a summary counts in a row: observed by the end of the report, and of
/// the row's provider, account and kind.
pub open spec fn summarized_in(
    s: UsageSummary,
    row: SummaryReportRow,
    accounts: Seq<ProviderAccount>,
    until: Timestamp,
) -> bool {
    &&& s.observed_at.at() <= until.at()
    &&& s.provider@ == row.provider@
    &&& identity_label(s.provider_account_id, accounts) == row.account@
    &&& s.metadata.summary_format@ == row.kind@
}

/// Whether an event is among those that a summary covers: of its provider and
/// account, from the start to the end of its period, both counted in, and no
/// later than the report's end. A period that is not given is the instant at
/// which the summary was observed.
pub open spec fn covered_by(
    e: UsageEvent,
    s: UsageSummary,
    accounts: Seq<ProviderAccount>,
    until: Timestamp,
) -> bool {
    let at = e.session.started_at.at();
    let from = match s.period_start {
        Some(t) => t.at(),
        None => s.observed_at.at(),
    };
    let to = match s.period_end {
        Some(t) => t.at(),
        None => s.observed_at.at(),
    };
    &&& e.provider@ == s.provider@
    &&& identity_label(e.provider_account_id, accounts) == identity_label(
        s.provider_account_id,
        accounts,
    )
    &&& from <= at <= to
    &&& at <= until.at()
}

/// What the events that a summary covers add up to.
pub proof fn direct_usage_is_that_of_the_covered_events(
    s: UsageSummary,
    events: Seq<UsageEvent>,
    c: ReportContext,
)
    requires
        sums_fit(events, |e: UsageEvent| e.usage, |e: UsageEvent| event_cost(e)),
    ensures
        ({
            let covered = |e: UsageEvent| covered_by(e, s, c.accounts, c.until);
            let d = direct_usage(s, events, c);
            &&& counts_are_sums(d, events, covered, |e: UsageEvent| e.usage)
            &&& cost_is_sum(d, events, covered, |e: UsageEvent| event_cost(e))
        }),
{
    let covered = |e: UsageEvent| covered_by(e, s, c.accounts, c.until);
    let label = identity_label(s.provider_account_id, c.accounts);
    let key = seq![s.provider@, label];
    let start = or_instant(s.period_start, s.observed_at);
    let end = earlier(or_instant(s.period_end, s.observed_at), c.until);
    assert forall|i: int| 0 <= i < events.len() implies covered(#[trigger] events[i]) == (in_series(
        events[i],
        c.accounts,
        true,
        key,
    ) && lies_between(events[i].session.started_at, start, end, true)) by {
        let e = events[i];
        lemma_two_texts(
            s.provider@,
            label,
            e.provider@,
            identity_label(e.provider_account_id, c.accounts),
        );
    }
    lemma_series_between(events, c.accounts, true, key, start, end, true, covered);
}

/// A summary says what the events that it covers say exactly where all its
/// counts are theirs, the input with or without what was cached, and there is
/// anything to say.
pub proof fn a_summary_matches_events_with_its_counts(s: UsageSummary, d: UsageTotals)
    ensures
        matches_direct(s, d) == (all_tokens(s.usage) == d.total_tokens && d.total_tokens > 0
            && tokens(s.usage.output_tokens) == d.output_tokens && tokens(s.usage.reasoning_tokens)
            == d.reasoning_tokens && tokens(s.usage.cache_read_tokens) == d.cached_input_tokens
            && tokens(s.usage.cache_creation_tokens) == d.cache_creation_tokens && (tokens(
            s.usage.input_tokens,
        ) == d.input_tokens || tokens(s.usage.input_tokens) + d.cached_input_tokens
            == d.input_tokens || (tokens(s.usage.input_tokens) == 0 && d.input_tokens
            < d.cached_input_tokens))),
{
    a_computed_total_is_given_or_the_sum_of_the_parts(s.usage);
}

pub proof fn lemma_picks_some<T>(s: Seq<T>, pick: spec_fn(T) -> bool, i: int)
    requires
        0 <= i < s.len(),
        pick(s[i]),
    ensures
        picked(s, pick) > 0,
    decreases s.len(),
{
    lemma_summed_natural(s.drop_last(), pick, |x: T| 1int);
    if i < s.len() - 1 {
        assert(s.drop_last()[i] == s[i]);
        lemma_picks_some(s.drop_last(), pick, i);
    }
}

proof fn lemma_summary_row_sums(
    summaries: Seq<UsageSummary>,
    events: Seq<UsageEvent>,
    c: ReportContext,
    key: Seq<Seq<char>>,
    n: int,
)
    requires
        0 <= n <= summaries.len(),
    ensures
        ({
            let sums = summary_sums(summaries, events, c, key, n);
            let pick = |s: UsageSummary| summary_counts(s, c, key);
            let first = summaries.take(n);
            &&& sums.summaries == picked(first, pick)
            &&& counts_are_sums(sums.usage, first, pick, |s: UsageSummary| s.usage)
            &&& cost_is_sum(sums.usage, first, pick, |s: UsageSummary| summary_cost(s))
            &&& sums.exact == picked(
                first,
                |s: UsageSummary| pick(s) && matches_direct(s, direct_usage(s, events, c)),
            )
            &&& sums.direct.total_tokens == held(
                summed(
                    first,
                    pick,
                    |s: UsageSummary| direct_usage(s, events, c).total_tokens as int,
                ),
            )
            &&& sums.direct.input_tokens == held(
                summed(
                    first,
                    pick,
                    |s: UsageSummary| direct_usage(s, events, c).input_tokens as int,
                ),
            )
            &&& sums.direct.output_tokens == held(
                summed(
                    first,
                    pick,
                    |s: UsageSummary| direct_usage(s, events, c).output_tokens as int,
                ),
            )
            &&& sums.observed is Some == (picked(first, pick) > 0)
            &&& sums.observed is Some ==> forall|i: int|
                0 <= i < n && pick(#[trigger] summaries[i]) ==> summaries[i].observed_at.at()
                    <= sums.observed->0.at()
            &&& sums.observed is Some ==> exists|i: int|
                0 <= i < n && pick(#[trigger] summaries[i]) && summaries[i].observed_at
                    == sums.observed->0
        }),
    decreases n,
{
    let pick = |s: UsageSummary| summary_counts(s, c, key);
    let exact = |s: UsageSummary| pick(s) && matches_direct(s, direct_usage(s, events, c));
    let one = |s: UsageSummary| 1int;
    let total = |s: UsageSummary| direct_usage(s, events, c).total_tokens as int;
    let input = |s: UsageSummary| direct_usage(s, events, c).input_tokens as int;
    let output = |s: UsageSummary| direct_usage(s, events, c).output_tokens as int;
    if n > 0 {
        lemma_summary_row_sums(summaries, events, c, key, n - 1);
        let before = summary_sums(summaries, events, c, key, n - 1);
        let now = summary_sums(summaries, events, c, key, n);
        let s = summaries[n - 1];
        let front = summaries.take(n - 1);
        assert(summaries.take(n) =~= front.push(s));
        lemma_summed_push(front, s, pick, one);
        lemma_summed_push(front, s, exact, one);
        lemma_summed_push(front, s, pick, total);
        lemma_summed_push(front, s, pick, input);
        lemma_summed_push(front, s, pick, output);
        lemma_summed_natural(front, pick, one);
        lemma_summed_natural(front, pick, total);
        lemma_summed_natural(front, pick, input);
        lemma_summed_natural(front, pick, output);
        lemma_counts_step(
            before.usage,
            front,
            s,
            pick,
            |s: UsageSummary| s.usage,
            s.cost.effective_spec(),
        );
        lemma_cost_step(
            before.usage,
            front,
            s,
            pick,
            |s: UsageSummary| summary_cost(s),
            s.usage,
            s.cost.effective_spec(),
        );
        assert(counts_are_sums(now.usage, summaries.take(n), pick, |s: UsageSummary| s.usage));
        assert(cost_is_sum(now.usage, summaries.take(n), pick, |s: UsageSummary| summary_cost(s)));
        if now.observed is Some {
            assert forall|i: int| 0 <= i < n && pick(#[trigger] summaries[i]) implies summaries[i].observed_at.at()
                <= now.observed->0.at() by {
                if i < n - 1 {
                    lemma_picks_some(summaries.take(n - 1), pick, i);
                    assert(summaries[i].observed_at.at() <= before.observed->0.at());
                }
            }
            if pick(s) && now.observed->0 == s.observed_at {
                assert(pick(summaries[n - 1]) && summaries[n - 1].observed_at == now.observed->0);
            } else {
                assert(before.observed is Some && now.observed == before.observed);
                let i = choose|i: int|
                    0 <= i < n - 1 && pick(#[trigger] summaries[i]) && summaries[i].observed_at
                        == before.observed->0;
                assert(pick(summaries[i]) && summaries[i].observed_at == now.observed->0);
            }
        }
    } else {
        assert(summaries.take(0) =~= Seq::empty());
    }
}

pub proof fn lemma_three_texts(
    a: Seq<char>,
    b: Seq<char>,
    c: Seq<char>,
    d: Seq<char>,
    e: Seq<char>,
    f: Seq<char>,
)
    ensures
        (seq![a, b, c] == seq![d, e, f]) == (a == d && b == e && c == f),
{
    if seq![a, b, c] == seq![d, e, f] {
        assert(seq![a, b, c][0] == seq![d, e, f][0]);
        assert(seq![a, b, c][1] == seq![d, e, f][1]);
        assert(seq![a, b, c][2] == seq![d, e, f][2]);
    }
}

/// Each row of summaries is the sum of the summaries that count in it, was
/// observed when the last of them was, and says how many of them match the events
/// that they cover. Reports of less than all time have none.
pub proof fn a_summary_row_is_the_sum_of_its_summaries(
    r: UsageReport,
    events: Seq<UsageEvent>,
    summaries: Seq<UsageSummary>,
    sources: Seq<SourceLocation>,
    accounts: Seq<ProviderAccount>,
    subs: Seq<Subscription>,
    period: ReportPeriod,
    now: Timestamp,
    home: Option<Seq<char>>,
    k: int,
)
    requires
        is_report(
            r,
            events,
            summaries,
            subs,
            report_context(accounts, sources, home, period, now),
            period,
            now,
        ),
        0 <= k < r.summary_rows@.len(),
    ensures
        period is AllTime,
        ({
            let row = r.summary_rows@[k];
            let until = period.window_spec(now).1;
            let c = report_context(accounts, sources, home, period, now);
            let pick = |s: UsageSummary| summarized_in(s, row, accounts, until);
            &&& row.summaries == picked(summaries, pick)
            &&& row.summaries > 0
            &&& counts_are_sums(row.usage, summaries, pick, |s: UsageSummary| s.usage)
            &&& cost_is_sum(row.usage, summaries, pick, |s: UsageSummary| summary_cost(s))
            &&& row.exact_overlap_summaries == picked(
                summaries,
                |s: UsageSummary| pick(s) && matches_direct(s, direct_usage(s, events, c)),
            )
            &&& row.direct_event_usage.total_tokens == held(
                summed(
                    summaries,
                    pick,
                    |s: UsageSummary| direct_usage(s, events, c).total_tokens as int,
                ),
            )
            &&& row.direct_event_usage.input_tokens == held(
                summed(
                    summaries,
                    pick,
                    |s: UsageSummary| direct_usage(s, events, c).input_tokens as int,
                ),
            )
            &&& row.direct_event_usage.output_tokens == held(
                summed(
                    summaries,
                    pick,
                    |s: UsageSummary| direct_usage(s, events, c).output_tokens as int,
                ),
            )
            &&& row.observed_at is Some
            &&& forall|i: int|
                0 <= i < summaries.len() && pick(#[trigger] summaries[i])
                    ==> summaries[i].observed_at.at() <= row.observed_at->0.at()
            &&& exists|i: int|
                0 <= i < summaries.len() && pick(#[trigger] summaries[i])
                    && summaries[i].observed_at == row.observed_at->0
        }),
{
    let c = report_context(accounts, sources, home, period, now);
    let n = summaries.len() as int;
    let rows = choose|rows: Seq<SummaryReportRow>|
        are_summary_rows(rows, summaries, events, c, n) && r.summary_rows@ == #[trigger] ranked(rows);
    let i = lemma_ranked_contains(rows, k);
    let row = r.summary_rows@[k];
    assert(summary_row_right(rows[i], summaries, events, c, n));
    let key = row.key();
    let until = period.window_spec(now).1;
    let p = |s: UsageSummary| summary_counts(s, c, key);
    let q = |s: UsageSummary| summarized_in(s, row, accounts, until);
    lemma_summary_row_sums(summaries, events, c, key, n);
    assert(summaries.take(n) =~= summaries);
    assert forall|s: UsageSummary| #[trigger] p(s) == q(s) by {
        lemma_three_texts(
            s.provider@,
            identity_label(s.provider_account_id, accounts),
            s.metadata.summary_format@,
            row.provider@,
            row.account@,
            row.kind@,
        );
    }
    lemma_same_picks(
        row.usage,
        summaries,
        p,
        q,
        |s: UsageSummary| s.usage,
        |s: UsageSummary| summary_cost(s),
    );
    let one = |s: UsageSummary| 1int;
    let total = |s: UsageSummary| direct_usage(s, events, c).total_tokens as int;
    let input = |s: UsageSummary| direct_usage(s, events, c).input_tokens as int;
    let output = |s: UsageSummary| direct_usage(s, events, c).output_tokens as int;
    lemma_summed_same(summaries, p, q, total, total);
    lemma_summed_same(summaries, p, q, input, input);
    lemma_summed_same(summaries, p, q, output, output);
    lemma_summed_same(
        summaries,
        |s: UsageSummary| p(s) && matches_direct(s, direct_usage(s, events, c)),
        |s: UsageSummary| q(s) && matches_direct(s, direct_usage(s, events, c)),
        one,
        one,
    );
    let j = choose|j: int|
        0 <= j < n && p(#[trigger] summaries[j]) && summaries[j].observed_at == row.observed_at->0;
    assert(q(summaries[j]));
    assert forall|j: int| 0 <= j < n && q(#[trigger] summaries[j]) implies summaries[j].observed_at.at()
        <= row.observed_at->0.at() by {
        assert(p(summaries[j]));
    }
}

/// In a report of all time every summary observed by its end has a row.
pub proof fn every_summary_has_a_row(
    r: UsageReport,
    events: Seq<UsageEvent>,
    summaries: Seq<UsageSummary>,
    sources: Seq<SourceLocation>,
    accounts: Seq<ProviderAccount>,
    subs: Seq<Subscription>,
    period: ReportPeriod,
    now: Timestamp,
    home: Option<Seq<char>>,
    n: int,
)
    requires
        is_report(
            r,
            events,
            summaries,
            subs,
            report_context(accounts, sources, home, period, now),
            period,
            now,
        ),
        period is AllTime,
        0 <= n < summaries.len(),
        summaries[n].observed_at.at() <= now.at(),
    ensures
        exists|k: int|
            0 <= k < r.summary_rows@.len() && summarized_in(
                summaries[n],
                #[trigger] r.summary_rows@[k],
                accounts,
                now,
            ),
{
    let c = report_context(accounts, sources, home, period, now);
    let s = summaries[n];
    let rows = choose|rows: Seq<SummaryReportRow>|
        are_summary_rows(rows, summaries, events, c, summaries.len() as int) && r.summary_rows@
            == #[trigger] ranked(rows);
    assert(has_key(rows, summary_key(s, c)));
    let i = choose|i: int| 0 <= i < rows.len() && (#[trigger] rows[i]).key() == summary_key(s, c);
    let k = lemma_ranked_keeps(rows, i);
    let row = r.summary_rows@[k];
    lemma_three_texts(
        row.provider@,
        row.account@,
        row.kind@,
        s.provider@,
        identity_label(s.provider_account_id, accounts),
        s.metadata.summary_format@,
    );
    assert(summarized_in(s, row, accounts, now));
}

} // verus!
