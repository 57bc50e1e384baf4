//! What holds of every report.
use crate::periods::ReportPeriod;
use crate::records::{ProviderAccount, SourceLocation, Subscription, UsageEvent, UsageSummary};
use crate::report::{
    ReportContext, UsageReport, UsageReportRow, are_rows, event_key, events_in_window, in_window,
    is_report, report_context, row_events, row_right, rows_total,
};
use crate::sorted::{
    Keyed, has_key, key_lt, keys_increase, lemma_key_lt_irreflexive, lemma_rank_place, rank_place,
    ranked,
};
use crate::time::Timestamp;
use crate::usage::UsageTotals;
use vstd::prelude::*;

verus! {

/// The rows' events, added up.
pub open spec fn sum_of_events(rows: Seq<UsageReportRow>) -> int
    decreases rows.len(),
{
    if rows.len() == 0 {
        0
    } else {
        sum_of_events(rows.drop_last()) + rows.last().events
    }
}

proof fn lemma_sum_insert(rows: Seq<UsageReportRow>, place: int, row: UsageReportRow)
    requires
        0 <= place <= rows.len(),
    ensures
        sum_of_events(rows.insert(place, row)) == sum_of_events(rows) + row.events,
    decreases rows.len(),
{
    let w = rows.insert(place, row);
    if place == rows.len() {
        assert(w.drop_last() =~= rows);
    } else {
        lemma_sum_insert(rows.drop_last(), place, row);
        assert(w.drop_last() =~= rows.drop_last().insert(place, row));
        assert(w.last() == rows.last());
    }
}

proof fn lemma_sum_ranked(rows: Seq<UsageReportRow>)
    ensures
        sum_of_events(ranked(rows)) == sum_of_events(rows),
    decreases rows.len(),
{
    if rows.len() > 0 {
        let front = ranked(rows.drop_last());
        lemma_sum_ranked(rows.drop_last());
        lemma_rank_place(front, rows.last());
        lemma_sum_insert(front, rank_place(front, rows.last()), rows.last());
    }
}

/// How many of the first `n` events count in the first `k` rows.
pub open spec fn counted(
    rows: Seq<UsageReportRow>,
    events: Seq<UsageEvent>,
    c: ReportContext,
    k: int,
    n: int,
) -> int
    decreases k,
{
    if k <= 0 {
        0
    } else {
        counted(rows, events, c, k - 1, n) + row_events(events, c, rows[k - 1].key(), n)
    }
}

proof fn lemma_counted_none(rows: Seq<UsageReportRow>, events: Seq<UsageEvent>, c: ReportContext, k: int)
    ensures
        counted(rows, events, c, k, 0) == 0,
    decreases k,
{
    if k > 0 {
        lemma_counted_none(rows, events, c, k - 1);
    }
}

/// Whether one of the first `k` rows has the key.
pub open spec fn keyed_upto(rows: Seq<UsageReportRow>, key: Seq<Seq<char>>, k: int) -> bool {
    exists|i: int| 0 <= i < k && (#[trigger] rows[i]).key() == key
}

proof fn lemma_counted_step(
    rows: Seq<UsageReportRow>,
    events: Seq<UsageEvent>,
    c: ReportContext,
    k: int,
    n: int,
)
    requires
        0 <= k <= rows.len(),
        0 < n <= events.len(),
        keys_increase(rows),
    ensures
        counted(rows, events, c, k, n) == counted(rows, events, c, k, n - 1) + (if in_window(
            events[n - 1],
            c,
        ) && keyed_upto(rows, event_key(events[n - 1], c), k) {
            1int
        } else {
            0int
        }),
    decreases k,
{
    if k > 0 {
        lemma_counted_step(rows, events, c, k - 1, n);
        let e = events[n - 1];
        let key = event_key(e, c);
        if rows[k - 1].key() == key {
            assert(keyed_upto(rows, key, k));
            if keyed_upto(rows, key, k - 1) {
                let i = choose|i: int| 0 <= i < k - 1 && (#[trigger] rows[i]).key() == key;
                assert(key_lt(rows[i].key(), rows[k - 1].key()));
                lemma_key_lt_irreflexive(key);
            }
        } else {
            if keyed_upto(rows, key, k) {
                let i = choose|i: int| 0 <= i < k && (#[trigger] rows[i]).key() == key;
                assert(i < k - 1);
                assert(keyed_upto(rows, key, k - 1));
            }
            if keyed_upto(rows, key, k - 1) {
                let i = choose|i: int| 0 <= i < k - 1 && (#[trigger] rows[i]).key() == key;
                assert(0 <= i < k && rows[i].key() == key);
            }
        }
    }
}

proof fn lemma_counted_all(
    rows: Seq<UsageReportRow>,
    events: Seq<UsageEvent>,
    c: ReportContext,
    n: int,
)
    requires
        0 <= n <= events.len(),
        are_rows(rows, events, c, events.len() as int),
    ensures
        counted(rows, events, c, rows.len() as int, n) == events_in_window(events, c, n),
    decreases n,
{
    let k = rows.len() as int;
    if n == 0 {
        lemma_counted_none(rows, events, c, k);
    } else {
        lemma_counted_all(rows, events, c, n - 1);
        lemma_counted_step(rows, events, c, k, n);
        let e = events[n - 1];
        if in_window(e, c) {
            assert(has_key(rows, event_key(e, c)));
            let i = choose|i: int|
                0 <= i < rows.len() && (#[trigger] rows[i]).key() == event_key(e, c);
            assert(keyed_upto(rows, event_key(e, c), k));
        }
    }
}

proof fn lemma_counted_is_sum(
    rows: Seq<UsageReportRow>,
    events: Seq<UsageEvent>,
    c: ReportContext,
    k: int,
)
    requires
        0 <= k <= rows.len(),
        are_rows(rows, events, c, events.len() as int),
    ensures
        counted(rows, events, c, k, events.len() as int) == sum_of_events(rows.take(k)),
    decreases k,
{
    if k > 0 {
        lemma_counted_is_sum(rows, events, c, k - 1);
        assert(rows.take(k).drop_last() =~= rows.take(k - 1));
        assert(rows.take(k).last() == rows[k - 1]);
        assert(row_right(rows[k - 1], events, c, events.len() as int));
    }
}

/// Every event of the period counts in exactly one row: the rows' events add up
/// to the report's.
pub proof fn rows_add_up_to_the_total(
    r: UsageReport,
    events: Seq<UsageEvent>,
    summaries: Seq<UsageSummary>,
    subs: Seq<Subscription>,
    c: ReportContext,
    period: ReportPeriod,
    now: Timestamp,
)
    requires
        is_report(r, events, summaries, subs, c, period, now),
    ensures
        sum_of_events(r.rows@) == r.total_events,
{
    let rows = choose|rows: Seq<UsageReportRow>|
        are_rows(rows, events, c, events.len() as int) && r.rows@ == #[trigger] ranked(rows);
    lemma_sum_ranked(rows);
    lemma_counted_all(rows, events, c, events.len() as int);
    lemma_counted_is_sum(rows, events, c, rows.len() as int);
    assert(rows.take(rows.len() as int) =~= rows);
}

/// One of a row's counts of tokens, added up over the first `n` rows without a limit.
pub open spec fn sum_over(rows: Seq<UsageReportRow>, f: spec_fn(UsageTotals) -> u64, n: int) -> int
    decreases n,
{
    if n <= 0 {
        0
    } else {
        sum_over(rows, f, n - 1) + f(rows[n - 1].usage)
    }
}

/// The largest count that can be kept, where the sum lies above it.
pub open spec fn at_most_max(n: int) -> int {
    if n > u64::MAX {
        u64::MAX as int
    } else {
        n
    }
}

/// Whether each count of `t` is the sum of the first `n` rows' counts.
pub open spec fn adds_up(t: UsageTotals, rows: Seq<UsageReportRow>, n: int) -> bool {
    &&& t.input_tokens == at_most_max(sum_over(rows, |u: UsageTotals| u.input_tokens, n))
    &&& t.cache_creation_tokens == at_most_max(
        sum_over(rows, |u: UsageTotals| u.cache_creation_tokens, n),
    )
    &&& t.cached_input_tokens == at_most_max(
        sum_over(rows, |u: UsageTotals| u.cached_input_tokens, n),
    )
    &&& t.output_tokens == at_most_max(sum_over(rows, |u: UsageTotals| u.output_tokens, n))
    &&& t.reasoning_tokens == at_most_max(sum_over(rows, |u: UsageTotals| u.reasoning_tokens, n))
    &&& t.total_tokens == at_most_max(sum_over(rows, |u: UsageTotals| u.total_tokens, n))
}

proof fn lemma_sum_over_natural(rows: Seq<UsageReportRow>, f: spec_fn(UsageTotals) -> u64, n: int)
    ensures
        sum_over(rows, f, n) >= 0,
    decreases n,
{
    if n > 0 {
        lemma_sum_over_natural(rows, f, n - 1);
    }
}

proof fn lemma_rows_total_adds_up(rows: Seq<UsageReportRow>, n: int)
    ensures
        adds_up(rows_total(rows, n), rows, n),
    decreases n,
{
    if n > 0 {
        lemma_rows_total_adds_up(rows, n - 1);
        lemma_sum_over_natural(rows, |u: UsageTotals| u.input_tokens, n - 1);
        lemma_sum_over_natural(rows, |u: UsageTotals| u.cache_creation_tokens, n - 1);
        lemma_sum_over_natural(rows, |u: UsageTotals| u.cached_input_tokens, n - 1);
        lemma_sum_over_natural(rows, |u: UsageTotals| u.output_tokens, n - 1);
        lemma_sum_over_natural(rows, |u: UsageTotals| u.reasoning_tokens, n - 1);
        lemma_sum_over_natural(rows, |u: UsageTotals| u.total_tokens, n - 1);
    }
}

/// Whether an event lies in the period; both ends of its window belong to it.
pub open spec fn within(e: UsageEvent, window: (Option<Timestamp>, Timestamp)) -> bool {
    &&& window.0 is None || window.0->Some_0.at() <= e.session.started_at.at()
    &&& e.session.started_at.at() <= window.1.at()
}

proof fn lemma_events_in_window(events: Seq<UsageEvent>, c: ReportContext, n: int)
    requires
        0 <= n <= events.len(),
    ensures
        events_in_window(events, c, n) == events.take(n).filter(
            |e: UsageEvent| within(e, (c.since, c.until)),
        ).len(),
    decreases n,
{
    reveal(Seq::filter);
    if n > 0 {
        lemma_events_in_window(events, c, n - 1);
        assert(events.take(n).drop_last() =~= events.take(n - 1));
    }
}

/// What a report adds up to: its events are those of the period's window, both
/// ends counted in, and the rows' events together; each of its six counts of
/// tokens is the sum of the rows' counts, or the largest count where the sum
/// lies above it.
pub proof fn totals_are_the_sums_of_the_rows(
    r: UsageReport,
    events: Seq<UsageEvent>,
    summaries: Seq<UsageSummary>,
    sources: Seq<SourceLocation>,
    accounts: Seq<ProviderAccount>,
    subs: Seq<Subscription>,
    period: ReportPeriod,
    now: Timestamp,
    home: Option<Seq<char>>,
)
    requires
        is_report(
            r,
            events,
            summaries,
            subs,
            report_context(accounts, sources, home, period, now),
            period,
            now,
        ),
    ensures
        r.total_events == events.filter(
            |e: UsageEvent| within(e, period.window_spec(now)),
        ).len(),
        r.total_events == sum_of_events(r.rows@),
        adds_up(r.total_usage, r.rows@, r.rows@.len() as int),
{
    let c = report_context(accounts, sources, home, period, now);
    rows_add_up_to_the_total(r, events, summaries, subs, c, period, now);
    lemma_rows_total_adds_up(r.rows@, r.rows@.len() as int);
    lemma_events_in_window(events, c, events.len() as int);
    assert(events.take(events.len() as int) =~= events);
}

} // verus!
