//! What the totals of a report and its tables add up.
use crate::quota::QuotaUsageSliceV1;
use crate::records::UsageCounts;
use crate::render::{
    count_sum, direct_of, direct_sum, grouped, known_table, report_providers, reported_of,
    without_repeats,
};
use crate::report::{SummaryReportRow, UsageReport, UsageReportRow, rows_total, summary_rows_total};
use crate::sorted::{sorted_texts, sorting_texts_orders_them, texts_increase};
use crate::text::{lemma_text_lt_total, lemma_text_lt_transitive, text_lt};
use crate::usage::UsageTotals;
use crate::usage_laws::{
    all_tokens, costs_are_rounded_to_the_nearest_cent, held, lemma_summed_natural,
    lemma_summed_push, nearest_cents, summed, tokens,
};
use vstd::prelude::*;

verus! {

/// Totals together have the counts of both, each in its own column, and the cost of
/// both. A cost that only one of them knows is the cost.
pub proof fn totals_together_have_the_counts_of_both(a: UsageTotals, b: UsageTotals)
    ensures
        ({
            let t = a.plus_totals(b);
            &&& t.input_tokens == held(a.input_tokens + b.input_tokens)
            &&& t.cache_creation_tokens == held(a.cache_creation_tokens + b.cache_creation_tokens)
            &&& t.cached_input_tokens == held(a.cached_input_tokens + b.cached_input_tokens)
            &&& t.output_tokens == held(a.output_tokens + b.output_tokens)
            &&& t.reasoning_tokens == held(a.reasoning_tokens + b.reasoning_tokens)
            &&& t.total_tokens == held(a.total_tokens + b.total_tokens)
            &&& match (a.estimated_cost_micro_usd, b.estimated_cost_micro_usd) {
                (Some(x), Some(y)) => -0x8000_0000_0000_0000 <= x + y <= 0x7FFF_FFFF_FFFF_FFFF
                    ==> t.estimated_cost_micro_usd is Some && t.estimated_cost_micro_usd->0 == x + y,
                (Some(x), None) => b.estimated_cost_usd is None ==> t.estimated_cost_micro_usd
                    == Some(x),
                (None, Some(y)) => a.estimated_cost_usd is None ==> t.estimated_cost_micro_usd
                    == Some(y),
                (None, None) => a.estimated_cost_usd is None && b.estimated_cost_usd is None
                    ==> t.estimated_cost_micro_usd is None && t.estimated_cost_usd is None,
            }
            &&& t.estimated_cost_micro_usd is Some ==> t.estimated_cost_usd is Some && nearest_cents(
                t.estimated_cost_usd->0 as int,
                t.estimated_cost_micro_usd->0 as int,
            )
        }),
{
    let t = a.plus_totals(b);
    if t.estimated_cost_micro_usd is Some {
        costs_are_rounded_to_the_nearest_cent(t.estimated_cost_micro_usd->0);
    }
}

/// Whether the counts of a total are the sums over the picked rows.
pub open spec fn rows_are_summed<T>(
    t: UsageTotals,
    rows: Seq<T>,
    pick: spec_fn(T) -> bool,
    usage: spec_fn(T) -> UsageTotals,
) -> bool {
    &&& t.input_tokens == held(summed(rows, pick, |r: T| usage(r).input_tokens as int))
    &&& t.cache_creation_tokens == held(
        summed(rows, pick, |r: T| usage(r).cache_creation_tokens as int),
    )
    &&& t.cached_input_tokens == held(
        summed(rows, pick, |r: T| usage(r).cached_input_tokens as int),
    )
    &&& t.output_tokens == held(summed(rows, pick, |r: T| usage(r).output_tokens as int))
    &&& t.reasoning_tokens == held(summed(rows, pick, |r: T| usage(r).reasoning_tokens as int))
    &&& t.total_tokens == held(summed(rows, pick, |r: T| usage(r).total_tokens as int))
}

proof fn lemma_rows_step<T>(
    t: UsageTotals,
    rows: Seq<T>,
    x: T,
    pick: spec_fn(T) -> bool,
    usage: spec_fn(T) -> UsageTotals,
)
    requires
        rows_are_summed(t, rows, pick, usage),
    ensures
        rows_are_summed(
            if pick(x) {
                t.plus_totals(usage(x))
            } else {
                t
            },
            rows.push(x),
            pick,
            usage,
        ),
{
    let f1 = |r: T| usage(r).input_tokens as int;
    let f2 = |r: T| usage(r).cache_creation_tokens as int;
    let f3 = |r: T| usage(r).cached_input_tokens as int;
    let f4 = |r: T| usage(r).output_tokens as int;
    let f5 = |r: T| usage(r).reasoning_tokens as int;
    let f6 = |r: T| usage(r).total_tokens as int;
    lemma_summed_push(rows, x, pick, f1);
    lemma_summed_push(rows, x, pick, f2);
    lemma_summed_push(rows, x, pick, f3);
    lemma_summed_push(rows, x, pick, f4);
    lemma_summed_push(rows, x, pick, f5);
    lemma_summed_push(rows, x, pick, f6);
    lemma_summed_natural(rows, pick, f1);
    lemma_summed_natural(rows, pick, f2);
    lemma_summed_natural(rows, pick, f3);
    lemma_summed_natural(rows, pick, f4);
    lemma_summed_natural(rows, pick, f5);
    lemma_summed_natural(rows, pick, f6);
    totals_together_have_the_counts_of_both(t, usage(x));
}

/// A report's totals are the sums over its rows.
pub proof fn totals_are_the_sums_of_the_rows(
    rows: Seq<UsageReportRow>,
    summaries: Seq<SummaryReportRow>,
    n: int,
)
    requires
        0 <= n,
    ensures
        n <= rows.len() ==> rows_are_summed(
            rows_total(rows, n),
            rows.take(n),
            |r: UsageReportRow| true,
            |r: UsageReportRow| r.usage,
        ),
        n <= summaries.len() ==> rows_are_summed(
            summary_rows_total(summaries, n),
            summaries.take(n),
            |r: SummaryReportRow| true,
            |r: SummaryReportRow| r.usage,
        ),
    decreases n,
{
    if n > 0 {
        totals_are_the_sums_of_the_rows(rows, summaries, n - 1);
        if n <= rows.len() {
            assert(rows.take(n) =~= rows.take(n - 1).push(rows[n - 1]));
            lemma_rows_step(
                rows_total(rows, n - 1),
                rows.take(n - 1),
                rows[n - 1],
                |r: UsageReportRow| true,
                |r: UsageReportRow| r.usage,
            );
        }
        if n <= summaries.len() {
            assert(summaries.take(n) =~= summaries.take(n - 1).push(summaries[n - 1]));
            lemma_rows_step(
                summary_rows_total(summaries, n - 1),
                summaries.take(n - 1),
                summaries[n - 1],
                |r: SummaryReportRow| true,
                |r: SummaryReportRow| r.usage,
            );
        }
    } else {
        assert(rows.take(0) =~= Seq::empty());
        assert(summaries.take(0) =~= Seq::empty());
    }
}

/// What is known of a provider is the sum over its rows, and over no others.
pub proof fn known_usage_is_that_of_the_provider(
    rows: Seq<UsageReportRow>,
    summaries: Seq<SummaryReportRow>,
    provider: Seq<char>,
)
    ensures
        rows_are_summed(
            direct_of(rows, provider),
            rows,
            |r: UsageReportRow| r.provider@ == provider,
            |r: UsageReportRow| r.usage,
        ),
        rows_are_summed(
            reported_of(summaries, provider),
            summaries,
            |r: SummaryReportRow| r.provider@ == provider,
            |r: SummaryReportRow| r.usage,
        ),
    decreases rows.len() + summaries.len(),
{
    if rows.len() > 0 {
        known_usage_is_that_of_the_provider(rows.drop_last(), summaries, provider);
        assert(rows.drop_last().push(rows.last()) =~= rows);
        lemma_rows_step(
            direct_of(rows.drop_last(), provider),
            rows.drop_last(),
            rows.last(),
            |r: UsageReportRow| r.provider@ == provider,
            |r: UsageReportRow| r.usage,
        );
    } else if summaries.len() > 0 {
        known_usage_is_that_of_the_provider(rows, summaries.drop_last(), provider);
        assert(summaries.drop_last().push(summaries.last()) =~= summaries);
        lemma_rows_step(
            reported_of(summaries.drop_last(), provider),
            summaries.drop_last(),
            summaries.last(),
            |r: SummaryReportRow| r.provider@ == provider,
            |r: SummaryReportRow| r.usage,
        );
    }
}

/// The numbers under the table of summaries are the sums over its rows.
pub proof fn summary_totals_are_sums(rows: Seq<SummaryReportRow>)
    ensures
        count_sum(rows) == summed(
            rows,
            |r: SummaryReportRow| true,
            |r: SummaryReportRow| r.summaries as int,
        ),
        direct_sum(rows) == summed(
            rows,
            |r: SummaryReportRow| true,
            |r: SummaryReportRow| r.direct_event_usage.total_tokens as int,
        ),
    decreases rows.len(),
{
    if rows.len() > 0 {
        summary_totals_are_sums(rows.drop_last());
    }
}

/// What direct usage does not cover and what it does make up a summary row, unless
/// there is more direct usage than was reported.
pub proof fn uncovered_and_direct_make_up_the_row(row: SummaryReportRow)
    ensures
        row.usage.total_tokens >= row.direct_event_usage.total_tokens
            ==> crate::render::uncovered(row) + row.direct_event_usage.total_tokens
            == row.usage.total_tokens,
        row.usage.total_tokens <= row.direct_event_usage.total_tokens ==> crate::render::uncovered(
            row,
        ) == 0,
{
}

/// Of an ordered list every text stays, once.
pub proof fn ordered_texts_stay_once(s: Seq<Seq<char>>)
    requires
        forall|i: int, j: int| 0 <= i < j < s.len() ==> !text_lt(#[trigger] s[j], #[trigger] s[i]),
    ensures
        texts_increase(without_repeats(s)),
        without_repeats(s).to_set() == s.to_set(),
        s.len() > 0 ==> without_repeats(s).len() > 0 && without_repeats(s).last() == s.last(),
    decreases s.len(),
{
    if s.len() > 0 {
        let front = s.drop_last();
        let x = s.last();
        assert forall|i: int, j: int| 0 <= i < j < front.len() implies !text_lt(
            #[trigger] front[j],
            #[trigger] front[i],
        ) by {
            assert(front[i] == s[i] && front[j] == s[j]);
        }
        ordered_texts_stay_once(front);
        let before = without_repeats(front);
        let now = without_repeats(s);
        assert forall|i: int, j: int| 0 <= i < j < now.len() implies text_lt(
            #[trigger] now[i],
            #[trigger] now[j],
        ) by {
            if j < before.len() {
                assert(now[i] == before[i] && now[j] == before[j]);
            } else {
                let l = front.last();
                assert(front.len() > 0) by {
                    assert(before.len() > 0);
                }
                assert(s[s.len() - 2] == l && s[s.len() - 1] == x);
                assert(!text_lt(s[s.len() - 1], s[s.len() - 2]));
                lemma_text_lt_total(l, x);
                assert(before.last() == l);
                if i < before.len() - 1 {
                    assert(text_lt(before[i], before[before.len() - 1]));
                    lemma_text_lt_transitive(before[i], l, x);
                }
            }
        }
        assert forall|t: Seq<char>| now.to_set().contains(t) == s.to_set().contains(t) by {
            assert(before.to_set().contains(t) == front.to_set().contains(t));
            if now.contains(t) {
                let k = choose|k: int| 0 <= k < now.len() && now[k] == t;
                if k < before.len() {
                    assert(before[k] == t);
                    assert(front.contains(t));
                    let m = choose|m: int| 0 <= m < front.len() && front[m] == t;
                    assert(s[m] == t);
                } else {
                    assert(s[s.len() - 1] == t);
                }
            }
            if s.contains(t) {
                let k = choose|k: int| 0 <= k < s.len() && s[k] == t;
                if k < front.len() {
                    assert(front[k] == t);
                    assert(before.contains(t));
                    let m = choose|m: int| 0 <= m < before.len() && before[m] == t;
                    assert(now[m] == t);
                } else {
                    assert(now[now.len() - 1] == t);
                }
            }
        }
        assert(now.to_set() =~= s.to_set());
    }
}

/// The table of known usage has a line for each provider that has a row, in order.
pub proof fn every_provider_has_a_line(r: UsageReport)
    ensures
        texts_increase(report_providers(r)),
        forall|p: Seq<char>| #[trigger]
            report_providers(r).contains(p) == ((exists|i: int|
                0 <= i < r.rows@.len() && (#[trigger] r.rows@[i]).provider@ == p) || exists|i: int|
                0 <= i < r.summary_rows@.len() && (#[trigger] r.summary_rows@[i]).provider@ == p),
        known_table(r).len() == 2 + report_providers(r).len(),
{
    let a = r.rows@.map_values(|x: UsageReportRow| x.provider@);
    let b = r.summary_rows@.map_values(|x: SummaryReportRow| x.provider@);
    let all = a + b;
    let sorted = sorted_texts(all);
    sorting_texts_orders_them(all);
    ordered_texts_stay_once(sorted);
    let out = report_providers(r);
    assert forall|p: Seq<char>| #[trigger]
        out.contains(p) == ((exists|i: int|
            0 <= i < r.rows@.len() && (#[trigger] r.rows@[i]).provider@ == p) || exists|i: int|
            0 <= i < r.summary_rows@.len() && (#[trigger] r.summary_rows@[i]).provider@ == p) by {
        assert(out.to_set().contains(p) == sorted.to_set().contains(p));
        all.to_multiset_ensures();
        sorted.to_multiset_ensures();
        assert(sorted.to_multiset().count(p) == all.to_multiset().count(p));
        assert(sorted.contains(p) == all.contains(p));
        if all.contains(p) {
            let k = choose|k: int| 0 <= k < all.len() && all[k] == p;
            if k < a.len() {
                assert(r.rows@[k].provider@ == p);
            } else {
                assert(r.summary_rows@[k - a.len()].provider@ == p);
            }
        }
        if exists|i: int| 0 <= i < r.rows@.len() && (#[trigger] r.rows@[i]).provider@ == p {
            let i = choose|i: int| 0 <= i < r.rows@.len() && (#[trigger] r.rows@[i]).provider@ == p;
            assert(all[i] == p);
        }
        if exists|i: int|
            0 <= i < r.summary_rows@.len() && (#[trigger] r.summary_rows@[i]).provider@ == p {
            let i = choose|i: int|
                0 <= i < r.summary_rows@.len() && (#[trigger] r.summary_rows@[i]).provider@ == p;
            assert(all[a.len() + i] == p);
        }
    }
}

/// A quota's slice grows by a record's counts, each in its own column; what was
/// written to a cache for five minutes and for an hour belongs to what was written
/// to one.
pub proof fn a_quota_slice_grows_by_the_record(
    q: QuotaUsageSliceV1,
    u: UsageCounts,
    cost: Option<i64>,
)
    ensures
        ({
            let t = q.plus(u, cost);
            &&& t.input_tokens == held(q.input_tokens + tokens(u.input_tokens))
            &&& t.output_tokens == held(q.output_tokens + tokens(u.output_tokens))
            &&& t.cache_read_tokens == held(q.cache_read_tokens + tokens(u.cache_read_tokens))
            &&& t.reasoning_tokens == held(q.reasoning_tokens + tokens(u.reasoning_tokens))
            &&& t.cache_creation_tokens == held(
                q.cache_creation_tokens + tokens(u.cache_creation_tokens) + tokens(
                    u.cache_creation_5m_tokens,
                ) + tokens(u.cache_creation_1h_tokens),
            )
            &&& t.total_tokens == held(q.total_tokens + all_tokens(u))
            &&& cost is None ==> t.estimated_cost_micro_usd == q.estimated_cost_micro_usd
            &&& cost is Some && -0x8000_0000_0000_0000 <= q.estimated_cost_micro_usd + cost->0
                <= 0x7FFF_FFFF_FFFF_FFFF ==> t.estimated_cost_micro_usd
                == q.estimated_cost_micro_usd + cost->0
        }),
{
}

/// The digits of a count stand in groups of three from the end, so that every fourth
/// character from the end is a comma and no other is.
pub proof fn digits_stand_in_groups_of_three(s: Seq<char>, i: int)
    requires
        forall|k: int| 0 <= k < s.len() ==> (#[trigger] s[k]) != ',',
        0 <= i < grouped(s).len(),
    ensures
        (grouped(s)[grouped(s).len() - 1 - i] == ',') == (i % 4 == 3),
        s.len() > 0 ==> grouped(s)[0] == s[0],
    decreases s.len(),
{
    if s.len() > 3 {
        let a = s.take(s.len() - 3);
        let b = s.skip(s.len() - 3);
        assert forall|k: int| 0 <= k < a.len() implies (#[trigger] a[k]) != ',' by {
            assert(a[k] == s[k]);
        }
        let g = grouped(a);
        let w = grouped(s);
        assert(w.len() == g.len() + 4);
        assert(g.len() > 0) by {
            if a.len() > 3 {
                assert(g.len() >= 1);
            }
        }
        digits_stand_in_groups_of_three(a, 0);
        if i < 3 {
            assert(w[w.len() - 1 - i] == b[2 - i]);
            assert(b[2 - i] == s[s.len() - 1 - i]);
        } else if i == 3 {
            assert(w[w.len() - 1 - i] == ',');
        } else {
            digits_stand_in_groups_of_three(a, i - 4);
            assert(w[w.len() - 1 - i] == g[g.len() - 1 - (i - 4)]);
        }
    }
}

} // verus!
