//! What totals say of the usage that they add up.
use crate::records::{UsageCounts, UsageEvent, UsageSummary};
use crate::sorted::{Ranked, lemma_rank_place, rank_place, ranked};
use crate::time::Timestamp;
use crate::usage::{
    EventSample, UsageTotals, count_upto, in_time_order, prefix_of, rounded_cents, sat_i64,
    usage_between_spec,
};
use vstd::prelude::*;

verus! {

// ---------------------------------------------------------------------------
// Sums
// ---------------------------------------------------------------------------

/// The sum of a number over the items that are picked.
pub open spec fn summed<T>(s: Seq<T>, pick: spec_fn(T) -> bool, number: spec_fn(T) -> int) -> int
    decreases s.len(),
{
    if s.len() == 0 {
        0
    } else {
        summed(s.drop_last(), pick, number) + if pick(s.last()) {
            number(s.last())
        } else {
            0
        }
    }
}

/// How many items are picked.
pub open spec fn picked<T>(s: Seq<T>, pick: spec_fn(T) -> bool) -> int {
    summed(s, pick, |x: T| 1int)
}

/// A sum as a counter can hold it.
pub open spec fn held(n: int) -> int {
    if n <= 0xFFFF_FFFF_FFFF_FFFF {
        n
    } else {
        0xFFFF_FFFF_FFFF_FFFF
    }
}

/// A count that may be missing.
pub open spec fn tokens(o: Option<u64>) -> int {
    match o {
        Some(n) => n as int,
        None => 0,
    }
}

/// All tokens of a record: as it says, or its parts together.
pub open spec fn all_tokens(u: UsageCounts) -> int {
    match u.total_tokens {
        Some(n) => n as int,
        None => held(
            tokens(u.input_tokens) + tokens(u.output_tokens) + tokens(u.cache_creation_tokens)
                + tokens(u.cache_read_tokens) + tokens(u.reasoning_tokens),
        ),
    }
}

/// A record's total is the one that it gives, or the sum of its parts.
pub proof fn a_computed_total_is_given_or_the_sum_of_the_parts(u: UsageCounts)
    ensures
        u.computed_total_spec() == all_tokens(u),
{
}

/// Whether six counts are the sums of the picked items' counts.
pub open spec fn counts_are_sums<T>(
    t: UsageTotals,
    s: Seq<T>,
    pick: spec_fn(T) -> bool,
    usage: spec_fn(T) -> UsageCounts,
) -> bool {
    &&& t.input_tokens == held(summed(s, pick, |x: T| tokens(usage(x).input_tokens)))
    &&& t.cache_creation_tokens == held(
        summed(s, pick, |x: T| tokens(usage(x).cache_creation_tokens)),
    )
    &&& t.cached_input_tokens == held(summed(s, pick, |x: T| tokens(usage(x).cache_read_tokens)))
    &&& t.output_tokens == held(summed(s, pick, |x: T| tokens(usage(x).output_tokens)))
    &&& t.reasoning_tokens == held(summed(s, pick, |x: T| tokens(usage(x).reasoning_tokens)))
    &&& t.total_tokens == held(summed(s, pick, |x: T| all_tokens(usage(x))))
}

/// Whether `cents` are the cents next to `micro` millionths of a dollar; half a
/// cent goes away from zero.
pub open spec fn nearest_cents(cents: int, micro: int) -> bool {
    &&& 2 * (micro - 10_000 * cents) <= 10_000
    &&& 2 * (micro - 10_000 * cents) >= -10_000
    &&& micro >= 0 ==> 2 * (micro - 10_000 * cents) < 10_000
    &&& micro < 0 ==> 2 * (micro - 10_000 * cents) > -10_000
}

/// Costs in cents are the costs in millionths, to the nearest.
pub proof fn costs_are_rounded_to_the_nearest_cent(micro: i64)
    ensures
        nearest_cents(rounded_cents(micro) as int, micro as int),
{
}

pub open spec fn absolute_of(o: Option<int>) -> int {
    match o {
        Some(n) => if n < 0 {
            -n
        } else {
            n
        },
        None => 0,
    }
}

pub open spec fn amount_or_nothing(o: Option<int>) -> int {
    match o {
        Some(n) => n,
        None => 0,
    }
}

/// Whether a cost is the sum of the picked items' known costs, in millionths of a
/// dollar, and unknown where none of them is known; the cents are those next to
/// it. Sums that a signed counter cannot hold are left out.
pub open spec fn cost_is_sum<T>(
    t: UsageTotals,
    s: Seq<T>,
    pick: spec_fn(T) -> bool,
    cost: spec_fn(T) -> Option<int>,
) -> bool {
    &&& t.estimated_cost_micro_usd is Some == (picked(s, |x: T| pick(x) && cost(x) is Some) > 0)
    &&& t.estimated_cost_usd is Some == t.estimated_cost_micro_usd is Some
    &&& t.estimated_cost_micro_usd is Some ==> nearest_cents(
        t.estimated_cost_usd->0 as int,
        t.estimated_cost_micro_usd->0 as int,
    )
    &&& t.estimated_cost_micro_usd is Some && summed(s, pick, |x: T| absolute_of(cost(x)))
        <= 0x7FFF_FFFF_FFFF_FFFF ==> t.estimated_cost_micro_usd->0 == summed(
        s,
        pick,
        |x: T| amount_or_nothing(cost(x)),
    )
}

/// What an event is estimated to have cost, in millionths of a dollar.
pub open spec fn event_cost(e: UsageEvent) -> Option<int> {
    match e.cost.estimated_api_equivalent_usd {
        Some(cents) => Some(cents * 10_000),
        None => None,
    }
}

/// What a summary says its usage cost: as the provider reports it, else as
/// estimated.
pub open spec fn summary_cost(s: UsageSummary) -> Option<int> {
    match s.cost.provider_reported_usd {
        Some(cents) => Some(cents * 10_000),
        None => match s.cost.estimated_api_equivalent_usd {
            Some(cents) => Some(cents * 10_000),
            None => None,
        },
    }
}

pub proof fn lemma_summed_natural<T>(s: Seq<T>, pick: spec_fn(T) -> bool, number: spec_fn(T) -> int)
    requires
        forall|x: T| #[trigger] number(x) >= 0,
    ensures
        summed(s, pick, number) >= 0,
    decreases s.len(),
{
    if s.len() > 0 {
        lemma_summed_natural(s.drop_last(), pick, number);
    }
}

pub proof fn lemma_summed_push<T>(
    s: Seq<T>,
    x: T,
    pick: spec_fn(T) -> bool,
    number: spec_fn(T) -> int,
)
    ensures
        summed(s.push(x), pick, number) == summed(s, pick, number) + if pick(x) {
            number(x)
        } else {
            0
        },
{
    assert(s.push(x).drop_last() =~= s);
}

pub proof fn lemma_summed_insert<T>(
    s: Seq<T>,
    i: int,
    x: T,
    pick: spec_fn(T) -> bool,
    number: spec_fn(T) -> int,
)
    requires
        0 <= i <= s.len(),
    ensures
        summed(s.insert(i, x), pick, number) == summed(s, pick, number) + if pick(x) {
            number(x)
        } else {
            0
        },
    decreases s.len(),
{
    let w = s.insert(i, x);
    if i == s.len() {
        assert(w =~= s.push(x));
        lemma_summed_push(s, x, pick, number);
    } else {
        assert(w.drop_last() =~= s.drop_last().insert(i, x));
        assert(w.last() == s.last());
        lemma_summed_insert(s.drop_last(), i, x, pick, number);
    }
}

pub proof fn lemma_summed_ranked<T: Ranked>(
    s: Seq<T>,
    pick: spec_fn(T) -> bool,
    number: spec_fn(T) -> int,
)
    ensures
        summed(ranked(s), pick, number) == summed(s, pick, number),
    decreases s.len(),
{
    if s.len() > 0 {
        let front = ranked(s.drop_last());
        lemma_summed_ranked(s.drop_last(), pick, number);
        lemma_rank_place(front, s.last());
        lemma_summed_insert(front, rank_place(front, s.last()), s.last(), pick, number);
    }
}

/// Sums over the same picks of the same numbers are the same.
pub proof fn lemma_summed_same<T>(
    s: Seq<T>,
    p: spec_fn(T) -> bool,
    q: spec_fn(T) -> bool,
    f: spec_fn(T) -> int,
    g: spec_fn(T) -> int,
)
    requires
        forall|i: int| 0 <= i < s.len() ==> p(#[trigger] s[i]) == q(s[i]),
        forall|i: int| 0 <= i < s.len() && p(s[i]) ==> f(#[trigger] s[i]) == g(s[i]),
    ensures
        summed(s, p, f) == summed(s, q, g),
    decreases s.len(),
{
    if s.len() > 0 {
        let front = s.drop_last();
        assert forall|i: int| 0 <= i < front.len() implies p(#[trigger] front[i]) == q(front[i]) by {
            assert(front[i] == s[i]);
        }
        assert forall|i: int| 0 <= i < front.len() && p(front[i]) implies f(#[trigger] front[i])
            == g(front[i]) by {
            assert(front[i] == s[i]);
        }
        lemma_summed_same(front, p, q, f, g);
        assert(s.last() == s[s.len() - 1]);
    }
}

/// One item more, picked or not.
pub proof fn lemma_counts_step<T>(
    t: UsageTotals,
    s: Seq<T>,
    x: T,
    pick: spec_fn(T) -> bool,
    usage: spec_fn(T) -> UsageCounts,
    amount: Option<i64>,
)
    requires
        counts_are_sums(t, s, pick, usage),
    ensures
        counts_are_sums(
            if pick(x) {
                t.plus_usage(usage(x), amount)
            } else {
                t
            },
            s.push(x),
            pick,
            usage,
        ),
{
    let f1 = |x: T| tokens(usage(x).input_tokens);
    let f2 = |x: T| tokens(usage(x).cache_creation_tokens);
    let f3 = |x: T| tokens(usage(x).cache_read_tokens);
    let f4 = |x: T| tokens(usage(x).output_tokens);
    let f5 = |x: T| tokens(usage(x).reasoning_tokens);
    let f6 = |x: T| all_tokens(usage(x));
    lemma_summed_natural(s, pick, f1);
    lemma_summed_natural(s, pick, f2);
    lemma_summed_natural(s, pick, f3);
    lemma_summed_natural(s, pick, f4);
    lemma_summed_natural(s, pick, f5);
    lemma_summed_natural(s, pick, f6);
    lemma_summed_push(s, x, pick, f1);
    lemma_summed_push(s, x, pick, f2);
    lemma_summed_push(s, x, pick, f3);
    lemma_summed_push(s, x, pick, f4);
    lemma_summed_push(s, x, pick, f5);
    lemma_summed_push(s, x, pick, f6);
    a_computed_total_is_given_or_the_sum_of_the_parts(usage(x));
}

pub proof fn lemma_held_at_most<T>(
    s: Seq<T>,
    pick: spec_fn(T) -> bool,
    cost: spec_fn(T) -> Option<int>,
)
    ensures
        summed(s, pick, |x: T| amount_or_nothing(cost(x))) <= summed(
            s,
            pick,
            |x: T| absolute_of(cost(x)),
        ),
        -summed(s, pick, |x: T| amount_or_nothing(cost(x))) <= summed(
            s,
            pick,
            |x: T| absolute_of(cost(x)),
        ),
        picked(s, |x: T| pick(x) && cost(x) is Some) >= 0,
        picked(s, |x: T| pick(x) && cost(x) is Some) == 0 ==> summed(
            s,
            pick,
            |x: T| amount_or_nothing(cost(x)),
        ) == 0,
    decreases s.len(),
{
    if s.len() > 0 {
        lemma_held_at_most(s.drop_last(), pick, cost);
        lemma_summed_natural(s.drop_last(), |x: T| pick(x) && cost(x) is Some, |x: T| 1int);
    }
}

/// One item more adds its cost, where it has one.
pub proof fn lemma_cost_step<T>(
    t: UsageTotals,
    s: Seq<T>,
    x: T,
    pick: spec_fn(T) -> bool,
    cost: spec_fn(T) -> Option<int>,
    counts: UsageCounts,
    amount: Option<i64>,
)
    requires
        cost_is_sum(t, s, pick, cost),
        amount is Some == cost(x) is Some,
        amount is Some ==> amount->0 == sat_i64(cost(x)->0),
    ensures
        cost_is_sum(
            if pick(x) {
                t.plus_usage(counts, amount)
            } else {
                t
            },
            s.push(x),
            pick,
            cost,
        ),
{
    let known = |x: T| pick(x) && cost(x) is Some;
    let sizes = |x: T| absolute_of(cost(x));
    let costs = |x: T| amount_or_nothing(cost(x));
    lemma_summed_push(s, x, known, |x: T| 1int);
    lemma_summed_push(s, x, pick, sizes);
    lemma_summed_push(s, x, pick, costs);
    lemma_held_at_most(s, pick, cost);
    lemma_summed_natural(s, pick, sizes);
    let u = t.plus_usage(counts, amount);
    if pick(x) && u.estimated_cost_micro_usd is Some {
        costs_are_rounded_to_the_nearest_cent(u.estimated_cost_micro_usd->0);
    }
}

// ---------------------------------------------------------------------------
// Usage between two instants
// ---------------------------------------------------------------------------

/// The cost of a sample, in millionths of a dollar.
pub open spec fn sample_cost(x: EventSample) -> Option<int> {
    match x.cost {
        Some(c) => Some(c as int),
        None => None,
    }
}

/// Whether an instant lies from `start` up to `end`, which belongs to it where it
/// is included.
pub open spec fn lies_between(t: Timestamp, start: Timestamp, end: Timestamp, included: bool) -> bool {
    &&& start.at() <= t.at()
    &&& t.at() < end.at() || (included && t.at() == end.at())
}

proof fn lemma_prefix_sums(s: Seq<EventSample>, n: int)
    requires
        0 <= n <= s.len(),
        s.len() <= u64::MAX,
    ensures
        counts_are_sums(
            prefix_of(s, n).usage,
            s.take(n),
            |x: EventSample| true,
            |x: EventSample| x.usage,
        ),
        cost_is_sum(
            prefix_of(s, n).usage,
            s.take(n),
            |x: EventSample| true,
            |x: EventSample| sample_cost(x),
        ),
        prefix_of(s, n).events == n,
        prefix_of(s, n).estimated_cost_samples == picked(
            s.take(n),
            |x: EventSample| x.cost is Some,
        ),
        prefix_of(s, n).estimated_cost_samples <= n,
    decreases n,
{
    let all = |x: EventSample| true;
    let known = |x: EventSample| x.cost is Some;
    if n > 0 {
        lemma_prefix_sums(s, n - 1);
        let x = s[n - 1];
        let before = prefix_of(s, n - 1).usage;
        assert(s.take(n) =~= s.take(n - 1).push(x));
        lemma_counts_step(before, s.take(n - 1), x, all, |x: EventSample| x.usage, x.cost);
        lemma_cost_step(
            before,
            s.take(n - 1),
            x,
            all,
            |x: EventSample| sample_cost(x),
            x.usage,
            x.cost,
        );
        lemma_summed_push(s.take(n - 1), x, known, |x: EventSample| 1int);
    } else {
        assert(s.take(0) =~= Seq::empty());
    }
}

/// In the order of time, those before a bound are the first ones.
proof fn lemma_first_ones(s: Seq<EventSample>, t: Timestamp, included: bool, n: int)
    requires
        in_time_order(s),
        0 <= n <= s.len(),
    ensures
        0 <= count_upto(s, t, included, n) <= n,
        forall|k: int|
            0 <= k < n ==> (k < count_upto(s, t, included, n)) == ((#[trigger] s[k]).at.at() < t.at()
                || (included && s[k].at.at() == t.at())),
    decreases n,
{
    if n > 0 {
        lemma_first_ones(s, t, included, n - 1);
        let c = count_upto(s, t, included, n - 1);
        let x = s[n - 1];
        if x.at.at() < t.at() || (included && x.at.at() == t.at()) {
            if c < n - 1 {
                assert(s[c].at.at() <= s[n - 1].at.at());
                assert(false);
            }
        }
    }
}

proof fn lemma_summed_part<T>(
    s: Seq<T>,
    pick: spec_fn(T) -> bool,
    number: spec_fn(T) -> int,
    a: int,
    b: int,
    n: int,
)
    requires
        0 <= a <= b <= s.len(),
        0 <= n <= s.len(),
        forall|k: int| 0 <= k < s.len() ==> pick(#[trigger] s[k]) == (a <= k < b),
    ensures
        summed(s.take(n), pick, number) == if n <= a {
            0
        } else if n <= b {
            summed(s.take(n), |x: T| true, number) - summed(s.take(a), |x: T| true, number)
        } else {
            summed(s.take(b), |x: T| true, number) - summed(s.take(a), |x: T| true, number)
        },
    decreases n,
{
    if n > 0 {
        lemma_summed_part(s, pick, number, a, b, n - 1);
        assert(s.take(n).drop_last() =~= s.take(n - 1));
        assert(s.take(n).last() == s[n - 1]);
    }
}

proof fn lemma_summed_grows<T>(s: Seq<T>, number: spec_fn(T) -> int, n: int, m: int)
    requires
        0 <= n <= m <= s.len(),
        forall|x: T| #[trigger] number(x) >= 0,
    ensures
        0 <= summed(s.take(n), |x: T| true, number) <= summed(s.take(m), |x: T| true, number),
    decreases m,
{
    lemma_summed_natural(s.take(n), |x: T| true, number);
    if n < m {
        lemma_summed_grows(s, number, n, m - 1);
        assert(s.take(m).drop_last() =~= s.take(m - 1));
    }
}

/// Whether no count of all the items together is too large for a counter.
pub open spec fn sums_fit<T>(
    s: Seq<T>,
    usage: spec_fn(T) -> UsageCounts,
    cost: spec_fn(T) -> Option<int>,
) -> bool {
    let all = |x: T| true;
    &&& s.len() <= 0xFFFF_FFFF_FFFF_FFFF
    &&& summed(s, all, |x: T| tokens(usage(x).input_tokens)) <= 0xFFFF_FFFF_FFFF_FFFF
    &&& summed(s, all, |x: T| tokens(usage(x).cache_creation_tokens)) <= 0xFFFF_FFFF_FFFF_FFFF
    &&& summed(s, all, |x: T| tokens(usage(x).cache_read_tokens)) <= 0xFFFF_FFFF_FFFF_FFFF
    &&& summed(s, all, |x: T| tokens(usage(x).output_tokens)) <= 0xFFFF_FFFF_FFFF_FFFF
    &&& summed(s, all, |x: T| tokens(usage(x).reasoning_tokens)) <= 0xFFFF_FFFF_FFFF_FFFF
    &&& summed(s, all, |x: T| all_tokens(usage(x))) <= 0xFFFF_FFFF_FFFF_FFFF
    &&& summed(s, all, |x: T| absolute_of(cost(x))) <= 0x7FFF_FFFF_FFFF_FFFF
}

proof fn lemma_part(s: Seq<EventSample>, pick: spec_fn(EventSample) -> bool, number: spec_fn(
    EventSample,
) -> int, a: int, b: int)
    requires
        0 <= a <= b <= s.len(),
        forall|k: int| 0 <= k < s.len() ==> pick(#[trigger] s[k]) == (a <= k < b),
        forall|x: EventSample| #[trigger] number(x) >= 0,
    ensures
        summed(s, pick, number) == summed(s.take(b), |x: EventSample| true, number) - summed(
            s.take(a),
            |x: EventSample| true,
            number,
        ),
        0 <= summed(s.take(a), |x: EventSample| true, number) <= summed(
            s.take(b),
            |x: EventSample| true,
            number,
        ) <= summed(s, |x: EventSample| true, number),
{
    let n = s.len() as int;
    assert(s.take(n) =~= s);
    lemma_summed_part(s, pick, number, a, b, n);
    lemma_summed_grows(s, number, a, b);
    lemma_summed_grows(s, number, b, n);
}

/// The usage between two instants is that of the samples between them: their
/// number, the sums of their counts and of their costs, where the sums of the
/// whole series can be held.
pub proof fn usage_between_adds_up_what_lies_between(
    s: Seq<EventSample>,
    start: Timestamp,
    end: Timestamp,
    included: bool,
)
    requires
        in_time_order(s),
        sums_fit(s, |x: EventSample| x.usage, |x: EventSample| sample_cost(x)),
    ensures
        ({
            let r = usage_between_spec(s, start, end, included);
            let pick = |x: EventSample| lies_between(x.at, start, end, included);
            &&& r.0 == picked(s, pick)
            &&& counts_are_sums(r.1, s, pick, |x: EventSample| x.usage)
            &&& cost_is_sum(r.1, s, pick, |x: EventSample| sample_cost(x))
        }),
{
    let n = s.len() as int;
    let r = usage_between_spec(s, start, end, included);
    let pick = |x: EventSample| lies_between(x.at, start, end, included);
    let usage = |x: EventSample| x.usage;
    let cost = |x: EventSample| sample_cost(x);
    let f1 = |x: EventSample| tokens(usage(x).input_tokens);
    let f2 = |x: EventSample| tokens(usage(x).cache_creation_tokens);
    let f3 = |x: EventSample| tokens(usage(x).cache_read_tokens);
    let f4 = |x: EventSample| tokens(usage(x).output_tokens);
    let f5 = |x: EventSample| tokens(usage(x).reasoning_tokens);
    let f6 = |x: EventSample| all_tokens(usage(x));
    let f7 = |x: EventSample| absolute_of(cost(x));
    let f8 = |x: EventSample| amount_or_nothing(cost(x));
    let one = |x: EventSample| 1int;
    let all = |x: EventSample| true;
    let known = |x: EventSample| x.cost is Some;
    if end.at() < start.at() {
        lemma_nothing_picked(s, pick, f1);
        lemma_nothing_picked(s, pick, f2);
        lemma_nothing_picked(s, pick, f3);
        lemma_nothing_picked(s, pick, f4);
        lemma_nothing_picked(s, pick, f5);
        lemma_nothing_picked(s, pick, f6);
        lemma_nothing_picked(s, pick, f8);
        lemma_nothing_picked(s, pick, one);
        lemma_nothing_picked(s, |x: EventSample| pick(x) && cost(x) is Some, one);
    } else {
        lemma_first_ones(s, start, false, n);
        lemma_first_ones(s, end, included, n);
        let a = count_upto(s, start, false, n);
        let b = count_upto(s, end, included, n);
        if b < a {
            assert(s[b].at.at() < start.at());
            assert(false);
        }
        assert forall|k: int| 0 <= k < s.len() implies pick(#[trigger] s[k]) == (a <= k < b) by {}
        lemma_prefix_sums(s, a);
        lemma_prefix_sums(s, b);
        lemma_part(s, pick, f1, a, b);
        lemma_part(s, pick, f2, a, b);
        lemma_part(s, pick, f3, a, b);
        lemma_part(s, pick, f4, a, b);
        lemma_part(s, pick, f5, a, b);
        lemma_part(s, pick, f6, a, b);
        lemma_part(s, pick, f7, a, b);
        lemma_part(s, pick, one, a, b);
        lemma_number_of(s.take(a));
        lemma_number_of(s.take(b));
        assert(r.0 == picked(s, pick));
        // Costs
        assert(s.take(n) =~= s);
        lemma_summed_part(s, pick, f8, a, b, n);
        let some = |x: EventSample| if x.cost is Some { 1int } else { 0 };
        lemma_part(s, pick, some, a, b);
        lemma_known(s.take(a), all);
        lemma_known(s.take(b), all);
        lemma_known(s, pick);
        lemma_held_at_most(s.take(a), all, cost);
        lemma_held_at_most(s.take(b), all, cost);
        lemma_held_at_most(s, pick, cost);
        lemma_summed_same(
            s.take(a),
            |x: EventSample| all(x) && cost(x) is Some,
            known,
            one,
            one,
        );
        lemma_summed_same(
            s.take(b),
            |x: EventSample| all(x) && cost(x) is Some,
            known,
            one,
            one,
        );
        let both = |x: EventSample| all(x) && x.cost is Some;
        lemma_summed_same(s.take(a), both, known, one, one);
        lemma_summed_same(s.take(b), both, known, one, one);
        lemma_summed_same(
            s,
            |x: EventSample| pick(x) && cost(x) is Some,
            |x: EventSample| pick(x) && x.cost is Some,
            one,
            one,
        );
        let m = r.1.estimated_cost_micro_usd;
        if m is Some {
            costs_are_rounded_to_the_nearest_cent(m->0);
        }
        assert(counts_are_sums(r.1, s, pick, usage));
        let sa = prefix_of(s, a).estimated_cost_samples;
        let sb = prefix_of(s, b).estimated_cost_samples;
        assert(picked(s, |x: EventSample| pick(x) && x.cost is Some) == sb - sa);
        assert(picked(s, |x: EventSample| pick(x) && cost(x) is Some) == sb - sa);
        assert(m is Some == (sb > sa));
        assert(m is Some ==> m->0 == summed(s, pick, f8));
        assert(cost_is_sum(r.1, s, pick, cost));
    }
}

proof fn lemma_nothing_picked<T>(s: Seq<T>, pick: spec_fn(T) -> bool, number: spec_fn(T) -> int)
    requires
        forall|x: T| !(#[trigger] pick(x)),
    ensures
        summed(s, pick, number) == 0,
    decreases s.len(),
{
    if s.len() > 0 {
        lemma_nothing_picked(s.drop_last(), pick, number);
        assert(!pick(s.last()));
    }
}

proof fn lemma_number_of(s: Seq<EventSample>)
    ensures
        summed(s, |x: EventSample| true, |x: EventSample| 1int) == s.len(),
    decreases s.len(),
{
    if s.len() > 0 {
        lemma_number_of(s.drop_last());
    }
}

proof fn lemma_known(s: Seq<EventSample>, pick: spec_fn(EventSample) -> bool)
    ensures
        picked(s, |x: EventSample| pick(x) && x.cost is Some) == summed(
            s,
            pick,
            |x: EventSample| if x.cost is Some { 1int } else { 0 },
        ),
    decreases s.len(),
{
    if s.len() > 0 {
        lemma_known(s.drop_last(), pick);
    }
}

} // verus!
