//! What daily rollups say of the events.
use crate::calendar::{civil, every_day_has_a_date};
use crate::records::{UsageEvent, UsageSummary};
use crate::report_row_laws::lemma_picks_some;
use crate::rollups::{
    account_key_of, bucket_text, buckets_of, day_key_of, lemma_bucket_has_event, lemma_every_bucket,
    no_sums, rolled_events, rolls_up, rollup_sums, rollups_count_every_event_once,
};
use crate::text::{joined, lemma_text_lt_irreflexive, split_on, splitting_undoes_joining, text_lt};
use crate::time::{Timestamp, day_text, midnight_spec, year_text, zero_padded};
use crate::time_laws::{different_days_are_written_differently, padding_keeps_the_number};
use crate::usage_laws::{
    a_computed_total_is_given_or_the_sum_of_the_parts, all_tokens, amount_or_nothing, held,
    lemma_summed_natural, picked, summed, tokens,
};
use vstd::prelude::*;

verus! {

/// Whether `s` says of the picked events what they add up to: the sums of their
/// counts, their number, their cost, and when the last of them began.
pub open spec fn adds_up_events(
    s: UsageSummary,
    events: Seq<UsageEvent>,
    pick: spec_fn(UsageEvent) -> bool,
) -> bool {
    let u = s.usage;
    let cents = |e: UsageEvent| amount_or_nothing(event_cents(e));
    &&& u.input_tokens is Some && u.input_tokens->0 == held(
        summed(events, pick, |e: UsageEvent| tokens(e.usage.input_tokens)),
    )
    &&& u.output_tokens is Some && u.output_tokens->0 == held(
        summed(events, pick, |e: UsageEvent| tokens(e.usage.output_tokens)),
    )
    &&& u.cache_creation_tokens is Some && u.cache_creation_tokens->0 == held(
        summed(events, pick, |e: UsageEvent| tokens(e.usage.cache_creation_tokens)),
    )
    &&& u.cache_read_tokens is Some && u.cache_read_tokens->0 == held(
        summed(events, pick, |e: UsageEvent| tokens(e.usage.cache_read_tokens)),
    )
    &&& u.reasoning_tokens is Some && u.reasoning_tokens->0 == held(
        summed(events, pick, |e: UsageEvent| tokens(e.usage.reasoning_tokens)),
    )
    &&& u.total_tokens is Some && u.total_tokens->0 == held(
        summed(events, pick, |e: UsageEvent| all_tokens(e.usage)),
    )
    &&& u.requests is Some && u.requests->0 == held(picked(events, pick))
    &&& i64::MIN <= summed(events, pick, cents) <= i64::MAX
        ==> s.cost.estimated_api_equivalent_usd is Some
        && s.cost.estimated_api_equivalent_usd->0 == summed(events, pick, cents)
    &&& forall|i: int|
        0 <= i < events.len() && pick(#[trigger] events[i]) ==> events[i].session.started_at.at()
            <= s.observed_at.at()
    &&& exists|i: int|
        0 <= i < events.len() && pick(#[trigger] events[i]) && events[i].session.started_at
            == s.observed_at
}

/// What an event is estimated to have cost, in cents.
pub open spec fn event_cents(e: UsageEvent) -> Option<int> {
    match e.cost.estimated_api_equivalent_usd {
        Some(c) => Some(c as int),
        None => None,
    }
}

proof fn lemma_bucket_sums(events: Seq<UsageEvent>, bucket: Seq<char>)
    ensures
        ({
            let r = rollup_sums(events, bucket);
            let pick = |e: UsageEvent| bucket_text(e) == bucket;
            &&& r.input == held(
                summed(events, pick, |e: UsageEvent| tokens(e.usage.input_tokens)),
            )
            &&& r.output == held(
                summed(events, pick, |e: UsageEvent| tokens(e.usage.output_tokens)),
            )
            &&& r.cache_creation == held(
                summed(events, pick, |e: UsageEvent| tokens(e.usage.cache_creation_tokens)),
            )
            &&& r.cache_read == held(
                summed(events, pick, |e: UsageEvent| tokens(e.usage.cache_read_tokens)),
            )
            &&& r.reasoning == held(
                summed(events, pick, |e: UsageEvent| tokens(e.usage.reasoning_tokens)),
            )
            &&& r.total == held(summed(events, pick, |e: UsageEvent| all_tokens(e.usage)))
            &&& r.events == held(picked(events, pick))
            &&& r.cost == summed(
                events,
                pick,
                |e: UsageEvent| amount_or_nothing(event_cents(e)),
            )
            &&& r.first is Some == exists|i: int|
                0 <= i < events.len() && pick(#[trigger] events[i])
            &&& r.first is Some ==> exists|i: int|
                0 <= i < events.len() && pick(#[trigger] events[i]) && events[i] == r.first->0
                    && forall|j: int| 0 <= j < i ==> !pick(#[trigger] events[j])
            &&& r.first is Some ==> forall|i: int|
                0 <= i < events.len() && pick(#[trigger] events[i])
                    ==> events[i].session.started_at.at() <= r.latest.at()
            &&& r.first is Some ==> exists|i: int|
                0 <= i < events.len() && pick(#[trigger] events[i])
                    && events[i].session.started_at == r.latest
        }),
    decreases events.len(),
{
    let pick = |e: UsageEvent| bucket_text(e) == bucket;
    let f1 = |e: UsageEvent| tokens(e.usage.input_tokens);
    let f2 = |e: UsageEvent| tokens(e.usage.output_tokens);
    let f3 = |e: UsageEvent| tokens(e.usage.cache_creation_tokens);
    let f4 = |e: UsageEvent| tokens(e.usage.cache_read_tokens);
    let f5 = |e: UsageEvent| tokens(e.usage.reasoning_tokens);
    let f6 = |e: UsageEvent| all_tokens(e.usage);
    let one = |e: UsageEvent| 1int;
    if events.len() > 0 {
        let front = events.drop_last();
        let e = events.last();
        let last = events.len() - 1;
        lemma_bucket_sums(front, bucket);
        lemma_summed_natural(front, pick, f1);
        lemma_summed_natural(front, pick, f2);
        lemma_summed_natural(front, pick, f3);
        lemma_summed_natural(front, pick, f4);
        lemma_summed_natural(front, pick, f5);
        lemma_summed_natural(front, pick, f6);
        lemma_summed_natural(front, pick, one);
        a_computed_total_is_given_or_the_sum_of_the_parts(e.usage);
        let before = rollup_sums(front, bucket);
        let r = rollup_sums(events, bucket);
        assert(events[last] == e);
        if pick(e) {
            assert(pick(events[last]));
        }
        assert forall|i: int| 0 <= i < front.len() implies front[i] == #[trigger] events[i] by {}
        if before.first is Some {
            let i = choose|i: int|
                0 <= i < front.len() && pick(#[trigger] front[i]) && front[i] == before.first->0
                    && forall|j: int| 0 <= j < i ==> !pick(#[trigger] front[j]);
            assert(pick(events[i]) && events[i] == r.first->0);
            assert forall|j: int| 0 <= j < i implies !pick(#[trigger] events[j]) by {
                assert(!pick(front[j]));
            }
            let k = choose|k: int|
                0 <= k < front.len() && pick(#[trigger] front[k])
                    && front[k].session.started_at == before.latest;
            assert(pick(events[k]));
            assert forall|i: int| 0 <= i < events.len() && pick(#[trigger] events[i]) implies events[i].session.started_at.at()
                <= r.latest.at() by {
                if i < front.len() {
                    assert(pick(front[i]));
                }
            }
        } else {
            assert forall|j: int| 0 <= j < last implies !pick(#[trigger] events[j]) by {
                assert(!pick(front[j]));
            }
        }
    }
}

/// A rollup adds up the events of its bucket, and is of the provider, source,
/// account and day of the first of them.
pub proof fn a_rollup_is_the_sum_of_its_bucket(
    s: UsageSummary,
    events: Seq<UsageEvent>,
    bucket: Seq<char>,
    device: Seq<char>,
    now: Timestamp,
)
    requires
        rolls_up(s, events, bucket, device, now),
    ensures
        adds_up_events(s, events, |e: UsageEvent| bucket_text(e) == bucket),
        s.device_id@ == device,
        exists|i: int|
            0 <= i < events.len() && bucket_text(#[trigger] events[i]) == bucket && is_of_day(
                s,
                events[i],
            ),
{
    lemma_bucket_sums(events, bucket);
    let pick = |e: UsageEvent| bucket_text(e) == bucket;
    let r = rollup_sums(events, bucket);
    let i = choose|i: int|
        0 <= i < events.len() && pick(#[trigger] events[i]) && events[i] == r.first->0 && forall|
            j: int,
        |
            0 <= j < i ==> !pick(#[trigger] events[j]);
    let k = choose|k: int|
        0 <= k < events.len() && pick(#[trigger] events[k]) && events[k].session.started_at
            == r.latest;
    assert(pick(events[k]) && events[k].session.started_at == s.observed_at);
    assert(bucket_text(events[i]) == bucket && is_of_day(s, events[i]));
}

/// Whether a summary is of the event's provider, source and account, and of the
/// day on which the event began, from midnight to midnight.
pub open spec fn is_of_day(s: UsageSummary, e: UsageEvent) -> bool {
    let day = e.session.started_at.day_spec();
    &&& s.provider == e.provider
    &&& s.source_id == e.source_id
    &&& s.provider_account_id == e.provider_account_id
    &&& s.period_start == Some(midnight_spec(day))
    &&& s.period_end == Some(midnight_spec(day + 1))
    &&& s.metadata.summary_format@ == "daily_rollup.v1"@
}

/// An event alone in its bucket is rolled up as it is.
pub proof fn a_bucket_of_one_event_has_its_counts(
    s: UsageSummary,
    e: UsageEvent,
    device: Seq<char>,
    now: Timestamp,
)
    requires
        rolls_up(s, seq![e], bucket_text(e), device, now),
    ensures
        s.usage.input_tokens == Some(tokens(e.usage.input_tokens) as u64),
        s.usage.output_tokens == Some(tokens(e.usage.output_tokens) as u64),
        s.usage.cache_creation_tokens == Some(tokens(e.usage.cache_creation_tokens) as u64),
        s.usage.cache_read_tokens == Some(tokens(e.usage.cache_read_tokens) as u64),
        s.usage.reasoning_tokens == Some(tokens(e.usage.reasoning_tokens) as u64),
        s.usage.total_tokens == Some(all_tokens(e.usage) as u64),
        s.usage.requests == Some(1u64),
        s.observed_at == e.session.started_at,
{
    let events = seq![e];
    assert(events.drop_last() =~= Seq::empty());
    a_computed_total_is_given_or_the_sum_of_the_parts(e.usage);
    assert(rollup_sums(events.drop_last(), bucket_text(e)) == no_sums());
}

/// The account's identifier, or that there is none.
pub open spec fn account_or_unlinked(e: UsageEvent) -> Seq<char> {
    match e.provider_account_id {
        Some(id) => id.0@,
        None => "unlinked"@,
    }
}

/// Events of the same provider, source, account and day share a bucket. Where no
/// name holds a bar, events that share a bucket agree in all four.
pub proof fn buckets_tell_provider_source_account_and_day_apart(a: UsageEvent, b: UsageEvent)
    ensures
        ({
            let alike = a.provider@ == b.provider@ && a.source_id.0@ == b.source_id.0@
                && account_or_unlinked(a) == account_or_unlinked(b) && a.session.started_at.day_spec()
                == b.session.started_at.day_spec();
            let plain = !a.provider@.contains('|') && !b.provider@.contains('|')
                && !a.source_id.0@.contains('|') && !b.source_id.0@.contains('|')
                && !account_or_unlinked(a).contains('|') && !account_or_unlinked(b).contains('|');
            &&& alike ==> bucket_text(a) == bucket_text(b)
            &&& plain && bucket_text(a) == bucket_text(b) ==> alike
        }),
{
    let plain = !a.provider@.contains('|') && !b.provider@.contains('|')
        && !a.source_id.0@.contains('|') && !b.source_id.0@.contains('|') && !account_or_unlinked(
        a,
    ).contains('|') && !account_or_unlinked(b).contains('|');
    if plain && bucket_text(a) == bucket_text(b) {
        lemma_bucket_parts(a);
        lemma_bucket_parts(b);
        assert(account_or_unlinked(a) == account_key_of(a));
        assert(account_or_unlinked(b) == account_key_of(b));
        let p = seq![a.provider@, a.source_id.0@, account_or_unlinked(a), day_key_of(a)];
        let q = seq![b.provider@, b.source_id.0@, account_or_unlinked(b), day_key_of(b)];
        assert(p == q);
        assert(p[0] == q[0] && p[1] == q[1] && p[2] == q[2] && p[3] == q[3]);
        different_days_are_written_differently(
            a.session.started_at.day_spec(),
            b.session.started_at.day_spec(),
        );
    }
}

proof fn lemma_day_has_no_bar(day: int)
    ensures
        !day_text(day).contains('|'),
{
    every_day_has_a_date(day);
    let c = civil(day);
    padding_keeps_the_number(
        (if c.0 < 0 {
            -c.0
        } else {
            c.0
        }) as nat,
        4,
    );
    padding_keeps_the_number(c.1 as nat, 2);
    padding_keeps_the_number(c.2 as nat, 2);
    let y = year_text(c.0);
    let m = zero_padded(c.1 as nat, 2);
    let d = zero_padded(c.2 as nat, 2);
    let t = day_text(day);
    assert forall|i: int| 0 <= i < t.len() implies t[i] != '|' by {
        if i < y.len() {
            assert(t[i] == y[i]);
        } else if i == y.len() {
        } else if i < y.len() + 1 + m.len() {
            assert(t[i] == m[i - y.len() - 1]);
        } else if i == y.len() + 1 + m.len() {
        } else {
            assert(t[i] == d[i - y.len() - 2 - m.len()]);
        }
    }
}

proof fn lemma_bucket_parts(e: UsageEvent)
    requires
        !e.provider@.contains('|'),
        !e.source_id.0@.contains('|'),
        !account_key_of(e).contains('|'),
    ensures
        split_on(bucket_text(e), '|') == seq![
            e.provider@,
            e.source_id.0@,
            account_key_of(e),
            day_key_of(e),
        ],
{
    reveal_strlit("|");
    assert("|"@ =~= seq!['|']);
    let p = seq![e.provider@, e.source_id.0@, account_key_of(e), day_key_of(e)];
    lemma_day_has_no_bar(e.session.started_at.day_spec());
    splitting_undoes_joining(p, '|');
    let p3 = p.drop_last();
    let p2 = p3.drop_last();
    let p1 = p2.drop_last();
    assert(p1.len() == 1 && p1[0] == e.provider@);
    assert(joined(p1, seq!['|']) == e.provider@);
    assert(joined(p2, seq!['|']) == e.provider@ + seq!['|'] + e.source_id.0@);
    assert(joined(p3, seq!['|']) == e.provider@ + seq!['|'] + e.source_id.0@ + seq!['|']
        + account_key_of(e));
    assert(joined(p, seq!['|']) == bucket_text(e));
}

/// An event begins on its day: not before its midnight, and before the next.
pub proof fn an_instant_lies_on_its_day(t: Timestamp)
    ensures
        t.day_spec() * 86_400 <= t.secs < (t.day_spec() + 1) * 86_400,
{
}

/// Every event's bucket has a rollup, no bucket has two, and there is none
/// without an event.
pub proof fn every_event_is_rolled_up(
    r: Seq<UsageSummary>,
    events: Seq<UsageEvent>,
    device: Seq<char>,
    now: Timestamp,
    n: int,
)
    requires
        events.len() < u64::MAX,
        r.len() == buckets_of(events).len(),
        forall|k: int|
            0 <= k < r.len() ==> rolls_up(
                #[trigger] r[k],
                events,
                buckets_of(events)[k],
                device,
                now,
            ),
        0 <= n < events.len(),
    ensures
        exists|k: int|
            0 <= k < r.len() && adds_up_events(
                #[trigger] r[k],
                events,
                |e: UsageEvent| bucket_text(e) == bucket_text(events[n]),
            ),
        forall|j: int, k: int|
            0 <= j < k < r.len() ==> #[trigger] buckets_of(events)[j] != #[trigger] buckets_of(
                events,
            )[k],
        r.len() <= events.len(),
{
    let all = buckets_of(events);
    rollups_count_every_event_once(events);
    lemma_every_bucket(events, n);
    let k = choose|k: int| 0 <= k < all.len() && all[k] == bucket_text(events[n]);
    a_rollup_is_the_sum_of_its_bucket(r[k], events, all[k], device, now);
    assert(adds_up_events(
        r[k],
        events,
        |e: UsageEvent| bucket_text(e) == bucket_text(events[n]),
    ));
    assert forall|j: int, k: int| 0 <= j < k < r.len() implies #[trigger] all[j] != #[trigger] all[k] by {
        assert(text_lt(all[j], all[k]));
        lemma_text_lt_irreflexive(all[j]);
    }
    assert forall|k: int| 0 <= k < all.len() implies exists|i: int|
        0 <= i < events.len() && bucket_text(#[trigger] events[i]) == #[trigger] all[k] by {
        lemma_bucket_has_event(events, k);
    }
    lemma_no_more_buckets(events, all);
}

proof fn lemma_no_more_buckets(events: Seq<UsageEvent>, buckets: Seq<Seq<char>>)
    requires
        events.len() < u64::MAX,
        rolled_events(events, buckets) <= events.len(),
        forall|k: int|
            0 <= k < buckets.len() ==> exists|i: int|
                0 <= i < events.len() && bucket_text(#[trigger] events[i])
                    == #[trigger] buckets[k],
    ensures
        buckets.len() <= rolled_events(events, buckets),
    decreases buckets.len(),
{
    if buckets.len() > 0 {
        let front = buckets.drop_last();
        let x = buckets.last();
        assert(buckets[buckets.len() - 1] == x);
        let i = choose|i: int| 0 <= i < events.len() && bucket_text(#[trigger] events[i]) == x;
        lemma_bucket_sums(events, x);
        let pick = |e: UsageEvent| bucket_text(e) == x;
        assert(pick(events[i]));
        lemma_picks_some(events, pick, i);
        assert forall|k: int| 0 <= k < front.len() implies exists|i: int|
            0 <= i < events.len() && bucket_text(#[trigger] events[i]) == #[trigger] front[k] by {
            assert(front[k] == buckets[k]);
        }
        lemma_no_more_buckets(events, front);
    }
}

} // verus!
