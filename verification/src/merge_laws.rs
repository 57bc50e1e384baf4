//! What merging two accounts leaves, and what stops no merge.
use crate::accounts::{assignments_to, events_of, provider_is, subscriptions_of, summaries_of};
use crate::assignments::{
    AssignmentPlan, connected, consistent, keeps_front, keeps_tail, lemma_overlap_places,
    overlap_places, overlaps_of, proper_window,
};
use crate::ids::ProviderAccountId;
use crate::merge::{
    Held, after_moves, after_plans, all_assignments, all_events, all_subscriptions, all_summaries,
    carried_out, events_moved, handed_over, lemma_assignments_to, lemma_carried_out,
    lemma_of_source, lemma_subscriptions_of, lemma_without, moves_records, moves_right, of_source,
    plans_right, records_moved, subscriptions_without, summaries_moved, with_all, without,
    without_all,
};
use crate::records::{
    ProviderAccount, SourceAccountAssignment, SourceLocation, Subscription, UsageEvent,
    UsageSummary,
};
use crate::report::find_source;
use crate::subscriptions::{SubscriptionMove, subscription_moved};
use crate::time::{Timestamp, last_instant};
use vstd::prelude::*;

verus! {

/// Whether every source's assignments are in order.
pub open spec fn all_consistent(v: Seq<SourceAccountAssignment>) -> bool {
    forall|source: Seq<char>| consistent(#[trigger] of_source(v, source))
}

/// Whether an assignment is of the target account, or was there before and is not
/// one of the first `n` that were handed over.
spec fn settled(
    x: SourceAccountAssignment,
    before: Seq<SourceAccountAssignment>,
    handed: Seq<SourceAccountAssignment>,
    to: Seq<char>,
    n: int,
) -> bool {
    ||| x.provider_account_id.0@ == to
    ||| before.contains(x) && forall|j: int| 0 <= j < n ==> x != #[trigger] handed[j]
}

proof fn lemma_settled_step(
    v: Seq<SourceAccountAssignment>,
    before: Seq<SourceAccountAssignment>,
    handed: Seq<SourceAccountAssignment>,
    source: SourceLocation,
    to: ProviderAccountId,
    now: Timestamp,
    p: AssignmentPlan,
    n: int,
    x: SourceAccountAssignment,
)
    requires
        0 <= n < handed.len(),
        all_consistent(before),
        before.contains(handed[n]),
        handed[n].provider_account_id.0@ != to.0@,
        forall|i: int| 0 <= i < v.len() ==> settled(#[trigger] v[i], before, handed, to.0@, n),
        connected(
            Ok(p),
            of_source(v, handed[n].source_id.0@),
            source,
            to,
            handed[n].started_at,
            handed[n].ended_at,
            now,
        ),
        if p.upserts@.len() == 0 {
            v.contains(x)
        } else {
            carried_out(v, p).contains(x)
        },
    ensures
        settled(x, before, handed, to.0@, n + 1),
{
    let a = handed[n];
    let id = a.source_id.0@;
    let own = of_source(v, id);
    let first = of_source(before, id);
    let o = overlaps_of(own, a.started_at, a.ended_at);
    lemma_of_source(v, id);
    lemma_of_source(before, id);
    lemma_overlap_places(own, a.started_at, a.ended_at, own.len() as int);
    assert(consistent(first));
    let b = choose|b: int| 0 <= b < before.len() && before[b] == a;
    assert(first.contains(a));
    let k = choose|k: int| 0 <= k < first.len() && first[k] == a;
    assert(a.overlaps(a.started_at, a.ended_at));
    // An assignment that gives way is this one, or is of the target account.
    if o.len() > 0 {
        let e = own[o[0]];
        assert(e.overlaps(a.started_at, a.ended_at));
        assert(v.contains(e) && e.source_id.0@ == id);
        let i = choose|i: int| 0 <= i < v.len() && v[i] == e;
        assert(settled(v[i], before, handed, to.0@, n));
        if e.provider_account_id.0@ != to.0@ && e != a {
            let c = choose|c: int| 0 <= c < before.len() && before[c] == e;
            assert(first.contains(e));
            let j = choose|j: int| 0 <= j < first.len() && first[j] == e;
            assert(!first[j].overlaps(first[k].started_at, first[k].ended_at));
        }
    }
    if p.upserts@.contains(x) {
        let u = choose|u: int| 0 <= u < p.upserts@.len() && p.upserts@[u] == x;
        if o.len() > 0 && own[o[0]].provider_account_id.0@ != to.0@ {
            assert(own[o[0]] == a);
            assert(!keeps_front(a, a.started_at));
            assert(!keeps_tail(a, a.ended_at));
        }
        assert(x.provider_account_id.0@ == to.0@);
    } else {
        if p.upserts@.len() > 0 {
            lemma_carried_out(v, p, x);
        }
        let i = choose|i: int| 0 <= i < v.len() && v[i] == x;
        assert(settled(v[i], before, handed, to.0@, n));
        if x == a {
            assert(own.contains(v[i]));
            let q = choose|q: int| 0 <= q < own.len() && own[q] == a;
            assert(own[q].overlaps(a.started_at, a.ended_at));
            assert(o.contains(q));
            assert(o[0] == q);
            assert(!keeps_front(a, a.started_at));
            assert(p.deletes@[0].0@ == a.assignment_id.0@);
        }
    }
}

proof fn lemma_settled(
    before: Held,
    sources: Seq<SourceLocation>,
    handed: Seq<SourceAccountAssignment>,
    to: ProviderAccount,
    now: Timestamp,
    plans: Seq<AssignmentPlan>,
    n: int,
)
    requires
        0 <= n <= plans.len(),
        plans_right(before, sources, handed, to, now, plans),
        all_consistent(before.assignments),
        forall|j: int|
            0 <= j < handed.len() ==> before.assignments.contains(#[trigger] handed[j])
                && handed[j].provider_account_id.0@ != to.provider_account_id.0@,
    ensures
        forall|i: int|
            0 <= i < after_plans(before, handed, plans, n).assignments.len() ==> settled(
                #[trigger] after_plans(before, handed, plans, n).assignments[i],
                before.assignments,
                handed,
                to.provider_account_id.0@,
                n,
            ),
    decreases n,
{
    if n > 0 {
        lemma_settled(before, sources, handed, to, now, plans, n - 1);
        let v = after_plans(before, handed, plans, n - 1).assignments;
        let w = after_plans(before, handed, plans, n).assignments;
        let p = plans[n - 1];
        let a = handed[n - 1];
        assert(handed_over(
            Ok(p),
            after_plans(before, handed, plans, n - 1),
            sources,
            a,
            to,
            now,
        ));
        assert(before.assignments.contains(a));
        assert forall|i: int| 0 <= i < w.len() implies settled(
            #[trigger] w[i],
            before.assignments,
            handed,
            to.provider_account_id.0@,
            n,
        ) by {
            assert(w.contains(w[i]));
            lemma_settled_step(
                v,
                before.assignments,
                handed,
                find_source(sources, a.source_id.0@)->0,
                to.provider_account_id,
                now,
                p,
                n - 1,
                w[i],
            );
        }
    } else {
        assert forall|i: int| 0 <= i < before.assignments.len() implies settled(
            #[trigger] before.assignments[i],
            before.assignments,
            handed,
            to.provider_account_id.0@,
            0,
        ) by {
            assert(before.assignments.contains(before.assignments[i]));
        }
    }
}

proof fn lemma_no_assignment(
    v: Seq<SourceAccountAssignment>,
    account: Seq<char>,
    provider: Option<Seq<char>>,
    n: int,
)
    requires
        0 <= n <= v.len(),
        forall|i: int|
            0 <= i < v.len() ==> !((#[trigger] v[i]).provider_account_id.0@ == account
                && provider_is(v[i].provider@, provider)),
    ensures
        assignments_to(v, account, provider, n).len() == 0,
    decreases n,
{
    if n > 0 {
        lemma_no_assignment(v, account, provider, n - 1);
        assert(!(v[n - 1].provider_account_id.0@ == account && provider_is(
            v[n - 1].provider@,
            provider,
        )));
    }
}

proof fn lemma_no_subscription(
    v: Seq<Subscription>,
    account: Seq<char>,
    provider: Option<Seq<char>>,
    n: int,
)
    requires
        0 <= n <= v.len(),
        forall|i: int|
            0 <= i < v.len() ==> !((#[trigger] v[i]).provider_account_id.0@ == account
                && provider_is(v[i].provider@, provider)),
    ensures
        subscriptions_of(v, account, provider, n).len() == 0,
    decreases n,
{
    if n > 0 {
        lemma_no_subscription(v, account, provider, n - 1);
        assert(!(v[n - 1].provider_account_id.0@ == account && provider_is(
            v[n - 1].provider@,
            provider,
        )));
    }
}

proof fn lemma_no_event(
    v: Seq<UsageEvent>,
    provider: Seq<char>,
    from: Seq<char>,
    to: ProviderAccountId,
    n: int,
)
    requires
        0 <= n <= v.len(),
        from != to.0@,
    ensures
        events_of(events_moved(v, provider, from, to), from, Some(provider), n).len() == 0,
    decreases n,
{
    if n > 0 {
        lemma_no_event(v, provider, from, to, n - 1);
    }
}

proof fn lemma_no_summary(
    v: Seq<UsageSummary>,
    provider: Seq<char>,
    from: Seq<char>,
    to: ProviderAccountId,
    n: int,
)
    requires
        0 <= n <= v.len(),
        from != to.0@,
    ensures
        summaries_of(summaries_moved(v, provider, from, to), from, Some(provider), n).len() == 0,
    decreases n,
{
    if n > 0 {
        lemma_no_summary(v, provider, from, to, n - 1);
    }
}

proof fn lemma_subscriptions_without(v: Seq<Subscription>, id: Seq<char>)
    ensures
        forall|i: int|
            0 <= i < subscriptions_without(v, id).len() ==> v.contains(
                #[trigger] subscriptions_without(v, id)[i],
            ) && subscriptions_without(v, id)[i].subscription_id.0@ != id,
    decreases v.len(),
{
    reveal(Seq::filter);
    if v.len() > 0 {
        let w = v.drop_last();
        lemma_subscriptions_without(w, id);
        let before = subscriptions_without(w, id);
        let now = subscriptions_without(v, id);
        assert forall|i: int| 0 <= i < now.len() implies v.contains(#[trigger] now[i])
            && now[i].subscription_id.0@ != id by {
            if i < before.len() {
                assert(now[i] == before[i]);
                let k = choose|k: int| 0 <= k < w.len() && w[k] == before[i];
                assert(v[k] == now[i]);
            } else {
                assert(v[v.len() - 1] == now[i]);
            }
        }
    }
}

/// Whether a subscription is of the target account, or was there before and is not
/// one of the first `n` that were moved.
spec fn rehomed(
    x: Subscription,
    before: Seq<Subscription>,
    moved: Seq<Subscription>,
    to: Seq<char>,
    n: int,
) -> bool {
    ||| x.provider_account_id.0@ == to
    ||| before.contains(x) && forall|j: int| 0 <= j < n ==> x != #[trigger] moved[j]
}

proof fn lemma_rehomed(
    before: Seq<Subscription>,
    moved: Seq<Subscription>,
    to: ProviderAccount,
    moves: Seq<SubscriptionMove>,
    n: int,
)
    requires
        0 <= n <= moves.len(),
        moves_right(before, moved, to, moves),
    ensures
        forall|i: int|
            0 <= i < after_moves(before, moved, moves, n).len() ==> rehomed(
                #[trigger] after_moves(before, moved, moves, n)[i],
                before,
                moved,
                to.provider_account_id.0@,
                n,
            ),
    decreases n,
{
    let id = to.provider_account_id.0@;
    if n > 0 {
        lemma_rehomed(before, moved, to, moves, n - 1);
        let v = after_moves(before, moved, moves, n - 1);
        let w = after_moves(before, moved, moves, n);
        let m = moves[n - 1];
        let s = moved[n - 1];
        assert(subscription_moved(Ok(m), v, s, to.provider_account_id));
        let left = if m.delete_old {
            subscriptions_without(v, s.subscription_id.0@)
        } else {
            v
        };
        lemma_subscriptions_without(v, s.subscription_id.0@);
        lemma_subscriptions_without(left, m.subscription.subscription_id.0@);
        assert forall|i: int| 0 <= i < w.len() implies rehomed(#[trigger] w[i], before, moved, id, n) by {
            let x = w[i];
            if m.write && i == w.len() - 1 {
                assert(x == m.subscription);
            } else {
                if m.write {
                    assert(subscriptions_without(
                        left,
                        m.subscription.subscription_id.0@,
                    )[i] == x);
                    assert(left.contains(x));
                } else {
                    assert(left[i] == x);
                }
                let k = choose|k: int| 0 <= k < left.len() && left[k] == x;
                assert(left[k] == x);
                assert(v.contains(x));
                let q = choose|q: int| 0 <= q < v.len() && v[q] == x;
                assert(rehomed(v[q], before, moved, id, n - 1));
                assert(x.subscription_id.0@ != s.subscription_id.0@);
            }
        }
    } else {
        assert forall|i: int| 0 <= i < before.len() implies rehomed(
            #[trigger] before[i],
            before,
            moved,
            id,
            0,
        ) by {
            assert(before.contains(before[i]));
        }
    }
}

proof fn lemma_plans_keep_subscriptions(
    h: Held,
    assignments: Seq<SourceAccountAssignment>,
    plans: Seq<AssignmentPlan>,
    n: int,
)
    ensures
        after_plans(h, assignments, plans, n).subscriptions == h.subscriptions,
    decreases n,
{
    if n > 0 {
        lemma_plans_keep_subscriptions(h, assignments, plans, n - 1);
    }
}

/// A merge that goes through leaves no subscription, no event and no summary of
/// the provider that refers to the account, and no assignment either where every
/// source's assignments were in order.
pub proof fn merging_leaves_no_reference(
    before: Held,
    after: Held,
    sources: Seq<SourceLocation>,
    provider: Seq<char>,
    from: ProviderAccountId,
    to: ProviderAccount,
    now: Timestamp,
)
    requires
        from.0@ != to.provider_account_id.0@,
        records_moved(before, after, Ok(()), sources, provider, from, to, now),
    ensures
        all_subscriptions(after, provider, from.0@).len() == 0,
        all_events(after, provider, from.0@).len() == 0,
        all_summaries(after, provider, from.0@).len() == 0,
        all_consistent(before.assignments) ==> all_assignments(after, provider, from.0@).len() == 0,
{
    reveal(records_moved);
    let (plans, moves) = choose|plans: Seq<AssignmentPlan>, moves: Seq<SubscriptionMove>| #[trigger]
        moves_records(before, after, Ok(()), sources, provider, from, to, now, plans, moves);
    let handed = all_assignments(before, provider, from.0@);
    let moved = all_subscriptions(before, provider, from.0@);
    let mid = after_plans(before, handed, plans, plans.len() as int);
    let count = before.assignments.len() as int;
    lemma_plans_keep_subscriptions(before, handed, plans, plans.len() as int);
    lemma_subscriptions_of(
        before.subscriptions,
        from.0@,
        Some(provider),
        before.subscriptions.len() as int,
    );
    lemma_rehomed(before.subscriptions, moved, to, moves, moves.len() as int);
    assert forall|i: int| 0 <= i < after.subscriptions.len() implies !((
    #[trigger] after.subscriptions[i]).provider_account_id.0@ == from.0@ && provider_is(
        after.subscriptions[i].provider@,
        Some(provider),
    )) by {
        let x = after.subscriptions[i];
        assert(rehomed(
            x,
            before.subscriptions,
            moved,
            to.provider_account_id.0@,
            moves.len() as int,
        ));
        if x.provider_account_id.0@ == from.0@ && provider_is(x.provider@, Some(provider)) {
            let k = choose|k: int| 0 <= k < before.subscriptions.len() && before.subscriptions[k] == x;
            assert(moved.contains(before.subscriptions[k]));
            let j = choose|j: int| 0 <= j < moved.len() && moved[j] == x;
            assert(x != moved[j]);
        }
    }
    lemma_no_subscription(
        after.subscriptions,
        from.0@,
        Some(provider),
        after.subscriptions.len() as int,
    );
    lemma_no_event(
        mid.events,
        provider,
        from.0@,
        to.provider_account_id,
        mid.events.len() as int,
    );
    lemma_no_summary(
        mid.summaries,
        provider,
        from.0@,
        to.provider_account_id,
        mid.summaries.len() as int,
    );
    if all_consistent(before.assignments) {
        lemma_assignments_to(before.assignments, from.0@, Some(provider), count);
        lemma_settled(before, sources, handed, to, now, plans, plans.len() as int);
        assert forall|i: int| 0 <= i < after.assignments.len() implies !((
        #[trigger] after.assignments[i]).provider_account_id.0@ == from.0@ && provider_is(
            after.assignments[i].provider@,
            Some(provider),
        )) by {
            let x = after.assignments[i];
            assert(settled(
                x,
                before.assignments,
                handed,
                to.provider_account_id.0@,
                plans.len() as int,
            ));
            if x.provider_account_id.0@ == from.0@ && provider_is(x.provider@, Some(provider)) {
                let k = choose|k: int| 0 <= k < before.assignments.len() && before.assignments[k] == x;
                assert(handed.contains(before.assignments[k]));
                let j = choose|j: int| 0 <= j < handed.len() && handed[j] == x;
                assert(x != handed[j]);
            }
        }
        lemma_no_assignment(
            after.assignments,
            from.0@,
            Some(provider),
            after.assignments.len() as int,
        );
    }
}

// ---------------------------------------------------------------------------
// What stops no merge
// ---------------------------------------------------------------------------

/// Whether no two assignments of one source overlap.
spec fn apart(v: Seq<SourceAccountAssignment>) -> bool {
    forall|i: int, j: int|
        0 <= i < v.len() && 0 <= j < v.len() && i != j && (#[trigger] v[i]).source_id.0@ == (
        #[trigger] v[j]).source_id.0@ ==> !v[i].overlaps(v[j].started_at, v[j].ended_at)
}

proof fn lemma_consistent_apart(v: Seq<SourceAccountAssignment>)
    requires
        all_consistent(v),
    ensures
        apart(v),
    decreases v.len(),
{
    reveal(Seq::filter);
    if v.len() > 0 {
        let w = v.drop_last();
        let x = v.last();
        assert(all_consistent(w)) by {
            assert forall|source: Seq<char>| consistent(#[trigger] of_source(w, source)) by {
                let whole = of_source(v, source);
                let part = of_source(w, source);
                assert(consistent(whole));
                assert forall|i: int| 0 <= i < part.len() implies part[i] == whole[i] by {}
                assert forall|i: int| 0 <= i < part.len() implies proper_window(
                    (#[trigger] part[i]).started_at,
                    part[i].ended_at,
                ) && part[i].started_at.at() < last_instant().at() by {
                    assert(whole[i] == part[i]);
                }
                assert forall|i: int, j: int|
                    0 <= i < part.len() && 0 <= j < part.len() && i != j implies !(
                #[trigger] part[i]).overlaps((#[trigger] part[j]).started_at, part[j].ended_at)
                    && part[i].assignment_id.0@ != part[j].assignment_id.0@ by {
                    assert(whole[i] == part[i] && whole[j] == part[j]);
                }
            }
        }
        lemma_consistent_apart(w);
        let whole = of_source(v, x.source_id.0@);
        let part = of_source(w, x.source_id.0@);
        assert(consistent(whole));
        assert(whole == part.push(x));
        lemma_of_source(w, x.source_id.0@);
        assert forall|i: int, j: int|
            0 <= i < v.len() && 0 <= j < v.len() && i != j && (#[trigger] v[i]).source_id.0@ == (
            #[trigger] v[j]).source_id.0@ implies !v[i].overlaps(v[j].started_at, v[j].ended_at) by {
            if i == v.len() - 1 || j == v.len() - 1 {
                let k = if i == v.len() - 1 {
                    j
                } else {
                    i
                };
                assert(w[k] == v[k]);
                assert(part.contains(w[k]));
                let q = choose|q: int| 0 <= q < part.len() && part[q] == w[k];
                assert(whole[q] == v[k]);
                assert(whole[part.len() as int] == x);
                assert(!whole[q].overlaps(x.started_at, x.ended_at));
            } else {
                assert(w[i] == v[i] && w[j] == v[j]);
            }
        }
    }
}

proof fn lemma_without_apart(v: Seq<SourceAccountAssignment>, id: Seq<char>)
    requires
        apart(v),
    ensures
        apart(without(v, id)),
    decreases v.len(),
{
    reveal(Seq::filter);
    if v.len() > 0 {
        let w = v.drop_last();
        assert(apart(w)) by {
            assert forall|i: int, j: int|
                0 <= i < w.len() && 0 <= j < w.len() && i != j && (#[trigger] w[i]).source_id.0@
                    == (#[trigger] w[j]).source_id.0@ implies !w[i].overlaps(
                w[j].started_at,
                w[j].ended_at,
            ) by {
                assert(w[i] == v[i] && w[j] == v[j]);
            }
        }
        lemma_without_apart(w, id);
        lemma_without(w, id);
        lemma_pushed_apart(without(w, id), w, v.last());
    }
}

/// An assignment that overlaps none of `v` overlaps none of those left of it.
proof fn lemma_pushed_apart(
    left: Seq<SourceAccountAssignment>,
    v: Seq<SourceAccountAssignment>,
    x: SourceAccountAssignment,
)
    requires
        apart(left),
        forall|i: int| 0 <= i < left.len() ==> v.contains(#[trigger] left[i]),
        forall|i: int|
            0 <= i < v.len() && (#[trigger] v[i]).source_id.0@ == x.source_id.0@
                && left.contains(v[i]) ==> !v[i].overlaps(x.started_at, x.ended_at),
    ensures
        apart(left.push(x)),
{
    let w = left.push(x);
    assert forall|i: int, j: int|
        0 <= i < w.len() && 0 <= j < w.len() && i != j && (#[trigger] w[i]).source_id.0@ == (
        #[trigger] w[j]).source_id.0@ implies !w[i].overlaps(w[j].started_at, w[j].ended_at) by {
        if i < left.len() && j < left.len() {
            assert(w[i] == left[i] && w[j] == left[j]);
        } else {
            let k = if i < left.len() {
                i
            } else {
                j
            };
            assert(w[k] == left[k]);
            assert(v.contains(left[k]));
            let q = choose|q: int| 0 <= q < v.len() && v[q] == left[k];
            assert(left.contains(v[q]));
            assert(!v[q].overlaps(x.started_at, x.ended_at));
        }
    }
}

proof fn lemma_of_source_apart(v: Seq<SourceAccountAssignment>, source: Seq<char>)
    requires
        apart(v),
    ensures
        apart(of_source(v, source)),
    decreases v.len(),
{
    reveal(Seq::filter);
    if v.len() > 0 {
        let w = v.drop_last();
        assert(apart(w)) by {
            assert forall|i: int, j: int|
                0 <= i < w.len() && 0 <= j < w.len() && i != j && (#[trigger] w[i]).source_id.0@
                    == (#[trigger] w[j]).source_id.0@ implies !w[i].overlaps(
                w[j].started_at,
                w[j].ended_at,
            ) by {
                assert(w[i] == v[i] && w[j] == v[j]);
            }
        }
        lemma_of_source_apart(w, source);
        lemma_of_source(w, source);
        lemma_pushed_apart(of_source(w, source), w, v.last());
    }
}

proof fn lemma_account_apart(
    v: Seq<SourceAccountAssignment>,
    account: Seq<char>,
    provider: Option<Seq<char>>,
    n: int,
)
    requires
        apart(v),
        0 <= n <= v.len(),
    ensures
        apart(assignments_to(v, account, provider, n)),
        forall|i: int|
            0 <= i < assignments_to(v, account, provider, n).len() ==> v.take(n).contains(
                #[trigger] assignments_to(v, account, provider, n)[i],
            ),
    decreases n,
{
    if n > 0 {
        lemma_account_apart(v, account, provider, n - 1);
        let before = assignments_to(v, account, provider, n - 1);
        let now = assignments_to(v, account, provider, n);
        let w = v.take(n - 1);
        assert forall|i: int|
            0 <= i < w.len() && (#[trigger] w[i]).source_id.0@ == v[n - 1].source_id.0@
                && before.contains(w[i]) implies !w[i].overlaps(
            v[n - 1].started_at,
            v[n - 1].ended_at,
        ) by {
            assert(w[i] == v[i]);
        }
        lemma_pushed_apart(before, w, v[n - 1]);
        assert forall|i: int| 0 <= i < now.len() implies v.take(n).contains(#[trigger] now[i]) by {
            if i < before.len() {
                assert(now[i] == before[i]);
                let k = choose|k: int| 0 <= k < w.len() && w[k] == before[i];
                assert(v.take(n)[k] == now[i]);
            } else {
                assert(v.take(n)[n - 1] == now[i]);
            }
        }
    }
}

/// Whether an assignment was there before, or stands for one of the first `n`
/// that were handed over.
spec fn stands_for(
    x: SourceAccountAssignment,
    before: Seq<SourceAccountAssignment>,
    handed: Seq<SourceAccountAssignment>,
    n: int,
) -> bool {
    ||| before.contains(x)
    ||| exists|j: int|
        0 <= j < n && x.source_id.0@ == (#[trigger] handed[j]).source_id.0@ && x.started_at
            == handed[j].started_at && x.ended_at == handed[j].ended_at
}

/// The only assignment that overlaps the next one to hand over is that one.
proof fn lemma_only_itself(
    before: Seq<SourceAccountAssignment>,
    handed: Seq<SourceAccountAssignment>,
    n: int,
    x: SourceAccountAssignment,
)
    requires
        0 <= n < handed.len(),
        apart(before),
        apart(handed),
        before.contains(handed[n]),
        stands_for(x, before, handed, n),
        x.source_id.0@ == handed[n].source_id.0@,
        x.overlaps(handed[n].started_at, handed[n].ended_at),
    ensures
        x == handed[n],
{
    let a = handed[n];
    if before.contains(x) {
        let p = choose|p: int| 0 <= p < before.len() && before[p] == x;
        let q = choose|q: int| 0 <= q < before.len() && before[q] == a;
        if p != q {
            assert(!before[p].overlaps(before[q].started_at, before[q].ended_at));
        }
    } else {
        let j = choose|j: int|
            0 <= j < n && x.source_id.0@ == (#[trigger] handed[j]).source_id.0@ && x.started_at
                == handed[j].started_at && x.ended_at == handed[j].ended_at;
        assert(!handed[j].overlaps(handed[n].started_at, handed[n].ended_at));
    }
}

proof fn lemma_places_increase(
    v: Seq<SourceAccountAssignment>,
    start: Timestamp,
    end: Option<Timestamp>,
    n: int,
)
    requires
        0 <= n <= v.len(),
    ensures
        forall|i: int, j: int|
            0 <= i < j < overlap_places(v, start, end, n).len() ==> (#[trigger] overlap_places(
                v,
                start,
                end,
                n,
            )[i]) < (#[trigger] overlap_places(v, start, end, n)[j]),
    decreases n,
{
    if n > 0 {
        lemma_places_increase(v, start, end, n - 1);
        lemma_overlap_places(v, start, end, n - 1);
        let before = overlap_places(v, start, end, n - 1);
        let places = overlap_places(v, start, end, n);
        assert forall|i: int, j: int| 0 <= i < j < places.len() implies (#[trigger] places[i]) < (
        #[trigger] places[j]) by {
            assert(places[i] == before[i]);
            if j < before.len() {
                assert(places[j] == before[j]);
            }
        }
    }
}

/// At most the next assignment to hand over overlaps its own period.
proof fn lemma_one_overlap(
    v: Seq<SourceAccountAssignment>,
    before: Seq<SourceAccountAssignment>,
    handed: Seq<SourceAccountAssignment>,
    n: int,
)
    requires
        0 <= n < handed.len(),
        all_consistent(before),
        apart(before),
        apart(handed),
        before.contains(handed[n]),
        apart(v),
        forall|i: int| 0 <= i < v.len() ==> stands_for(#[trigger] v[i], before, handed, n),
    ensures
        ({
            let a = handed[n];
            let own = of_source(v, a.source_id.0@);
            let o = overlaps_of(own, a.started_at, a.ended_at);
            &&& proper_window(a.started_at, a.ended_at)
            &&& o.len() <= 1
            &&& o.len() == 1 ==> 0 <= o[0] < own.len() && own[o[0]] == a
        }),
{
    let a = handed[n];
    let id = a.source_id.0@;
    let own = of_source(v, id);
    let o = overlaps_of(own, a.started_at, a.ended_at);
    lemma_of_source(v, id);
    lemma_of_source(before, id);
    lemma_of_source_apart(v, id);
    lemma_overlap_places(own, a.started_at, a.ended_at, own.len() as int);
    lemma_places_increase(own, a.started_at, a.ended_at, own.len() as int);
    let first = of_source(before, id);
    assert(consistent(first));
    let b = choose|b: int| 0 <= b < before.len() && before[b] == a;
    assert(first.contains(before[b]));
    let k = choose|k: int| 0 <= k < first.len() && first[k] == a;
    assert(proper_window(first[k].started_at, first[k].ended_at));
    assert(a.overlaps(a.started_at, a.ended_at));
    assert forall|q: int| 0 <= q < own.len() && (#[trigger] own[q]).overlaps(
        a.started_at,
        a.ended_at,
    ) implies own[q] == a by {
        assert(v.contains(own[q]));
        let i = choose|i: int| 0 <= i < v.len() && v[i] == own[q];
        assert(stands_for(v[i], before, handed, n));
        lemma_only_itself(before, handed, n, own[q]);
    }
    if o.len() > 0 {
        assert(own[o[0]] == a);
    }
    if o.len() > 1 {
        assert(o[0] < o[1]);
        assert(own[o[1]] == a);
        assert(!own[o[0]].overlaps(own[o[1]].started_at, own[o[1]].ended_at));
    }
}

proof fn lemma_find_source(sources: Seq<SourceLocation>, id: Seq<char>)
    ensures
        find_source(sources, id) matches Some(s) ==> s.source_id.0@ == id,
    decreases sources.len(),
{
    if sources.len() > 0 {
        lemma_find_source(sources.drop_last(), id);
    }
}

proof fn lemma_handed_apart(
    before: Held,
    sources: Seq<SourceLocation>,
    handed: Seq<SourceAccountAssignment>,
    to: ProviderAccount,
    now: Timestamp,
    plans: Seq<AssignmentPlan>,
    n: int,
)
    requires
        0 <= n <= plans.len(),
        plans_right(before, sources, handed, to, now, plans),
        all_consistent(before.assignments),
        apart(before.assignments),
        apart(handed),
        forall|j: int|
            0 <= j < handed.len() ==> before.assignments.contains(#[trigger] handed[j])
                && handed[j].provider_account_id.0@ != to.provider_account_id.0@,
    ensures
        apart(after_plans(before, handed, plans, n).assignments),
        forall|i: int|
            0 <= i < after_plans(before, handed, plans, n).assignments.len() ==> stands_for(
                #[trigger] after_plans(before, handed, plans, n).assignments[i],
                before.assignments,
                handed,
                n,
            ),
    decreases n,
{
    if n <= 0 {
        assert forall|i: int| 0 <= i < before.assignments.len() implies stands_for(
            #[trigger] before.assignments[i],
            before.assignments,
            handed,
            n,
        ) by {
            assert(before.assignments.contains(before.assignments[i]));
        }
    } else {
        lemma_handed_apart(before, sources, handed, to, now, plans, n - 1);
        let h = after_plans(before, handed, plans, n - 1);
        let v = h.assignments;
        let w = after_plans(before, handed, plans, n).assignments;
        let p = plans[n - 1];
        let a = handed[n - 1];
        let id = a.source_id.0@;
        let own = of_source(v, id);
        let o = overlaps_of(own, a.started_at, a.ended_at);
        assert(handed_over(Ok(p), h, sources, a, to, now));
        assert(before.assignments.contains(a));
        lemma_find_source(sources, id);
        lemma_one_overlap(v, before.assignments, handed, n - 1);
        lemma_of_source(v, id);
        lemma_overlap_places(own, a.started_at, a.ended_at, own.len() as int);
        if o.len() == 1 {
            assert(!keeps_front(a, a.started_at));
            assert(!keeps_tail(a, a.ended_at));
            assert(p.deletes@ == seq![a.assignment_id]);
        }
        let x = p.assignment;
        assert(p.upserts@ == seq![x]);
        assert(x.source_id.0@ == id && x.started_at == a.started_at && x.ended_at == a.ended_at);
        let left = without_all(v, p.deletes@, p.deletes@.len() as int);
        if o.len() == 1 {
            assert(without_all(v, p.deletes@, 0) == v);
            assert(left == without(v, a.assignment_id.0@));
            lemma_without_apart(v, a.assignment_id.0@);
            lemma_without(v, a.assignment_id.0@);
        } else {
            assert(left == v);
            assert forall|i: int| 0 <= i < left.len() implies v.contains(#[trigger] left[i]) by {}
        }
        let rest = without(left, x.assignment_id.0@);
        lemma_without_apart(left, x.assignment_id.0@);
        lemma_without(left, x.assignment_id.0@);
        assert(with_all(left, p.upserts@, 0) == left);
        assert(w == rest.push(x));
        assert forall|i: int| 0 <= i < rest.len() implies v.contains(#[trigger] rest[i])
            && left.contains(rest[i]) by {
            assert(left.contains(rest[i]));
            let k = choose|k: int| 0 <= k < left.len() && left[k] == rest[i];
            assert(v.contains(left[k]));
        }
        assert forall|i: int|
            0 <= i < v.len() && (#[trigger] v[i]).source_id.0@ == x.source_id.0@ && rest.contains(
                v[i],
            ) implies !v[i].overlaps(x.started_at, x.ended_at) by {
            if v[i].overlaps(a.started_at, a.ended_at) {
                assert(own.contains(v[i]));
                let q = choose|q: int| 0 <= q < own.len() && own[q] == v[i];
                assert(own[q].overlaps(a.started_at, a.ended_at));
                assert(o.contains(q));
                assert(v[i] == a);
                let r = choose|r: int| 0 <= r < rest.len() && rest[r] == v[i];
                assert(left.contains(rest[r]));
                let k = choose|k: int| 0 <= k < left.len() && left[k] == a;
                assert(left[k].assignment_id.0@ != a.assignment_id.0@);
            }
        }
        lemma_pushed_apart(rest, v, x);
        assert forall|i: int| 0 <= i < w.len() implies stands_for(
            #[trigger] w[i],
            before.assignments,
            handed,
            n,
        ) by {
            if i < rest.len() {
                assert(w[i] == rest[i]);
                assert(v.contains(rest[i]));
                let k = choose|k: int| 0 <= k < v.len() && v[k] == rest[i];
                assert(stands_for(v[k], before.assignments, handed, n - 1));
            } else {
                assert(w[i] == x);
                assert(x.source_id.0@ == handed[n - 1].source_id.0@);
            }
        }
    }
}

/// Where every source's assignments are in order, they never stop a merge: an
/// assignment is handed over unless its source is unknown or of another provider.
pub proof fn assignments_in_order_are_handed_over(
    before: Held,
    sources: Seq<SourceLocation>,
    provider: Seq<char>,
    from: ProviderAccountId,
    to: ProviderAccount,
    now: Timestamp,
    plans: Seq<AssignmentPlan>,
    e: String,
)
    requires
        from.0@ != to.provider_account_id.0@,
        all_consistent(before.assignments),
        plans_right(
            before,
            sources,
            all_assignments(before, provider, from.0@),
            to,
            now,
            plans,
        ),
        plans.len() < all_assignments(before, provider, from.0@).len(),
        handed_over(
            Err(e),
            after_plans(
                before,
                all_assignments(before, provider, from.0@),
                plans,
                plans.len() as int,
            ),
            sources,
            all_assignments(before, provider, from.0@)[plans.len() as int],
            to,
            now,
        ),
    ensures
        match find_source(
            sources,
            all_assignments(before, provider, from.0@)[plans.len() as int].source_id.0@,
        ) {
            Some(s) => s.provider@ != to.provider@,
            None => true,
        },
{
    let handed = all_assignments(before, provider, from.0@);
    let n = plans.len() as int;
    let count = before.assignments.len() as int;
    lemma_consistent_apart(before.assignments);
    lemma_assignments_to(before.assignments, from.0@, Some(provider), count);
    lemma_account_apart(before.assignments, from.0@, Some(provider), count);
    lemma_handed_apart(before, sources, handed, to, now, plans, n);
    assert(before.assignments.contains(handed[n]));
    lemma_one_overlap(
        after_plans(before, handed, plans, n).assignments,
        before.assignments,
        handed,
        n,
    );
}

} // verus!
