//! Merging two accounts of a provider into one, and removing an account.
use crate::accounts::{
    AccountReferenceCounts, account_assignments, account_reference_counts, account_subscriptions,
    assignments_to, check_account_removal, ensure_account_matches_provider, events_of, provider_is,
    resolve_existing_provider_account_selector, selection, selection_error, still_referenced_text,
    subscriptions_of, summaries_of, wrong_provider_text,
};
use crate::assignments::{
    AssignmentPlan, apply_account_resolution_to_event, apply_account_resolution_to_summary,
    assignments_wf, connect_source_to_account, connected, evidence_with, lemma_overlap_places,
    overlaps_of, resolved_event, resolved_summary,
};
use crate::ids::{ProviderAccountId, SourceAccountAssignmentId, SourceId, SubscriptionId};
use crate::merge_laws::{all_consistent, merging_leaves_no_reference};
use crate::records::{
    IdentitySource, ParseEvidence, ProviderAccount, SourceAccountAssignment, SourceLocation,
    Subscription, UsageEvent, UsageSummary, account_name, account_text, display_account_identity,
    is_account,
};
use crate::report::{find_source, source_by_id};
use crate::subscriptions::{SubscriptionMove, move_subscription_to_account, subscription_moved};
use crate::text::{concat2, same_text};
use crate::time::{Timestamp, opt_wf};
use vstd::prelude::*;

verus! {

/// The records that refer to accounts.
#[derive(Debug, Clone, PartialEq, Eq)]
pub struct AccountRecords {
    pub assignments: Vec<SourceAccountAssignment>,
    pub subscriptions: Vec<Subscription>,
    pub events: Vec<UsageEvent>,
    pub summaries: Vec<UsageSummary>,
}

/// The records that refer to accounts, as contracts speak of them.
pub struct Held {
    pub assignments: Seq<SourceAccountAssignment>,
    pub subscriptions: Seq<Subscription>,
    pub events: Seq<UsageEvent>,
    pub summaries: Seq<UsageSummary>,
}

impl View for AccountRecords {
    type V = Held;

    open spec fn view(&self) -> Held {
        Held {
            assignments: self.assignments@,
            subscriptions: self.subscriptions@,
            events: self.events@,
            summaries: self.summaries@,
        }
    }
}

// ---------------------------------------------------------------------------
// Carrying plans out
// ---------------------------------------------------------------------------

/// The assignments of one source.
pub open spec fn of_source(v: Seq<SourceAccountAssignment>, source: Seq<char>) -> Seq<
    SourceAccountAssignment,
> {
    v.filter(|a: SourceAccountAssignment| a.source_id.0@ == source)
}

/// The assignments but those with the identifier.
pub open spec fn without(v: Seq<SourceAccountAssignment>, id: Seq<char>) -> Seq<
    SourceAccountAssignment,
> {
    v.filter(|a: SourceAccountAssignment| a.assignment_id.0@ != id)
}

pub open spec fn without_all(
    v: Seq<SourceAccountAssignment>,
    ids: Seq<SourceAccountAssignmentId>,
    n: int,
) -> Seq<SourceAccountAssignment>
    decreases n,
{
    if n <= 0 {
        v
    } else {
        without(without_all(v, ids, n - 1), ids[n - 1].0@)
    }
}

/// The assignments with the first `n` of `written` in place of those that have
/// their identifiers.
pub open spec fn with_all(
    v: Seq<SourceAccountAssignment>,
    written: Seq<SourceAccountAssignment>,
    n: int,
) -> Seq<SourceAccountAssignment>
    decreases n,
{
    if n <= 0 {
        v
    } else {
        without(with_all(v, written, n - 1), written[n - 1].assignment_id.0@).push(written[n - 1])
    }
}

/// The assignments once a plan is carried out: what it deletes goes, what it
/// writes takes the place of what has the identifier.
pub open spec fn carried_out(v: Seq<SourceAccountAssignment>, p: AssignmentPlan) -> Seq<
    SourceAccountAssignment,
> {
    with_all(
        without_all(v, p.deletes@, p.deletes@.len() as int),
        p.upserts@,
        p.upserts@.len() as int,
    )
}

pub fn source_assignments(v: &[SourceAccountAssignment], source: &SourceId) -> (r: Vec<
    SourceAccountAssignment,
>)
    ensures
        r@ == of_source(v@, source.0@),
{
    let mut out: Vec<SourceAccountAssignment> = Vec::new();
    let mut i: usize = 0;
    proof {
        reveal(Seq::filter);
        assert(v@.take(0) =~= Seq::empty());
    }
    while i < v.len()
        invariant
            i <= v.len(),
            out@ == of_source(v@.take(i as int), source.0@),
        decreases v.len() - i,
    {
        proof {
            reveal(Seq::filter);
            assert(v@.take(i + 1).drop_last() =~= v@.take(i as int));
            assert(v@.take(i + 1).last() == v@[i as int]);
        }
        if same_text(v[i].source_id.0.as_str(), source.0.as_str()) {
            out.push(v[i].clone());
        }
        i = i + 1;
    }
    proof {
        assert(v@.take(i as int) =~= v@);
    }
    out
}

fn without_assignment(v: &[SourceAccountAssignment], id: &SourceAccountAssignmentId) -> (r: Vec<
    SourceAccountAssignment,
>)
    ensures
        r@ == without(v@, id.0@),
{
    let mut out: Vec<SourceAccountAssignment> = Vec::new();
    let mut i: usize = 0;
    proof {
        reveal(Seq::filter);
        assert(v@.take(0) =~= Seq::empty());
    }
    while i < v.len()
        invariant
            i <= v.len(),
            out@ == without(v@.take(i as int), id.0@),
        decreases v.len() - i,
    {
        proof {
            reveal(Seq::filter);
            assert(v@.take(i + 1).drop_last() =~= v@.take(i as int));
            assert(v@.take(i + 1).last() == v@[i as int]);
        }
        if !same_text(v[i].assignment_id.0.as_str(), id.0.as_str()) {
            out.push(v[i].clone());
        }
        i = i + 1;
    }
    proof {
        assert(v@.take(i as int) =~= v@);
    }
    out
}

/// Carries a plan out on the assignments of all sources.
pub fn carry_out_assignment_plan(v: &[SourceAccountAssignment], plan: &AssignmentPlan) -> (r: Vec<
    SourceAccountAssignment,
>)
    ensures
        r@ == carried_out(v@, *plan),
{
    let mut out: Vec<SourceAccountAssignment> = Vec::new();
    let mut j: usize = 0;
    while j < v.len()
        invariant
            j <= v.len(),
            out@ == v@.take(j as int),
        decreases v.len() - j,
    {
        out.push(v[j].clone());
        proof {
            assert(out@ =~= v@.take(j + 1));
        }
        j = j + 1;
    }
    proof {
        assert(out@ =~= v@);
    }
    let mut i: usize = 0;
    while i < plan.deletes.len()
        invariant
            i <= plan.deletes.len(),
            out@ == without_all(v@, plan.deletes@, i as int),
        decreases plan.deletes.len() - i,
    {
        out = without_assignment(&out, &plan.deletes[i]);
        i = i + 1;
    }
    let ghost v1 = out@;
    let mut k: usize = 0;
    while k < plan.upserts.len()
        invariant
            k <= plan.upserts.len(),
            out@ == with_all(v1, plan.upserts@, k as int),
        decreases plan.upserts.len() - k,
    {
        out = without_assignment(&out, &plan.upserts[k].assignment_id);
        out.push(plan.upserts[k].clone());
        k = k + 1;
    }
    out
}

// ---------------------------------------------------------------------------
// The steps of a merge
// ---------------------------------------------------------------------------

/// An event, attributed by the assignments where it is of the source.
pub open spec fn reattributed_event(
    own: Seq<SourceAccountAssignment>,
    source: Seq<char>,
    e: UsageEvent,
) -> UsageEvent {
    if e.source_id.0@ == source {
        resolved_event(own, e)
    } else {
        e
    }
}

pub open spec fn reattributed_summary(
    own: Seq<SourceAccountAssignment>,
    source: Seq<char>,
    s: UsageSummary,
) -> UsageSummary {
    if s.source_id.0@ == source {
        resolved_summary(own, s)
    } else {
        s
    }
}

/// The records once a source's plan is carried out: where it changes anything,
/// the source's usage is attributed anew.
pub open spec fn reconnected(h: Held, source: Seq<char>, p: AssignmentPlan) -> Held {
    if p.upserts@.len() == 0 {
        h
    } else {
        let v = carried_out(h.assignments, p);
        let own = of_source(v, source);
        Held {
            assignments: v,
            subscriptions: h.subscriptions,
            events: h.events.map_values(|e: UsageEvent| reattributed_event(own, source, e)),
            summaries: h.summaries.map_values(
                |s: UsageSummary| reattributed_summary(own, source, s),
            ),
        }
    }
}

fn reattribute_events(own: &[SourceAccountAssignment], source: &SourceId, events: &[UsageEvent]) -> (r:
    Vec<UsageEvent>)
    ensures
        r@ == events@.map_values(|e: UsageEvent| reattributed_event(own@, source.0@, e)),
{
    let mut out: Vec<UsageEvent> = Vec::new();
    let mut i: usize = 0;
    while i < events.len()
        invariant
            i <= events.len(),
            out@.len() == i,
            forall|k: int|
                0 <= k < i ==> #[trigger] out@[k] == reattributed_event(
                    own@,
                    source.0@,
                    events@[k],
                ),
        decreases events.len() - i,
    {
        let e = events[i].clone();
        if same_text(e.source_id.0.as_str(), source.0.as_str()) {
            out.push(apply_account_resolution_to_event(own, e));
        } else {
            out.push(e);
        }
        i = i + 1;
    }
    proof {
        assert(out@ =~= events@.map_values(
            |e: UsageEvent| reattributed_event(own@, source.0@, e),
        ));
    }
    out
}

fn reattribute_summaries(
    own: &[SourceAccountAssignment],
    source: &SourceId,
    summaries: &[UsageSummary],
) -> (r: Vec<UsageSummary>)
    ensures
        r@ == summaries@.map_values(|s: UsageSummary| reattributed_summary(own@, source.0@, s)),
{
    let mut out: Vec<UsageSummary> = Vec::new();
    let mut i: usize = 0;
    while i < summaries.len()
        invariant
            i <= summaries.len(),
            out@.len() == i,
            forall|k: int|
                0 <= k < i ==> #[trigger] out@[k] == reattributed_summary(
                    own@,
                    source.0@,
                    summaries@[k],
                ),
        decreases summaries.len() - i,
    {
        let s = summaries[i].clone();
        if same_text(s.source_id.0.as_str(), source.0.as_str()) {
            out.push(apply_account_resolution_to_summary(own, s));
        } else {
            out.push(s);
        }
        i = i + 1;
    }
    proof {
        assert(out@ =~= summaries@.map_values(
            |s: UsageSummary| reattributed_summary(own@, source.0@, s),
        ));
    }
    out
}

/// Carries a source's plan out and attributes the source's usage anew.
fn reconnect(records: &mut AccountRecords, source: &SourceId, plan: &AssignmentPlan)
    ensures
        final(records)@ == reconnected(old(records)@, source.0@, *plan),
{
    if plan.upserts.len() == 0 {
        return;
    }
    let assignments = carry_out_assignment_plan(&records.assignments, plan);
    let own = source_assignments(&assignments, source);
    records.events = reattribute_events(&own, source, &records.events);
    records.summaries = reattribute_summaries(&own, source, &records.summaries);
    records.assignments = assignments;
}

pub open spec fn subscriptions_without(v: Seq<Subscription>, id: Seq<char>) -> Seq<Subscription> {
    v.filter(|s: Subscription| s.subscription_id.0@ != id)
}

fn without_subscription(v: &[Subscription], id: &SubscriptionId) -> (r: Vec<Subscription>)
    ensures
        r@ == subscriptions_without(v@, id.0@),
{
    let mut out: Vec<Subscription> = Vec::new();
    let mut i: usize = 0;
    proof {
        reveal(Seq::filter);
        assert(v@.take(0) =~= Seq::empty());
    }
    while i < v.len()
        invariant
            i <= v.len(),
            out@ == subscriptions_without(v@.take(i as int), id.0@),
        decreases v.len() - i,
    {
        proof {
            reveal(Seq::filter);
            assert(v@.take(i + 1).drop_last() =~= v@.take(i as int));
            assert(v@.take(i + 1).last() == v@[i as int]);
        }
        if !same_text(v[i].subscription_id.0.as_str(), id.0.as_str()) {
            out.push(v[i].clone());
        }
        i = i + 1;
    }
    proof {
        assert(v@.take(i as int) =~= v@);
    }
    out
}

/// The subscriptions once `s` has moved.
pub open spec fn resubscribed(v: Seq<Subscription>, s: Subscription, m: SubscriptionMove) -> Seq<
    Subscription,
> {
    let left = if m.delete_old {
        subscriptions_without(v, s.subscription_id.0@)
    } else {
        v
    };
    if m.write {
        subscriptions_without(left, m.subscription.subscription_id.0@).push(m.subscription)
    } else {
        left
    }
}

fn resubscribe(records: &mut AccountRecords, subscription: &Subscription, m: &SubscriptionMove)
    ensures
        final(records)@ == (Held {
            subscriptions: resubscribed(old(records)@.subscriptions, *subscription, *m),
            ..old(records)@
        }),
{
    if m.delete_old {
        records.subscriptions =
        without_subscription(&records.subscriptions, &subscription.subscription_id);
    }
    if m.write {
        records.subscriptions =
        without_subscription(&records.subscriptions, &m.subscription.subscription_id);
        records.subscriptions.push(m.subscription.clone());
    }
}

/// Fails where an account would be merged into itself.
pub fn check_account_merge(from: &ProviderAccount, to: &ProviderAccount) -> (r: Result<(), String>)
    ensures
        match r {
            Ok(_) => from.provider_account_id.0@ != to.provider_account_id.0@,
            Err(e) => from.provider_account_id.0@ == to.provider_account_id.0@ && e@
                == "source and destination accounts are the same"@,
        },
{
    if same_text(from.provider_account_id.0.as_str(), to.provider_account_id.0.as_str()) {
        Err("source and destination accounts are the same".to_owned())
    } else {
        Ok(())
    }
}

pub open spec fn moved_event(e: UsageEvent, to: ProviderAccountId) -> UsageEvent {
    UsageEvent {
        provider_account_id: Some(to),
        parse_evidence: evidence_with(e.parse_evidence, IdentitySource::UserConfigured),
        ..e
    }
}

pub open spec fn moved_summary(s: UsageSummary, to: ProviderAccountId) -> UsageSummary {
    UsageSummary {
        provider_account_id: Some(to),
        parse_evidence: evidence_with(s.parse_evidence, IdentitySource::UserConfigured),
        ..s
    }
}

fn user_evidence(e: Option<ParseEvidence>) -> (r: Option<ParseEvidence>)
    ensures
        r == evidence_with(e, IdentitySource::UserConfigured),
{
    match e {
        Some(x) => {
            let mut y = x;
            y.account_identity_source = IdentitySource::UserConfigured;
            Some(y)
        },
        None => None,
    }
}

/// Whether an event is one of the account's under the provider.
pub open spec fn event_of(e: UsageEvent, provider: Seq<char>, account: Seq<char>) -> bool {
    account_text(e.provider_account_id) == Some(account) && e.provider@ == provider
}

pub open spec fn summary_of(s: UsageSummary, provider: Seq<char>, account: Seq<char>) -> bool {
    account_text(s.provider_account_id) == Some(account) && s.provider@ == provider
}

/// The events with those of one account moved to another.
pub open spec fn events_moved(
    v: Seq<UsageEvent>,
    provider: Seq<char>,
    from: Seq<char>,
    to: ProviderAccountId,
) -> Seq<UsageEvent> {
    v.map_values(
        |e: UsageEvent|
            if event_of(e, provider, from) {
                moved_event(e, to)
            } else {
                e
            },
    )
}

pub open spec fn summaries_moved(
    v: Seq<UsageSummary>,
    provider: Seq<char>,
    from: Seq<char>,
    to: ProviderAccountId,
) -> Seq<UsageSummary> {
    v.map_values(
        |s: UsageSummary|
            if summary_of(s, provider, from) {
                moved_summary(s, to)
            } else {
                s
            },
    )
}

/// The events and summaries, with those of one account moved to another.
pub fn move_direct_account_records(
    events: &[UsageEvent],
    summaries: &[UsageSummary],
    provider: &str,
    from: &ProviderAccountId,
    to: &ProviderAccountId,
) -> (r: (Vec<UsageEvent>, Vec<UsageSummary>))
    ensures
        r.0@ == events_moved(events@, provider@, from.0@, *to),
        r.1@ == summaries_moved(summaries@, provider@, from.0@, *to),
{
    let mut out_events: Vec<UsageEvent> = Vec::new();
    let mut i: usize = 0;
    while i < events.len()
        invariant
            i <= events.len(),
            out_events@.len() == i,
            forall|k: int|
                0 <= k < i ==> #[trigger] out_events@[k] == events_moved(
                    events@,
                    provider@,
                    from.0@,
                    *to,
                )[k],
        decreases events.len() - i,
    {
        let mut e = events[i].clone();
        if is_account(&e.provider_account_id, from) && same_text(e.provider.as_str(), provider) {
            e.provider_account_id = Some(to.clone());
            let evidence = e.parse_evidence.take();
            e.parse_evidence = user_evidence(evidence);
        }
        out_events.push(e);
        i = i + 1;
    }
    let mut out_summaries: Vec<UsageSummary> = Vec::new();
    let mut j: usize = 0;
    while j < summaries.len()
        invariant
            j <= summaries.len(),
            out_summaries@.len() == j,
            forall|k: int|
                0 <= k < j ==> #[trigger] out_summaries@[k] == summaries_moved(
                    summaries@,
                    provider@,
                    from.0@,
                    *to,
                )[k],
        decreases summaries.len() - j,
    {
        let mut s = summaries[j].clone();
        if is_account(&s.provider_account_id, from) && same_text(s.provider.as_str(), provider) {
            s.provider_account_id = Some(to.clone());
            let evidence = s.parse_evidence.take();
            s.parse_evidence = user_evidence(evidence);
        }
        out_summaries.push(s);
        j = j + 1;
    }
    proof {
        assert(out_events@ =~= events_moved(events@, provider@, from.0@, *to));
        assert(out_summaries@ =~= summaries_moved(summaries@, provider@, from.0@, *to));
    }
    (out_events, out_summaries)
}

// ---------------------------------------------------------------------------
// The merge
// ---------------------------------------------------------------------------

/// What handing one assignment over to the account gives, from the records as
/// they stand then.
pub open spec fn handed_over(
    r: Result<AssignmentPlan, String>,
    h: Held,
    sources: Seq<SourceLocation>,
    a: SourceAccountAssignment,
    to: ProviderAccount,
    now: Timestamp,
) -> bool {
    match find_source(sources, a.source_id.0@) {
        None => r matches Err(e) && e@ == "unknown source "@ + a.source_id.0@,
        Some(s) => if to.provider@ != s.provider@ {
            r matches Err(e) && e@ == wrong_provider_text(to, s.provider@)
        } else {
            connected(
                r,
                of_source(h.assignments, a.source_id.0@),
                s,
                to.provider_account_id,
                a.started_at,
                a.ended_at,
                now,
            )
        },
    }
}

/// The records once the first `n` assignments are handed over by the plans.
pub open spec fn after_plans(
    h: Held,
    assignments: Seq<SourceAccountAssignment>,
    plans: Seq<AssignmentPlan>,
    n: int,
) -> Held
    decreases n,
{
    if n <= 0 {
        h
    } else {
        reconnected(
            after_plans(h, assignments, plans, n - 1),
            assignments[n - 1].source_id.0@,
            plans[n - 1],
        )
    }
}

/// The subscriptions once the first `n` are moved.
pub open spec fn after_moves(
    v: Seq<Subscription>,
    subscriptions: Seq<Subscription>,
    moves: Seq<SubscriptionMove>,
    n: int,
) -> Seq<Subscription>
    decreases n,
{
    if n <= 0 {
        v
    } else {
        resubscribed(
            after_moves(v, subscriptions, moves, n - 1),
            subscriptions[n - 1],
            moves[n - 1],
        )
    }
}

/// The assignments of an account under a provider.
pub open spec fn all_assignments(h: Held, provider: Seq<char>, account: Seq<char>) -> Seq<
    SourceAccountAssignment,
> {
    assignments_to(h.assignments, account, Some(provider), h.assignments.len() as int)
}

pub open spec fn all_subscriptions(h: Held, provider: Seq<char>, account: Seq<char>) -> Seq<
    Subscription,
> {
    subscriptions_of(h.subscriptions, account, Some(provider), h.subscriptions.len() as int)
}

pub open spec fn all_events(h: Held, provider: Seq<char>, account: Seq<char>) -> Seq<UsageEvent> {
    events_of(h.events, account, Some(provider), h.events.len() as int)
}

pub open spec fn all_summaries(h: Held, provider: Seq<char>, account: Seq<char>) -> Seq<
    UsageSummary,
> {
    summaries_of(h.summaries, account, Some(provider), h.summaries.len() as int)
}

/// Whether the plans hand the account's first assignments over, each from the
/// records that those before it leave.
pub open spec fn plans_right(
    h: Held,
    sources: Seq<SourceLocation>,
    assignments: Seq<SourceAccountAssignment>,
    to: ProviderAccount,
    now: Timestamp,
    plans: Seq<AssignmentPlan>,
) -> bool {
    &&& plans.len() <= assignments.len()
    &&& forall|n: int|
        0 <= n < plans.len() ==> handed_over(
            Ok(#[trigger] plans[n]),
            after_plans(h, assignments, plans, n),
            sources,
            assignments[n],
            to,
            now,
        )
}

/// Whether the moves take the account's first subscriptions over, each from the
/// subscriptions that those before it leave.
pub open spec fn moves_right(
    v: Seq<Subscription>,
    subscriptions: Seq<Subscription>,
    to: ProviderAccount,
    moves: Seq<SubscriptionMove>,
) -> bool {
    &&& moves.len() <= subscriptions.len()
    &&& forall|n: int|
        0 <= n < moves.len() ==> subscription_moved(
            Ok(#[trigger] moves[n]),
            after_moves(v, subscriptions, moves, n),
            subscriptions[n],
            to.provider_account_id,
        )
}

/// Whether moving an account's records goes as it has to: its assignments are
/// handed over one by one, then its subscriptions, then the usage that still
/// refers to it. The first step that fails ends it, and what came before stays.
pub open spec fn moves_records(
    before: Held,
    after: Held,
    outcome: Result<(), String>,
    sources: Seq<SourceLocation>,
    provider: Seq<char>,
    from: ProviderAccountId,
    to: ProviderAccount,
    now: Timestamp,
    plans: Seq<AssignmentPlan>,
    moves: Seq<SubscriptionMove>,
) -> bool {
    let assignments = all_assignments(before, provider, from.0@);
    let subscriptions = all_subscriptions(before, provider, from.0@);
    let mid = after_plans(before, assignments, plans, plans.len() as int);
    let late = Held {
        subscriptions: after_moves(
            mid.subscriptions,
            subscriptions,
            moves,
            moves.len() as int,
        ),
        ..mid
    };
    &&& plans_right(before, sources, assignments, to, now, plans)
    &&& moves_right(mid.subscriptions, subscriptions, to, moves)
    &&& match outcome {
        Ok(_) => {
            &&& plans.len() == assignments.len()
            &&& moves.len() == subscriptions.len()
            &&& after == (Held {
                events: events_moved(late.events, provider, from.0@, to.provider_account_id),
                summaries: summaries_moved(
                    late.summaries,
                    provider,
                    from.0@,
                    to.provider_account_id,
                ),
                ..late
            })
        },
        Err(e) => {
            &&& after == late
            &&& if plans.len() < assignments.len() {
                moves.len() == 0 && handed_over(
                    Err(e),
                    mid,
                    sources,
                    assignments[plans.len() as int],
                    to,
                    now,
                )
            } else {
                moves.len() < subscriptions.len() && subscription_moved(
                    Err(e),
                    late.subscriptions,
                    subscriptions[moves.len() as int],
                    to.provider_account_id,
                )
            }
        },
    }
}

/// Whether moving an account's records goes as it has to, by some plans and moves.
#[verifier::opaque]
pub open spec fn records_moved(
    before: Held,
    after: Held,
    outcome: Result<(), String>,
    sources: Seq<SourceLocation>,
    provider: Seq<char>,
    from: ProviderAccountId,
    to: ProviderAccount,
    now: Timestamp,
) -> bool {
    exists|plans: Seq<AssignmentPlan>, moves: Seq<SubscriptionMove>| #[trigger]
        moves_records(before, after, outcome, sources, provider, from, to, now, plans, moves)
}

fn hand_over(
    records: &AccountRecords,
    sources: &[SourceLocation],
    assignment: &SourceAccountAssignment,
    to: &ProviderAccount,
    now: Timestamp,
) -> (r: Result<AssignmentPlan, String>)
    requires
        assignments_wf(records@.assignments),
        assignment.started_at.wf(),
        opt_wf(assignment.ended_at),
    ensures
        handed_over(r, records@, sources@, *assignment, *to, now),
{
    let own = source_assignments(&records.assignments, &assignment.source_id);
    proof {
        lemma_of_source(records@.assignments, assignment.source_id.0@);
    }
    match source_by_id(sources, assignment.source_id.0.as_str()) {
        None => Err(concat2("unknown source ", assignment.source_id.0.as_str())),
        Some(s) => match ensure_account_matches_provider(to, s.provider.as_str()) {
            Err(e) => Err(e),
            Ok(_) => connect_source_to_account(
                s,
                &to.provider_account_id,
                &own,
                assignment.started_at,
                assignment.ended_at,
                now,
            ),
        },
    }
}

pub proof fn lemma_of_source(v: Seq<SourceAccountAssignment>, source: Seq<char>)
    ensures
        forall|i: int|
            0 <= i < of_source(v, source).len() ==> v.contains(#[trigger] of_source(v, source)[i])
                && of_source(v, source)[i].source_id.0@ == source,
        forall|i: int|
            0 <= i < v.len() && (#[trigger] v[i]).source_id.0@ == source ==> of_source(
                v,
                source,
            ).contains(v[i]),
    decreases v.len(),
{
    reveal(Seq::filter);
    if v.len() > 0 {
        let w = v.drop_last();
        lemma_of_source(w, source);
        let before = of_source(w, source);
        let now = of_source(v, source);
        assert forall|i: int| 0 <= i < now.len() implies v.contains(#[trigger] now[i])
            && now[i].source_id.0@ == source by {
            if i < before.len() {
                assert(now[i] == before[i]);
                let k = choose|k: int| 0 <= k < w.len() && w[k] == before[i];
                assert(v[k] == now[i]);
            } else {
                assert(v[v.len() - 1] == now[i]);
            }
        }
        assert forall|i: int|
            0 <= i < v.len() && (#[trigger] v[i]).source_id.0@ == source implies now.contains(
            v[i],
        ) by {
            if i < w.len() {
                assert(w[i] == v[i]);
                let k = choose|k: int| 0 <= k < before.len() && before[k] == w[i];
                assert(now[k] == v[i]);
            } else {
                assert(now[now.len() - 1] == v[i]);
            }
        }
    }
}

pub proof fn lemma_without(v: Seq<SourceAccountAssignment>, id: Seq<char>)
    ensures
        forall|i: int|
            0 <= i < without(v, id).len() ==> v.contains(#[trigger] without(v, id)[i]) && without(
                v,
                id,
            )[i].assignment_id.0@ != id,
    decreases v.len(),
{
    reveal(Seq::filter);
    if v.len() > 0 {
        let w = v.drop_last();
        lemma_without(w, id);
        let before = without(w, id);
        let now = without(v, id);
        assert forall|i: int| 0 <= i < now.len() implies v.contains(#[trigger] now[i])
            && now[i].assignment_id.0@ != id by {
            if i < before.len() {
                assert(now[i] == before[i]);
                let k = choose|k: int| 0 <= k < w.len() && w[k] == before[i];
                assert(v[k] == now[i]);
            } else {
                assert(v[v.len() - 1] == now[i]);
            }
        }
    }
}

proof fn lemma_without_all(
    v: Seq<SourceAccountAssignment>,
    ids: Seq<SourceAccountAssignmentId>,
    n: int,
    x: SourceAccountAssignment,
)
    requires
        0 <= n <= ids.len(),
        without_all(v, ids, n).contains(x),
    ensures
        v.contains(x),
        forall|k: int| 0 <= k < n ==> (#[trigger] ids[k]).0@ != x.assignment_id.0@,
    decreases n,
{
    if n > 0 {
        let w = without_all(v, ids, n - 1);
        lemma_without(w, ids[n - 1].0@);
        let i = choose|i: int| 0 <= i < without_all(v, ids, n).len() && without_all(v, ids, n)[i] == x;
        assert(w.contains(x));
        lemma_without_all(v, ids, n - 1, x);
    }
}

proof fn lemma_with_all(
    v: Seq<SourceAccountAssignment>,
    written: Seq<SourceAccountAssignment>,
    n: int,
    x: SourceAccountAssignment,
)
    requires
        0 <= n <= written.len(),
        with_all(v, written, n).contains(x),
    ensures
        v.contains(x) || written.contains(x),
    decreases n,
{
    if n > 0 {
        let w = with_all(v, written, n - 1);
        let rest = without(w, written[n - 1].assignment_id.0@);
        lemma_without(w, written[n - 1].assignment_id.0@);
        let i = choose|i: int| 0 <= i < with_all(v, written, n).len() && with_all(v, written, n)[i] == x;
        if i < rest.len() {
            assert(rest[i] == x);
            assert(w.contains(x));
            lemma_with_all(v, written, n - 1, x);
        } else {
            assert(written[n - 1] == x);
        }
    }
}

/// What is there once a plan is carried out was written by it, or was there and
/// was not deleted.
pub proof fn lemma_carried_out(
    v: Seq<SourceAccountAssignment>,
    p: AssignmentPlan,
    x: SourceAccountAssignment,
)
    requires
        carried_out(v, p).contains(x),
    ensures
        p.upserts@.contains(x) || (v.contains(x) && forall|k: int|
            0 <= k < p.deletes@.len() ==> (#[trigger] p.deletes@[k]).0@ != x.assignment_id.0@),
{
    let left = without_all(v, p.deletes@, p.deletes@.len() as int);
    lemma_with_all(left, p.upserts@, p.upserts@.len() as int, x);
    if left.contains(x) {
        lemma_without_all(v, p.deletes@, p.deletes@.len() as int, x);
    }
}

/// Assignments stay well formed as a plan is carried out.
proof fn lemma_carried_out_wf(
    v: Seq<SourceAccountAssignment>,
    p: AssignmentPlan,
    own: Seq<SourceAccountAssignment>,
    source: SourceLocation,
    account: ProviderAccountId,
    start: Timestamp,
    end: Option<Timestamp>,
    now: Timestamp,
)
    requires
        assignments_wf(v),
        assignments_wf(own),
        start.wf(),
        opt_wf(end),
        connected(Ok(p), own, source, account, start, end, now),
    ensures
        assignments_wf(carried_out(v, p)),
{
    let o = overlaps_of(own, start, end);
    lemma_overlap_places(own, start, end, own.len() as int);
    assert(assignments_wf(p.upserts@)) by {
        if o.len() > 0 {
            assert(own[o[0]].started_at.wf());
        }
    }
    let w = carried_out(v, p);
    assert forall|i: int| 0 <= i < w.len() implies (#[trigger] w[i]).started_at.wf() && opt_wf(
        w[i].ended_at,
    ) by {
        assert(w.contains(w[i]));
        lemma_carried_out(v, p, w[i]);
    }
}

pub proof fn lemma_assignments_to(
    v: Seq<SourceAccountAssignment>,
    account: Seq<char>,
    provider: Option<Seq<char>>,
    n: int,
)
    requires
        0 <= n <= v.len(),
    ensures
        forall|i: int|
            0 <= i < assignments_to(v, account, provider, n).len() ==> v.contains(
                #[trigger] assignments_to(v, account, provider, n)[i],
            ) && assignments_to(v, account, provider, n)[i].provider_account_id.0@ == account
                && provider_is(assignments_to(v, account, provider, n)[i].provider@, provider),
        forall|i: int|
            0 <= i < n && (#[trigger] v[i]).provider_account_id.0@ == account && provider_is(
                v[i].provider@,
                provider,
            ) ==> assignments_to(v, account, provider, n).contains(v[i]),
    decreases n,
{
    if n > 0 {
        lemma_assignments_to(v, account, provider, n - 1);
        let before = assignments_to(v, account, provider, n - 1);
        let now = assignments_to(v, account, provider, n);
        assert forall|i: int| 0 <= i < now.len() implies v.contains(#[trigger] now[i])
            && now[i].provider_account_id.0@ == account && provider_is(now[i].provider@, provider) by {
            if i < before.len() {
                assert(now[i] == before[i]);
            }
        }
        assert forall|i: int|
            0 <= i < n && (#[trigger] v[i]).provider_account_id.0@ == account && provider_is(
                v[i].provider@,
                provider,
            ) implies now.contains(v[i]) by {
            if i < n - 1 {
                let k = choose|k: int| 0 <= k < before.len() && before[k] == v[i];
                assert(now[k] == v[i]);
            } else {
                assert(now[now.len() - 1] == v[i]);
            }
        }
    }
}

pub proof fn lemma_subscriptions_of(
    v: Seq<Subscription>,
    account: Seq<char>,
    provider: Option<Seq<char>>,
    n: int,
)
    requires
        0 <= n <= v.len(),
    ensures
        forall|i: int|
            0 <= i < subscriptions_of(v, account, provider, n).len() ==> v.contains(
                #[trigger] subscriptions_of(v, account, provider, n)[i],
            ),
        forall|i: int|
            0 <= i < n && (#[trigger] v[i]).provider_account_id.0@ == account && provider_is(
                v[i].provider@,
                provider,
            ) ==> subscriptions_of(v, account, provider, n).contains(v[i]),
    decreases n,
{
    if n > 0 {
        lemma_subscriptions_of(v, account, provider, n - 1);
        let before = subscriptions_of(v, account, provider, n - 1);
        let now = subscriptions_of(v, account, provider, n);
        assert forall|i: int| 0 <= i < now.len() implies v.contains(#[trigger] now[i]) by {
            if i < before.len() {
                assert(now[i] == before[i]);
            }
        }
        assert forall|i: int|
            0 <= i < n && (#[trigger] v[i]).provider_account_id.0@ == account && provider_is(
                v[i].provider@,
                provider,
            ) implies now.contains(v[i]) by {
            if i < n - 1 {
                let k = choose|k: int| 0 <= k < before.len() && before[k] == v[i];
                assert(now[k] == v[i]);
            } else {
                assert(now[now.len() - 1] == v[i]);
            }
        }
    }
}

/// More plans do not change what the first ones leave.
proof fn lemma_after_plans_prefix(
    h: Held,
    assignments: Seq<SourceAccountAssignment>,
    plans: Seq<AssignmentPlan>,
    p: AssignmentPlan,
    n: int,
)
    requires
        0 <= n <= plans.len(),
    ensures
        after_plans(h, assignments, plans.push(p), n) == after_plans(h, assignments, plans, n),
    decreases n,
{
    if n > 0 {
        lemma_after_plans_prefix(h, assignments, plans, p, n - 1);
        assert(plans.push(p)[n - 1] == plans[n - 1]);
    }
}

proof fn lemma_after_moves_prefix(
    v: Seq<Subscription>,
    subscriptions: Seq<Subscription>,
    moves: Seq<SubscriptionMove>,
    m: SubscriptionMove,
    n: int,
)
    requires
        0 <= n <= moves.len(),
    ensures
        after_moves(v, subscriptions, moves.push(m), n) == after_moves(v, subscriptions, moves, n),
    decreases n,
{
    if n > 0 {
        lemma_after_moves_prefix(v, subscriptions, moves, m, n - 1);
        assert(moves.push(m)[n - 1] == moves[n - 1]);
    }
}

/// Whether the times that a merge works on are well formed.
pub open spec fn held_wf(h: Held) -> bool {
    &&& assignments_wf(h.assignments)
    &&& forall|i: int| 0 <= i < h.subscriptions.len() ==> (#[trigger] h.subscriptions[i]).started_at.wf()
}

/// Moves everything that refers to an account to another.
fn move_account_records(
    records: &mut AccountRecords,
    sources: &[SourceLocation],
    provider: &str,
    from: &ProviderAccountId,
    to: &ProviderAccount,
    now: Timestamp,
) -> (r: Result<(), String>)
    requires
        held_wf(old(records)@),
    ensures
        records_moved(
            old(records)@,
            final(records)@,
            r,
            sources@,
            provider@,
            *from,
            *to,
            now,
        ),
{
    let ghost before = records@;
    let assignments = account_assignments(&records.assignments, from, Some(provider));
    let subscriptions = account_subscriptions(&records.subscriptions, from, Some(provider));
    let ghost mut plans: Seq<AssignmentPlan> = Seq::empty();
    let ghost mut moves: Seq<SubscriptionMove> = Seq::empty();
    proof {
        lemma_assignments_to(
            before.assignments,
            from.0@,
            Some(provider@),
            before.assignments.len() as int,
        );
        lemma_subscriptions_of(
            before.subscriptions,
            from.0@,
            Some(provider@),
            before.subscriptions.len() as int,
        );
        assert(assignments_wf(assignments@)) by {
            assert forall|i: int| 0 <= i < assignments@.len() implies (
            #[trigger] assignments@[i]).started_at.wf() && opt_wf(assignments@[i].ended_at) by {
                assert(before.assignments.contains(assignments@[i]));
            }
        }
        assert forall|i: int| 0 <= i < subscriptions@.len() implies (
        #[trigger] subscriptions@[i]).started_at.wf() by {
            assert(before.subscriptions.contains(subscriptions@[i]));
        }
    }
    let mut i: usize = 0;
    while i < assignments.len()
        invariant
            before == old(records)@,
            i <= assignments.len(),
            assignments@ == all_assignments(before, provider@, from.0@),
            subscriptions@ == all_subscriptions(before, provider@, from.0@),
            assignments_wf(assignments@),
            assignments_wf(records@.assignments),
            plans.len() == i,
            moves.len() == 0,
            plans_right(before, sources@, assignments@, *to, now, plans),
            records@ == after_plans(before, assignments@, plans, i as int),
        decreases assignments.len() - i,
    {
        let step = hand_over(records, sources, &assignments[i], to, now);
        match step {
            Err(e) => {
                proof {
                    reveal(records_moved);
                    let late = Held {
                        subscriptions: after_moves(
                            records@.subscriptions,
                            subscriptions@,
                            moves,
                            0,
                        ),
                        ..records@
                    };
                    assert(late == records@);
                    assert(moves_records(
                        before,
                        records@,
                        Err(e),
                        sources@,
                        provider@,
                        *from,
                        *to,
                        now,
                        plans,
                        moves,
                    ));
                }
                return Err(e);
            },
            Ok(plan) => {
                let ghost h = records@;
                reconnect(records, &assignments[i].source_id, &plan);
                proof {
                    let a = assignments@[i as int];
                    let own = of_source(h.assignments, a.source_id.0@);
                    lemma_of_source(h.assignments, a.source_id.0@);
                    assert(assignments_wf(own)) by {
                        assert forall|k: int| 0 <= k < own.len() implies (
                        #[trigger] own[k]).started_at.wf() && opt_wf(own[k].ended_at) by {
                            assert(h.assignments.contains(own[k]));
                        }
                    }
                    lemma_carried_out_wf(
                        h.assignments,
                        plan,
                        own,
                        find_source(sources@, a.source_id.0@)->0,
                        to.provider_account_id,
                        a.started_at,
                        a.ended_at,
                        now,
                    );
                    let more = plans.push(plan);
                    lemma_after_plans_prefix(before, assignments@, plans, plan, i as int);
                    assert forall|n: int| 0 <= n < more.len() implies handed_over(
                        Ok(#[trigger] more[n]),
                        after_plans(before, assignments@, more, n),
                        sources@,
                        assignments@[n],
                        *to,
                        now,
                    ) by {
                        lemma_after_plans_prefix(before, assignments@, plans, plan, n);
                        if n < plans.len() {
                            assert(more[n] == plans[n]);
                        }
                    }
                    plans = more;
                }
            },
        }
        i = i + 1;
    }
    let ghost mid = records@;
    let mut j: usize = 0;
    while j < subscriptions.len()
        invariant
            before == old(records)@,
            j <= subscriptions.len(),
            assignments@ == all_assignments(before, provider@, from.0@),
            subscriptions@ == all_subscriptions(before, provider@, from.0@),
            forall|k: int|
                0 <= k < subscriptions@.len() ==> (#[trigger] subscriptions@[k]).started_at.wf(),
            plans.len() == assignments@.len(),
            plans_right(before, sources@, assignments@, *to, now, plans),
            mid == after_plans(before, assignments@, plans, plans.len() as int),
            moves.len() == j,
            moves_right(mid.subscriptions, subscriptions@, *to, moves),
            records@ == (Held {
                subscriptions: after_moves(mid.subscriptions, subscriptions@, moves, j as int),
                ..mid
            }),
        decreases subscriptions.len() - j,
    {
        let step = move_subscription_to_account(
            &records.subscriptions,
            &subscriptions[j],
            &to.provider_account_id,
        );
        match step {
            Err(e) => {
                proof {
                    reveal(records_moved);
                    assert(moves_records(
                        before,
                        records@,
                        Err(e),
                        sources@,
                        provider@,
                        *from,
                        *to,
                        now,
                        plans,
                        moves,
                    ));
                }
                return Err(e);
            },
            Ok(m) => {
                resubscribe(records, &subscriptions[j], &m);
                proof {
                    let more = moves.push(m);
                    lemma_after_moves_prefix(mid.subscriptions, subscriptions@, moves, m, j as int);
                    assert forall|n: int| 0 <= n < more.len() implies subscription_moved(
                        Ok(#[trigger] more[n]),
                        after_moves(mid.subscriptions, subscriptions@, more, n),
                        subscriptions@[n],
                        to.provider_account_id,
                    ) by {
                        lemma_after_moves_prefix(mid.subscriptions, subscriptions@, moves, m, n);
                        if n < moves.len() {
                            assert(more[n] == moves[n]);
                        }
                    }
                    moves = more;
                }
            },
        }
        j = j + 1;
    }
    let (events, summaries) = move_direct_account_records(
        &records.events,
        &records.summaries,
        provider,
        from,
        &to.provider_account_id,
    );
    records.events = events;
    records.summaries = summaries;
    proof {
        reveal(records_moved);
        assert(moves_records(
            before,
            records@,
            Ok(()),
            sources@,
            provider@,
            *from,
            *to,
            now,
            plans,
            moves,
        ));
    }
    Ok(())
}

// ---------------------------------------------------------------------------
// The command
// ---------------------------------------------------------------------------

/// What merging two accounts comes to.
#[derive(Debug, Clone, PartialEq, Eq)]
pub struct AccountMergeReport {
    pub provider: String,
    pub from: String,
    pub to: String,
    pub from_provider_account_id: String,
    pub to_provider_account_id: String,
    pub moved_source_account_assignments: usize,
    pub moved_subscriptions: usize,
    pub moved_events: usize,
    pub moved_summaries: usize,
    pub deleted_source_account: bool,
    pub remaining_references: AccountReferenceCounts,
    pub reset_local_sync_tracking: bool,
    pub dry_run: bool,
}

/// Whether the counts are those of the provider's records that refer to the
/// account.
pub open spec fn counts_of(
    c: AccountReferenceCounts,
    h: Held,
    provider: Seq<char>,
    account: Seq<char>,
) -> bool {
    &&& c.source_account_assignments == all_assignments(h, provider, account).len()
    &&& c.subscriptions == all_subscriptions(h, provider, account).len()
    &&& c.events == all_events(h, provider, account).len()
    &&& c.summaries == all_summaries(h, provider, account).len()
}

/// Whether the report tells of the merge that led from the one state to the other.
pub open spec fn reports_merge(
    r: AccountMergeReport,
    before: Held,
    after: Held,
    provider: Seq<char>,
    from: ProviderAccount,
    to: ProviderAccount,
    dry_run: bool,
) -> bool {
    let id = from.provider_account_id.0@;
    &&& r.provider@ == provider
    &&& r.from@ == account_name(from)
    &&& r.to@ == account_name(to)
    &&& r.from_provider_account_id@ == id
    &&& r.to_provider_account_id@ == to.provider_account_id.0@
    &&& r.moved_source_account_assignments == all_assignments(before, provider, id).len()
    &&& r.moved_subscriptions == all_subscriptions(before, provider, id).len()
    &&& r.moved_events == all_events(before, provider, id).len()
    &&& r.moved_summaries == all_summaries(before, provider, id).len()
    &&& counts_of(r.remaining_references, after, provider, id)
    &&& r.deleted_source_account == (!dry_run && r.remaining_references.total_spec() == 0)
    &&& r.reset_local_sync_tracking == !dry_run
    &&& r.dry_run == dry_run
}

pub open spec fn outcome_of(r: Result<AccountMergeReport, String>) -> Result<(), String> {
    match r {
        Ok(_) => Ok(()),
        Err(e) => Err(e),
    }
}

fn references(records: &AccountRecords, account: &ProviderAccountId, provider: &str) -> (r:
    AccountReferenceCounts)
    ensures
        counts_of(r, records@, provider@, account.0@),
{
    account_reference_counts(
        &records.assignments,
        &records.subscriptions,
        &records.events,
        &records.summaries,
        account,
        Some(provider),
    )
}

/// Merges the account that `from_selector` names into the one that `to_selector`
/// names: everything of the provider that refers to the one refers to the other
/// afterwards. A dry run counts and changes nothing. Where every source's
/// assignments were in order nothing is left that refers to the account, and it
/// is to be deleted. A step that fails leaves what was moved before it.
pub fn merge_provider_accounts(
    accounts: &[ProviderAccount],
    sources: &[SourceLocation],
    records: &mut AccountRecords,
    provider: &str,
    from_selector: &str,
    to_selector: &str,
    dry_run: bool,
    now: Timestamp,
) -> (r: Result<AccountMergeReport, String>)
    requires
        held_wf(old(records)@),
    ensures
        ({
            let before = old(records)@;
            let after = final(records)@;
            match (
                selection(accounts@, provider@, from_selector@),
                selection(accounts@, provider@, to_selector@),
            ) {
                (None, _) => after == before && (r matches Err(e) && e@ == selection_error(
                    accounts@,
                    provider@,
                    from_selector@,
                )),
                (Some(_), None) => after == before && (r matches Err(e) && e@ == selection_error(
                    accounts@,
                    provider@,
                    to_selector@,
                )),
                (Some(from), Some(to)) => {
                    &&& r matches Ok(report) ==> reports_merge(
                        report,
                        before,
                        after,
                        provider@,
                        from,
                        to,
                        dry_run,
                    )
                    &&& if from.provider_account_id.0@ == to.provider_account_id.0@ {
                        after == before && (r matches Err(e) && e@
                            == "source and destination accounts are the same"@)
                    } else if dry_run {
                        after == before && r is Ok
                    } else {
                        &&& records_moved(
                            before,
                            after,
                            outcome_of(r),
                            sources@,
                            provider@,
                            from.provider_account_id,
                            to,
                            now,
                        )
                        &&& r matches Ok(report) ==> (all_consistent(before.assignments) ==> (
                        report.remaining_references.total_spec() == 0
                            && report.deleted_source_account))
                    }
                },
            }
        }),
{
    let from = match resolve_existing_provider_account_selector(accounts, provider, from_selector) {
        Ok(a) => a,
        Err(e) => return Err(e),
    };
    let to = match resolve_existing_provider_account_selector(accounts, provider, to_selector) {
        Ok(a) => a,
        Err(e) => return Err(e),
    };
    match check_account_merge(&from, &to) {
        Ok(_) => {},
        Err(e) => return Err(e),
    }
    let ghost before = records@;
    let moved = references(records, &from.provider_account_id, provider);
    if !dry_run {
        let done = move_account_records(
            records,
            sources,
            provider,
            &from.provider_account_id,
            &to,
            now,
        );
        if let Err(e) = done {
            return Err(e);
        }
        proof {
            assert(done->Ok_0 == ());
            assert(done == Ok::<(), String>(()));
            merging_leaves_no_reference(
                before,
                records@,
                sources@,
                provider@,
                from.provider_account_id,
                to,
                now,
            );
        }
    }
    let remaining = references(records, &from.provider_account_id, provider);
    let deleted = !dry_run && remaining.none();
    Ok(
        AccountMergeReport {
            provider: provider.to_owned(),
            from: display_account_identity(&from),
            to: display_account_identity(&to),
            from_provider_account_id: from.provider_account_id.0.clone(),
            to_provider_account_id: to.provider_account_id.0.clone(),
            moved_source_account_assignments: moved.source_account_assignments,
            moved_subscriptions: moved.subscriptions,
            moved_events: moved.events,
            moved_summaries: moved.summaries,
            deleted_source_account: deleted,
            remaining_references: remaining,
            reset_local_sync_tracking: !dry_run,
            dry_run,
        },
    )
}

// ---------------------------------------------------------------------------
// Removing an account
// ---------------------------------------------------------------------------

/// What removing an account comes to.
#[derive(Debug, Clone, PartialEq, Eq)]
pub struct AccountRemoveReport {
    pub provider: String,
    pub account: String,
    pub provider_account_id: String,
    pub deleted: bool,
    pub remaining_references: AccountReferenceCounts,
    pub reset_local_sync_tracking: bool,
    pub dry_run: bool,
}

/// The accounts but those with the identifier.
pub open spec fn accounts_without(v: Seq<ProviderAccount>, id: Seq<char>) -> Seq<ProviderAccount> {
    v.filter(|a: ProviderAccount| a.provider_account_id.0@ != id)
}

fn without_account(v: &[ProviderAccount], id: &str) -> (r: Vec<ProviderAccount>)
    ensures
        r@ == accounts_without(v@, id@),
{
    let mut out: Vec<ProviderAccount> = Vec::new();
    let mut i: usize = 0;
    proof {
        reveal(Seq::filter);
        assert(v@.take(0) =~= Seq::empty());
    }
    while i < v.len()
        invariant
            i <= v.len(),
            out@ == accounts_without(v@.take(i as int), id@),
        decreases v.len() - i,
    {
        proof {
            reveal(Seq::filter);
            assert(v@.take(i + 1).drop_last() =~= v@.take(i as int));
            assert(v@.take(i + 1).last() == v@[i as int]);
        }
        if !same_text(v[i].provider_account_id.0.as_str(), id) {
            out.push(v[i].clone());
        }
        i = i + 1;
    }
    proof {
        assert(v@.take(i as int) =~= v@);
    }
    out
}

/// Removes the account that the selector names, where nothing of the provider
/// refers to it. A dry run changes nothing.
pub fn remove_orphan_provider_account(
    accounts: &mut Vec<ProviderAccount>,
    records: &AccountRecords,
    provider: &str,
    selector: &str,
    dry_run: bool,
) -> (r: Result<AccountRemoveReport, String>)
    ensures
        match selection(old(accounts)@, provider@, selector@) {
            None => final(accounts)@ == old(accounts)@ && (r matches Err(e) && e@
                == selection_error(old(accounts)@, provider@, selector@)),
            Some(a) => match r {
                Ok(report) => {
                    &&& report.provider@ == provider@
                    &&& report.account@ == account_name(a)
                    &&& report.provider_account_id@ == a.provider_account_id.0@
                    &&& report.deleted == !dry_run
                    &&& counts_of(
                        report.remaining_references,
                        records@,
                        provider@,
                        a.provider_account_id.0@,
                    )
                    &&& report.remaining_references.total_spec() == 0
                    &&& report.reset_local_sync_tracking == !dry_run
                    &&& report.dry_run == dry_run
                    &&& final(accounts)@ == if dry_run {
                        old(accounts)@
                    } else {
                        accounts_without(old(accounts)@, a.provider_account_id.0@)
                    }
                },
                Err(e) => {
                    &&& final(accounts)@ == old(accounts)@
                    &&& exists|c: AccountReferenceCounts| #[trigger]
                        counts_of(c, records@, provider@, a.provider_account_id.0@)
                            && c.total_spec() > 0 && e@ == still_referenced_text(a, c)
                },
            },
        },
{
    let account = match resolve_existing_provider_account_selector(accounts, provider, selector) {
        Ok(a) => a,
        Err(e) => return Err(e),
    };
    let remaining = references(records, &account.provider_account_id, provider);
    if let Err(e) = check_account_removal(&account, &remaining) {
        return Err(e);
    }
    if !dry_run {
        *accounts = without_account(accounts, account.provider_account_id.0.as_str());
    }
    Ok(
        AccountRemoveReport {
            provider: provider.to_owned(),
            account: display_account_identity(&account),
            provider_account_id: account.provider_account_id.0.clone(),
            deleted: !dry_run,
            remaining_references: remaining,
            reset_local_sync_tracking: !dry_run,
            dry_run,
        },
    )
}

} // verus!
