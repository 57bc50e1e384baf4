//! Which subscription is found, refused, closed and written.
use crate::calendar::{civil, day_number, every_day_has_a_date, is_date};
use crate::ids::ProviderAccountId;
use crate::matching_laws::fits;
use crate::records::{
    BillingPeriod, IdentitySource, Subscription, SubscriptionStatus, effective_end, vouched,
};
use crate::subscriptions::{
    SubscriptionMove, SubscriptionRequest, first_in_the_way, first_running, first_starting,
    in_the_way, is_requested, moved_id, running_upto, subscription_moved, taken_by, with_id,
};
use crate::text::lowered;
use crate::time::{Timestamp, last_instant};
use vstd::prelude::*;

verus! {

/// A login or the provider itself vouches for a record from these sources and no
/// others.
pub proof fn logins_and_providers_vouch(s: IdentitySource)
    ensures
        vouched(s) == (s == IdentitySource::LocalAuth || s == IdentitySource::ProviderAuth || s
            == IdentitySource::ProviderApi || s == IdentitySource::CookieOauth || s
            == IdentitySource::CliProbe),
{
}

/// A subscription ends where it says, but for an active one that a login vouches
/// for and whose end is that of the current billing period: that one goes on.
pub proof fn a_subscription_ends_where_it_says(s: Subscription)
    ensures
        effective_end(s) == s.ended_at || effective_end(s) is None,
        s.status != SubscriptionStatus::Active ==> effective_end(s) == s.ended_at,
        !vouched(s.record_source) ==> effective_end(s) == s.ended_at,
        s.current_period_ends_at != s.ended_at ==> effective_end(s) == s.ended_at,
        s.status == SubscriptionStatus::Active && vouched(s.record_source)
            && s.current_period_ends_at == s.ended_at ==> effective_end(s) is None,
{
}

/// Whether a subscription of the account shares an instant with a period.
pub open spec fn clashes(
    s: Subscription,
    provider: Seq<char>,
    account: Seq<char>,
    start: Timestamp,
    end: Option<Timestamp>,
) -> bool {
    &&& s.provider@ == provider
    &&& s.provider_account_id.0@ == account
    &&& match s.ended_at {
        Some(e) => start.at() < e.at(),
        None => start.at() < last_instant().at(),
    }
    &&& match end {
        Some(e) => s.started_at.at() < e.at(),
        None => s.started_at.at() < last_instant().at(),
    }
}

/// A period is refused exactly where a subscription of the account clashes with it
/// that is not the one to ignore; the first such one is named.
pub proof fn the_first_clash_is_found(
    v: Seq<Subscription>,
    provider: Seq<char>,
    account: Seq<char>,
    start: Timestamp,
    end: Option<Timestamp>,
    ignore: Option<Seq<char>>,
    i: int,
)
    requires
        0 <= i <= v.len(),
    ensures
        ({
            let r = first_in_the_way(v, provider, account, start, end, ignore, i);
            &&& r is Some == exists|k: int|
                i <= k < v.len() && clashes(#[trigger] v[k], provider, account, start, end)
                    && ignore != Some(v[k].subscription_id.0@)
            &&& r is Some ==> i <= r->0 < v.len() && clashes(
                v[r->0],
                provider,
                account,
                start,
                end,
            ) && ignore != Some(v[r->0].subscription_id.0@)
            &&& r is Some ==> forall|k: int|
                i <= k < r->0 ==> !clashes(#[trigger] v[k], provider, account, start, end) || ignore
                    == Some(v[k].subscription_id.0@)
        }),
    decreases v.len() - i,
{
    if i < v.len() {
        the_first_clash_is_found(v, provider, account, start, end, ignore, i + 1);
        if in_the_way(v[i], provider, account, start, end, ignore) {
            assert(clashes(v[i], provider, account, start, end));
        }
    }
}

/// Whether a subscription of the account runs at an instant.
pub open spec fn runs_at(
    s: Subscription,
    provider: Seq<char>,
    account: Seq<char>,
    t: Timestamp,
) -> bool {
    &&& s.provider@ == provider
    &&& s.provider_account_id.0@ == account
    &&& s.started_at.at() <= t.at()
    &&& effective_end(s) is Some ==> t.at() < effective_end(s)->0.at()
}

/// The running subscription is one of the account's that runs at the instant, of
/// the plan where one is named, whatever the letter case; none that runs starts
/// later, and none after it starts as late.
pub proof fn the_running_subscription_started_last(
    v: Seq<Subscription>,
    provider: Seq<char>,
    account: Seq<char>,
    plan: Option<Seq<char>>,
    t: Timestamp,
    n: int,
)
    requires
        0 <= n <= v.len(),
    ensures
        ({
            let r = running_upto(v, provider, account, plan, t, n);
            let fits = |s: Subscription|
                runs_at(s, provider, account, t) && (plan is Some ==> lowered(s.plan_name@)
                    == lowered(plan->0));
            &&& r is None ==> forall|k: int| 0 <= k < n ==> !fits(#[trigger] v[k])
            &&& r is Some ==> 0 <= r->0 < n && fits(v[r->0])
            &&& r is Some ==> forall|k: int|
                0 <= k < n && fits(#[trigger] v[k]) ==> v[k].started_at.at()
                    <= v[r->0].started_at.at()
            &&& r is Some ==> forall|k: int|
                r->0 < k < n && fits(#[trigger] v[k]) ==> v[k].started_at.at()
                    < v[r->0].started_at.at()
        }),
    decreases n,
{
    if n > 0 {
        the_running_subscription_started_last(v, provider, account, plan, t, n - 1);
    }
}

/// The subscription that is closed is the first of the account's that runs at the
/// instant.
pub proof fn the_first_running_subscription_is_closed(
    v: Seq<Subscription>,
    provider: Seq<char>,
    account: Seq<char>,
    t: Timestamp,
    i: int,
)
    requires
        0 <= i <= v.len(),
    ensures
        ({
            let r = first_running(v, provider, account, t, i);
            &&& r is None ==> forall|k: int|
                i <= k < v.len() ==> !runs_at(#[trigger] v[k], provider, account, t)
            &&& r is Some ==> i <= r->0 < v.len() && runs_at(v[r->0], provider, account, t)
            &&& r is Some ==> forall|k: int|
                i <= k < r->0 ==> !runs_at(#[trigger] v[k], provider, account, t)
        }),
    decreases v.len() - i,
{
    if i < v.len() {
        the_first_running_subscription_is_closed(v, provider, account, t, i + 1);
    }
}

/// The subscription of a period is the first of the account's that starts at the
/// very instant, of the plan where one is named.
pub proof fn the_period_is_found_by_its_start(
    v: Seq<Subscription>,
    provider: Seq<char>,
    account: Seq<char>,
    start: Timestamp,
    plan: Option<Seq<char>>,
    i: int,
)
    requires
        0 <= i <= v.len(),
    ensures
        ({
            let r = first_starting(v, provider, account, start, plan, i);
            let fits = |s: Subscription|
                s.provider@ == provider && s.provider_account_id.0@ == account && s.started_at
                    == start && (plan is Some ==> s.plan_name@ == plan->0);
            &&& r is None ==> forall|k: int| i <= k < v.len() ==> !fits(#[trigger] v[k])
            &&& r is Some ==> i <= r->0 < v.len() && fits(v[r->0])
            &&& r is Some ==> forall|k: int| i <= k < r->0 ==> !fits(#[trigger] v[k])
        }),
    decreases v.len() - i,
{
    if i < v.len() {
        the_period_is_found_by_its_start(v, provider, account, start, plan, i + 1);
    }
}

/// A subscription that the user gives is as given: plan, price, currency and start;
/// paid when said, else at the start; and renewed on that day of the month.
pub proof fn a_given_subscription_is_as_given(
    s: Subscription,
    q: SubscriptionRequest,
    provider: Seq<char>,
    account: ProviderAccountId,
    end: Option<Timestamp>,
)
    requires
        is_requested(s, q, provider, account, end),
    ensures
        s.provider@ == provider,
        s.provider_account_id == account,
        s.plan_name@ == q.plan@,
        s.price == q.price,
        s.currency@ == q.currency@,
        s.started_at == q.started_at,
        s.ended_at == end,
        s.billing_period == BillingPeriod::Monthly,
        s.status == SubscriptionStatus::Active,
        s.record_source == IdentitySource::UserConfigured,
        q.paid_at is Some ==> s.paid_at == q.paid_at,
        q.paid_at is None ==> s.paid_at == Some(q.started_at),
        s.verified_at is None && s.current_period_ends_at is None,
        s.renewal_day is Some,
        exists|y: int, m: int| #[trigger]
            day_number((y, m, s.renewal_day->0 as int)) == s.paid_at->0.secs as int / 86_400 && is_date(
                (y, m, s.renewal_day->0 as int),
            ),
{
    let day = s.paid_at->0.day_spec();
    every_day_has_a_date(day);
    let c = civil(day);
    assert(day_number((c.0, c.1, s.renewal_day->0 as int)) == day);
}

/// A subscription that moves to another account keeps everything but its account
/// and its identifier, and goes to the account; one that the account already has
/// is kept as the account has it.
pub proof fn a_moved_subscription_is_the_accounts(
    m: SubscriptionMove,
    v: Seq<Subscription>,
    s: Subscription,
    target: ProviderAccountId,
)
    requires
        subscription_moved(Ok(m), v, s, target),
    ensures
        m.subscription.provider_account_id.0@ == target.0@,
        m.subscription.provider@ == s.provider@,
        m.subscription.plan_name@ == s.plan_name@,
        m.subscription.price == s.price,
        m.subscription.currency@ == s.currency@,
        m.subscription.started_at == s.started_at,
        m.subscription.ended_at == s.ended_at,
        m.subscription.status == s.status,
        m.subscription.billing_period == s.billing_period,
        m.subscription.paid_at == s.paid_at,
        m.subscription.renewal_day == s.renewal_day,
        m.subscription.current_period_ends_at == s.current_period_ends_at,
        m.write || m.delete_old,
        !m.write ==> exists|k: int|
            0 <= k < v.len() && #[trigger] v[k] == m.subscription && v[k].subscription_id.0@
                != s.subscription_id.0@,
        m.write ==> m.delete_old == (m.subscription.subscription_id.0@ != s.subscription_id.0@),
        m.write ==> forall|k: int|
            0 <= k < v.len() && (#[trigger] v[k]).subscription_id.0@ != s.subscription_id.0@
                ==> !clashes(v[k], s.provider@, target.0@, s.started_at, s.ended_at),
{
    if m.write {
        the_first_clash_is_found(
            v,
            s.provider@,
            target.0@,
            s.started_at,
            s.ended_at,
            Some(s.subscription_id.0@),
            0,
        );
    } else {
        lemma_with_id(v, moved_id(s, target.0@), 0);
        let k = taken_by(v, s, target.0@)->0;
        assert(v[k] == m.subscription);
    }
}

/// A record is found by its identifier wherever one has it, and it is the first
/// that does.
pub proof fn lemma_with_id(v: Seq<Subscription>, id: Seq<char>, i: int)
    requires
        0 <= i <= v.len(),
    ensures
        with_id(v, id, i) is None ==> forall|k: int|
            i <= k < v.len() ==> (#[trigger] v[k]).subscription_id.0@ != id,
        with_id(v, id, i) is Some ==> i <= with_id(v, id, i)->0 < v.len() && v[with_id(
            v,
            id,
            i,
        )->0].subscription_id.0@ == id,
    decreases v.len() - i,
{
    if i < v.len() {
        lemma_with_id(v, id, i + 1);
    }
}

} // verus!
