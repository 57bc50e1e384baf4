//! Subscription periods: adding, changing, ending and moving them.
use crate::assignments::{proper_window, validate_time_window, window_text};
use crate::calendar::civil;
use crate::ids::{ProviderAccountId, SubscriptionId, subscription_id, subscription_id_spec};
use crate::records::{
    BillingPeriod, IdentitySource, SUBSCRIPTION_SCHEMA_VERSION, Subscription, SubscriptionStatus,
    effective_end, effective_subscription_ended_at, in_period, overlapping, periods_overlap,
    timestamp_in_period,
};
use crate::text::{ascii_lowercase, concat3, lowered, opt_str, same_text};
use crate::time::{Timestamp, civil_of, opt_wf, rfc3339_text};
use vstd::prelude::*;

verus! {

pub open spec fn instant_text(t: Timestamp) -> Seq<char> {
    rfc3339_text(t.secs as int, t.nanos as int)
}

/// Whether a subscription is the account's with the provider.
pub open spec fn of_account(s: Subscription, provider: Seq<char>, account: Seq<char>) -> bool {
    s.provider@ == provider && s.provider_account_id.0@ == account
}

fn is_of_account(s: &Subscription, provider: &str, account: &ProviderAccountId) -> (r: bool)
    ensures
        r == of_account(*s, provider@, account.0@),
{
    same_text(s.provider.as_str(), provider) && same_text(
        s.provider_account_id.0.as_str(),
        account.0.as_str(),
    )
}

// ---------------------------------------------------------------------------
// Overlaps
// ---------------------------------------------------------------------------

/// Whether a stored subscription stands in the way of a period.
pub open spec fn in_the_way(
    s: Subscription,
    provider: Seq<char>,
    account: Seq<char>,
    start: Timestamp,
    end: Option<Timestamp>,
    ignore: Option<Seq<char>>,
) -> bool {
    &&& ignore != Some(s.subscription_id.0@)
    &&& of_account(s, provider, account)
    &&& overlapping(start, end, s.started_at, s.ended_at)
}

/// The first of the subscriptions from `i` on that stands in the way.
pub open spec fn first_in_the_way(
    v: Seq<Subscription>,
    provider: Seq<char>,
    account: Seq<char>,
    start: Timestamp,
    end: Option<Timestamp>,
    ignore: Option<Seq<char>>,
    i: int,
) -> Option<int>
    decreases v.len() - i,
{
    if i < 0 || i >= v.len() {
        None
    } else if in_the_way(v[i], provider, account, start, end, ignore) {
        Some(i)
    } else {
        first_in_the_way(v, provider, account, start, end, ignore, i + 1)
    }
}

pub open spec fn overlap_text(s: Subscription, account: Seq<char>) -> Seq<char> {
    "subscription overlaps existing subscription "@ + s.subscription_id.0@ + " for account "@
        + account
}

pub open spec fn id_text(o: Option<&SubscriptionId>) -> Option<Seq<char>> {
    match o {
        Some(id) => Some(id.0@),
        None => None,
    }
}

/// Fails where a period overlaps one of the account's subscriptions with the
/// provider, other than the one to ignore.
pub fn validate_subscription_overlap(
    subscriptions: &[Subscription],
    provider: &str,
    provider_account_id: &ProviderAccountId,
    started_at: Timestamp,
    ended_at: Option<Timestamp>,
    ignore_subscription_id: Option<&SubscriptionId>,
) -> (r: Result<(), String>)
    ensures
        ({
            let clash = first_in_the_way(
                subscriptions@,
                provider@,
                provider_account_id.0@,
                started_at,
                ended_at,
                id_text(ignore_subscription_id),
                0,
            );
            match r {
                Ok(_) => clash is None,
                Err(e) => clash matches Some(k) && e@ == overlap_text(
                    subscriptions@[k],
                    provider_account_id.0@,
                ),
            }
        }),
{
    let ghost ignore = id_text(ignore_subscription_id);
    let mut i: usize = 0;
    while i < subscriptions.len()
        invariant
            i <= subscriptions.len(),
            ignore == id_text(ignore_subscription_id),
            first_in_the_way(
                subscriptions@,
                provider@,
                provider_account_id.0@,
                started_at,
                ended_at,
                ignore,
                0,
            ) == first_in_the_way(
                subscriptions@,
                provider@,
                provider_account_id.0@,
                started_at,
                ended_at,
                ignore,
                i as int,
            ),
        decreases subscriptions.len() - i,
    {
        let s = &subscriptions[i];
        let ignored = match ignore_subscription_id {
            Some(id) => same_text(id.0.as_str(), s.subscription_id.0.as_str()),
            None => false,
        };
        if !ignored && is_of_account(s, provider, provider_account_id) && periods_overlap(
            started_at,
            ended_at,
            s.started_at,
            s.ended_at,
        ) {
            let mut message = concat3(
                "subscription overlaps existing subscription ",
                s.subscription_id.0.as_str(),
                " for account ",
            );
            message.append(provider_account_id.0.as_str());
            return Err(message);
        }
        i = i + 1;
    }
    Ok(())
}

/// A period that passed the check overlaps no subscription of the account.
pub proof fn lemma_nothing_in_the_way(
    v: Seq<Subscription>,
    provider: Seq<char>,
    account: Seq<char>,
    start: Timestamp,
    end: Option<Timestamp>,
    ignore: Option<Seq<char>>,
    i: int,
    k: int,
)
    requires
        0 <= i <= k < v.len(),
        first_in_the_way(v, provider, account, start, end, ignore, i) is None,
    ensures
        !in_the_way(v[k], provider, account, start, end, ignore),
    decreases v.len() - i,
{
    if i < k {
        lemma_nothing_in_the_way(v, provider, account, start, end, ignore, i + 1, k);
    }
}

// ---------------------------------------------------------------------------
// Finding
// ---------------------------------------------------------------------------

/// Whether a subscription is the account's, of the plan where one is named, and
/// running at `t`.
pub open spec fn running(
    s: Subscription,
    provider: Seq<char>,
    account: Seq<char>,
    plan: Option<Seq<char>>,
    t: Timestamp,
) -> bool {
    &&& of_account(s, provider, account)
    &&& plan matches Some(p) ==> lowered(s.plan_name@) == lowered(p)
    &&& in_period(t, s.started_at, effective_end(s))
}

/// The running subscription among the first `n`: the one that starts last, and of
/// those that start together the last.
pub open spec fn running_upto(
    v: Seq<Subscription>,
    provider: Seq<char>,
    account: Seq<char>,
    plan: Option<Seq<char>>,
    t: Timestamp,
    n: int,
) -> Option<int>
    decreases n,
{
    if n <= 0 {
        None
    } else {
        let before = running_upto(v, provider, account, plan, t, n - 1);
        if !running(v[n - 1], provider, account, plan, t) {
            before
        } else {
            match before {
                Some(k) => if v[n - 1].started_at.at() >= v[k].started_at.at() {
                    Some(n - 1)
                } else {
                    before
                },
                None => Some(n - 1),
            }
        }
    }
}

pub open spec fn no_active_text(account: Seq<char>, plan: Option<Seq<char>>, t: Timestamp) -> Seq<char> {
    "no active"@ + (match plan {
        Some(p) => " plan "@ + p,
        None => Seq::empty(),
    }) + " subscription found for account "@ + account + " at "@ + instant_text(t)
}

fn is_running(
    s: &Subscription,
    provider: &str,
    account: &ProviderAccountId,
    plan: Option<&str>,
    t: Timestamp,
) -> (r: bool)
    ensures
        r == running(*s, provider@, account.0@, opt_str(plan), t),
{
    let of_plan = match plan {
        Some(p) => {
            let a = ascii_lowercase(s.plan_name.as_str());
            let b = ascii_lowercase(p);
            same_text(a.as_str(), b.as_str())
        },
        None => true,
    };
    is_of_account(s, provider, account) && of_plan && timestamp_in_period(
        t,
        s.started_at,
        effective_subscription_ended_at(s),
    )
}

/// The account's subscription that runs at `timestamp`.
pub fn active_subscription(
    subscriptions: &[Subscription],
    provider: &str,
    provider_account_id: &ProviderAccountId,
    plan: Option<&str>,
    timestamp: Timestamp,
) -> (r: Result<Subscription, String>)
    requires
        timestamp.wf(),
    ensures
        ({
            let found = running_upto(
                subscriptions@,
                provider@,
                provider_account_id.0@,
                opt_str(plan),
                timestamp,
                subscriptions@.len() as int,
            );
            match r {
                Ok(s) => found matches Some(k) && s == subscriptions@[k],
                Err(e) => found is None && e@ == no_active_text(
                    provider_account_id.0@,
                    opt_str(plan),
                    timestamp,
                ),
            }
        }),
{
    let mut found: Option<usize> = None;
    let mut i: usize = 0;
    while i < subscriptions.len()
        invariant
            i <= subscriptions.len(),
            match found {
                Some(k) => k < i && running_upto(
                    subscriptions@,
                    provider@,
                    provider_account_id.0@,
                    opt_str(plan),
                    timestamp,
                    i as int,
                ) == Some(k as int),
                None => running_upto(
                    subscriptions@,
                    provider@,
                    provider_account_id.0@,
                    opt_str(plan),
                    timestamp,
                    i as int,
                ) is None,
            },
        decreases subscriptions.len() - i,
    {
        if is_running(&subscriptions[i], provider, provider_account_id, plan, timestamp) {
            match found {
                Some(k) => {
                    if subscriptions[k].started_at.not_after(&subscriptions[i].started_at) {
                        found = Some(i);
                    }
                },
                None => {
                    found = Some(i);
                },
            }
        }
        i = i + 1;
    }
    match found {
        Some(k) => Ok(subscriptions[k].clone()),
        None => {
            let at = timestamp.to_rfc3339();
            let mut message = "no active".to_owned();
            match plan {
                Some(p) => {
                    message.append(" plan ");
                    message.append(p);
                },
                None => {},
            }
            proof {
                assert(message@ =~= "no active"@ + (match opt_str(plan) {
                    Some(p) => " plan "@ + p,
                    None => Seq::empty(),
                }));
            }
            message.append(" subscription found for account ");
            message.append(provider_account_id.0.as_str());
            message.append(" at ");
            message.append(at.as_str());
            Err(message)
        },
    }
}

/// Whether a subscription is the account's, starts at the instant, and is of the
/// plan where one is named.
pub open spec fn starts_at(
    s: Subscription,
    provider: Seq<char>,
    account: Seq<char>,
    start: Timestamp,
    plan: Option<Seq<char>>,
) -> bool {
    &&& of_account(s, provider, account)
    &&& s.started_at == start
    &&& plan matches Some(p) ==> s.plan_name@ == p
}

pub open spec fn first_starting(
    v: Seq<Subscription>,
    provider: Seq<char>,
    account: Seq<char>,
    start: Timestamp,
    plan: Option<Seq<char>>,
    i: int,
) -> Option<int>
    decreases v.len() - i,
{
    if i < 0 || i >= v.len() {
        None
    } else if starts_at(v[i], provider, account, start, plan) {
        Some(i)
    } else {
        first_starting(v, provider, account, start, plan, i + 1)
    }
}

/// The account's subscription that starts at the instant.
pub fn subscription_for_period(
    subscriptions: &[Subscription],
    provider: &str,
    provider_account_id: &ProviderAccountId,
    started_at: Timestamp,
    plan: Option<&str>,
) -> (r: Result<Subscription, String>)
    requires
        started_at.wf(),
    ensures
        ({
            let found = first_starting(
                subscriptions@,
                provider@,
                provider_account_id.0@,
                started_at,
                opt_str(plan),
                0,
            );
            match r {
                Ok(s) => found matches Some(k) && s == subscriptions@[k],
                Err(e) => found is None && e@ == "unknown subscription period for account "@
                    + provider_account_id.0@ + " starting "@ + instant_text(started_at),
            }
        }),
{
    let mut i: usize = 0;
    while i < subscriptions.len()
        invariant
            i <= subscriptions.len(),
            first_starting(
                subscriptions@,
                provider@,
                provider_account_id.0@,
                started_at,
                opt_str(plan),
                0,
            ) == first_starting(
                subscriptions@,
                provider@,
                provider_account_id.0@,
                started_at,
                opt_str(plan),
                i as int,
            ),
        decreases subscriptions.len() - i,
    {
        let s = &subscriptions[i];
        let of_plan = match plan {
            Some(p) => same_text(s.plan_name.as_str(), p),
            None => true,
        };
        if is_of_account(s, provider, provider_account_id) && s.started_at == started_at && of_plan {
            return Ok(s.clone());
        }
        i = i + 1;
    }
    let at = started_at.to_rfc3339();
    let mut message = concat3(
        "unknown subscription period for account ",
        provider_account_id.0.as_str(),
        " starting ",
    );
    message.append(at.as_str());
    Err(message)
}

// ---------------------------------------------------------------------------
// Ending
// ---------------------------------------------------------------------------

pub open spec fn first_running(
    v: Seq<Subscription>,
    provider: Seq<char>,
    account: Seq<char>,
    t: Timestamp,
    i: int,
) -> Option<int>
    decreases v.len() - i,
{
    if i < 0 || i >= v.len() {
        None
    } else if running(v[i], provider, account, None, t) {
        Some(i)
    } else {
        first_running(v, provider, account, t, i + 1)
    }
}

/// The account's subscription that runs at `ended_at`, ended then; nothing where
/// none runs. Fails where it would end as it starts.
pub fn close_active_subscription(
    subscriptions: &[Subscription],
    provider: &str,
    provider_account_id: &ProviderAccountId,
    ended_at: Timestamp,
) -> (r: Result<Option<Subscription>, String>)
    ensures
        ({
            let found = first_running(
                subscriptions@,
                provider@,
                provider_account_id.0@,
                ended_at,
                0,
            );
            match r {
                Ok(None) => found is None,
                Ok(Some(s)) => found matches Some(k) && subscriptions@[k].started_at.at()
                    < ended_at.at() && s == (Subscription {
                    ended_at: Some(ended_at),
                    ..subscriptions@[k]
                }),
                Err(e) => found matches Some(k) && subscriptions@[k].started_at.at()
                    >= ended_at.at() && e@ == window_text("subscription"@),
            }
        }),
{
    let mut i: usize = 0;
    while i < subscriptions.len()
        invariant
            i <= subscriptions.len(),
            first_running(subscriptions@, provider@, provider_account_id.0@, ended_at, 0)
                == first_running(
                subscriptions@,
                provider@,
                provider_account_id.0@,
                ended_at,
                i as int,
            ),
        decreases subscriptions.len() - i,
    {
        let s = &subscriptions[i];
        if is_running(s, provider, provider_account_id, None, ended_at) {
            match validate_time_window(s.started_at, Some(ended_at), "subscription") {
                Ok(_) => {},
                Err(e) => return Err(e),
            }
            let mut out = s.clone();
            out.ended_at = Some(ended_at);
            return Ok(Some(out));
        }
        i = i + 1;
    }
    Ok(None)
}

/// Ends the account's subscription that runs at `ended_at`.
pub fn end_active_subscription(
    subscriptions: &[Subscription],
    provider: &str,
    provider_account_id: &ProviderAccountId,
    ended_at: Timestamp,
) -> (r: Result<Subscription, String>)
    requires
        ended_at.wf(),
    ensures
        ({
            let found = first_running(
                subscriptions@,
                provider@,
                provider_account_id.0@,
                ended_at,
                0,
            );
            match r {
                Ok(s) => found matches Some(k) && subscriptions@[k].started_at.at() < ended_at.at()
                    && s == (Subscription { ended_at: Some(ended_at), ..subscriptions@[k] }),
                Err(e) => match found {
                    Some(k) => subscriptions@[k].started_at.at() >= ended_at.at() && e@
                        == window_text("subscription"@),
                    None => e@ == no_active_text(provider_account_id.0@, None, ended_at),
                },
            }
        }),
{
    match close_active_subscription(subscriptions, provider, provider_account_id, ended_at) {
        Err(e) => Err(e),
        Ok(Some(s)) => Ok(s),
        Ok(None) => {
            let at = ended_at.to_rfc3339();
            let mut message = "no active".to_owned();
            proof {
                assert(message@ + Seq::<char>::empty() =~= message@);
            }
            message.append(" subscription found for account ");
            message.append(provider_account_id.0.as_str());
            message.append(" at ");
            message.append(at.as_str());
            Err(message)
        },
    }
}

// ---------------------------------------------------------------------------
// Adding and changing
// ---------------------------------------------------------------------------

/// A subscription period as the user gives it.
#[derive(Debug, Clone, PartialEq, Eq)]
pub struct SubscriptionRequest {
    pub plan: String,
    /// In hundredths of the currency's unit.
    pub price: i64,
    pub currency: String,
    pub paid_at: Option<Timestamp>,
    pub started_at: Timestamp,
    pub ended_at: Option<Timestamp>,
}

/// When a period was paid: when the user says, else when it starts.
pub open spec fn paid_time(q: SubscriptionRequest) -> Timestamp {
    match q.paid_at {
        Some(t) => t,
        None => q.started_at,
    }
}

/// Whether `s` is the period that the user gives.
pub open spec fn is_requested(
    s: Subscription,
    q: SubscriptionRequest,
    provider: Seq<char>,
    account: ProviderAccountId,
    end: Option<Timestamp>,
) -> bool {
    &&& s.schema_version@ == SUBSCRIPTION_SCHEMA_VERSION@
    &&& s.subscription_id.0@ == subscription_id_spec(provider, account.0@, q.plan@, q.started_at)
    &&& s.provider@ == provider
    &&& s.provider_account_id == account
    &&& s.plan_name == q.plan
    &&& s.price == q.price
    &&& s.currency == q.currency
    &&& s.billing_period == BillingPeriod::Monthly
    &&& s.paid_at == Some(paid_time(q))
    &&& s.renewal_day matches Some(d) && d == civil(paid_time(q).day_spec()).2
    &&& s.started_at == q.started_at
    &&& s.ended_at == end
    &&& s.current_period_ends_at is None
    &&& s.status == SubscriptionStatus::Active
    &&& s.record_source == IdentitySource::UserConfigured
    &&& s.verified_at is None
    &&& s.notes is None
}

/// The day of the month on which a subscription paid at the instant renews.
pub fn subscription_renewal_day(timestamp: Timestamp) -> (r: Option<u8>)
    requires
        timestamp.wf(),
    ensures
        r matches Some(d) && d == civil(timestamp.day_spec()).2 && 1 <= d <= 31,
{
    let (_, _, day) = civil_of(timestamp.day());
    Some(day as u8)
}

fn requested_subscription(
    q: SubscriptionRequest,
    provider: &str,
    account: &ProviderAccountId,
    ended_at: Option<Timestamp>,
) -> (r: Subscription)
    requires
        q.started_at.wf(),
        opt_wf(q.paid_at),
    ensures
        is_requested(r, q, provider@, *account, ended_at),
{
    let paid = match q.paid_at {
        Some(t) => t,
        None => q.started_at,
    };
    Subscription {
        schema_version: SUBSCRIPTION_SCHEMA_VERSION.to_owned(),
        subscription_id: subscription_id(provider, account, q.plan.as_str(), q.started_at),
        provider: provider.to_owned(),
        provider_account_id: account.clone(),
        plan_name: q.plan,
        price: q.price,
        currency: q.currency,
        billing_period: BillingPeriod::Monthly,
        paid_at: Some(paid),
        renewal_day: subscription_renewal_day(paid),
        started_at: q.started_at,
        ended_at,
        current_period_ends_at: None,
        status: SubscriptionStatus::Active,
        record_source: IdentitySource::UserConfigured,
        verified_at: None,
        notes: None,
    }
}

/// The period that the user adds. Fails where it has no instant, and where it
/// overlaps another of the account's.
pub fn add_subscription(
    subscriptions: &[Subscription],
    provider: &str,
    account: &ProviderAccountId,
    request: SubscriptionRequest,
) -> (r: Result<Subscription, String>)
    requires
        request.started_at.wf(),
        opt_wf(request.paid_at),
    ensures
        ({
            let clash = first_in_the_way(
                subscriptions@,
                provider@,
                account.0@,
                request.started_at,
                request.ended_at,
                None,
                0,
            );
            let proper = proper_window(request.started_at, request.ended_at);
            match r {
                Ok(s) => proper && clash is None && is_requested(
                    s,
                    request,
                    provider@,
                    *account,
                    request.ended_at,
                ),
                Err(e) => if !proper {
                    e@ == window_text("subscription"@)
                } else {
                    clash matches Some(k) && e@ == overlap_text(subscriptions@[k], account.0@)
                },
            }
        }),
{
    match validate_time_window(request.started_at, request.ended_at, "subscription") {
        Ok(_) => {},
        Err(e) => return Err(e),
    }
    match validate_subscription_overlap(
        subscriptions,
        provider,
        account,
        request.started_at,
        request.ended_at,
        None,
    ) {
        Ok(_) => {},
        Err(e) => return Err(e),
    }
    let ended_at = request.ended_at;
    Ok(requested_subscription(request, provider, account, ended_at))
}

/// A period added to an account overlaps none of its others.
pub proof fn an_added_subscription_overlaps_none(
    v: Seq<Subscription>,
    s: Subscription,
    q: SubscriptionRequest,
    provider: Seq<char>,
    account: ProviderAccountId,
    k: int,
)
    requires
        first_in_the_way(v, provider, account.0@, q.started_at, q.ended_at, None, 0) is None,
        is_requested(s, q, provider, account, q.ended_at),
        0 <= k < v.len(),
        of_account(v[k], provider, account.0@),
    ensures
        !overlapping(s.started_at, s.ended_at, v[k].started_at, v[k].ended_at),
{
    lemma_nothing_in_the_way(v, provider, account.0@, q.started_at, q.ended_at, None, 0, k);
}

/// The running period, ended where the new one starts, and the new one. Fails
/// where none runs then, and where the running one would end as it starts.
pub fn change_subscription(
    subscriptions: &[Subscription],
    provider: &str,
    account: &ProviderAccountId,
    request: SubscriptionRequest,
) -> (r: Result<(Subscription, Subscription), String>)
    requires
        request.started_at.wf(),
        opt_wf(request.paid_at),
    ensures
        ({
            let found = first_running(
                subscriptions@,
                provider@,
                account.0@,
                request.started_at,
                0,
            );
            match r {
                Ok(p) => found matches Some(k) && subscriptions@[k].started_at.at()
                    < request.started_at.at() && p.0 == (Subscription {
                    ended_at: Some(request.started_at),
                    ..subscriptions@[k]
                }) && is_requested(p.1, request, provider@, *account, None),
                Err(e) => match found {
                    Some(k) => subscriptions@[k].started_at.at() >= request.started_at.at() && e@
                        == window_text("subscription"@),
                    None => e@ == "subscription change requires an active subscription for account "@
                        + account.0@ + " at "@ + instant_text(request.started_at),
                },
            }
        }),
{
    match close_active_subscription(subscriptions, provider, account, request.started_at) {
        Err(e) => Err(e),
        Ok(None) => {
            let at = request.started_at.to_rfc3339();
            let mut message = concat3(
                "subscription change requires an active subscription for account ",
                account.0.as_str(),
                " at ",
            );
            message.append(at.as_str());
            Err(message)
        },
        Ok(Some(closed)) => Ok((closed, requested_subscription(request, provider, account, None))),
    }
}

/// After a change the old period ends where the new one starts, and the two do
/// not overlap.
pub proof fn a_change_leaves_no_gap_and_no_overlap(
    closed: Subscription,
    fresh: Subscription,
    q: SubscriptionRequest,
    provider: Seq<char>,
    account: ProviderAccountId,
)
    requires
        closed.ended_at == Some(q.started_at),
        is_requested(fresh, q, provider, account, None),
    ensures
        closed.ended_at == Some(fresh.started_at),
        !overlapping(closed.started_at, closed.ended_at, fresh.started_at, fresh.ended_at),
{
}

/// Fails unless exactly one is asked for, the period that starts at an instant or
/// the running one.
pub fn check_period_choice(started_at_given: bool, current: bool) -> (r: Result<(), String>)
    ensures
        match r {
            Ok(_) => current != started_at_given,
            Err(e) => current == started_at_given && e@ == "pass either --started-at or --current"@,
        },
{
    if current == started_at_given {
        Err("pass either --started-at or --current".to_owned())
    } else {
        Ok(())
    }
}

/// The period to remove: the running one, or the one that starts at the instant.
/// Exactly one of the two has to be asked for.
pub fn subscription_to_remove(
    subscriptions: &[Subscription],
    provider: &str,
    account: &ProviderAccountId,
    plan: Option<&str>,
    started_at: Option<Timestamp>,
    current: bool,
    now: Timestamp,
) -> (r: Result<Subscription, String>)
    requires
        now.wf(),
        opt_wf(started_at),
    ensures
        match (current, started_at) {
            (true, None) => {
                let found = running_upto(
                    subscriptions@,
                    provider@,
                    account.0@,
                    opt_str(plan),
                    now,
                    subscriptions@.len() as int,
                );
                match r {
                    Ok(s) => found matches Some(k) && s == subscriptions@[k],
                    Err(e) => found is None && e@ == no_active_text(account.0@, opt_str(plan), now),
                }
            },
            (false, Some(t)) => {
                let found = first_starting(
                    subscriptions@,
                    provider@,
                    account.0@,
                    t,
                    opt_str(plan),
                    0,
                );
                match r {
                    Ok(s) => found matches Some(k) && s == subscriptions@[k],
                    Err(e) => found is None && e@ == "unknown subscription period for account "@
                        + account.0@ + " starting "@ + instant_text(t),
                }
            },
            _ => r matches Err(e) && e@ == "pass either --started-at or --current"@,
        },
{
    match check_period_choice(started_at.is_some(), current) {
        Ok(_) => {},
        Err(e) => return Err(e),
    }
    match started_at {
        Some(t) => subscription_for_period(subscriptions, provider, account, t, plan),
        None => active_subscription(subscriptions, provider, account, plan, now),
    }
}

// ---------------------------------------------------------------------------
// Moving
// ---------------------------------------------------------------------------

/// What moving a subscription to another account writes.
#[derive(Debug, Clone, PartialEq, Eq)]
pub struct SubscriptionMove {
    /// Whether the subscription under its old identifier is deleted.
    pub delete_old: bool,
    /// Whether `subscription` is written.
    pub write: bool,
    /// The account's subscription afterwards.
    pub subscription: Subscription,
}

/// The first subscription with the identifier.
pub open spec fn with_id(v: Seq<Subscription>, id: Seq<char>, i: int) -> Option<int>
    decreases v.len() - i,
{
    if i < 0 || i >= v.len() {
        None
    } else if v[i].subscription_id.0@ == id {
        Some(i)
    } else {
        with_id(v, id, i + 1)
    }
}

fn find_with_id(v: &[Subscription], id: &str) -> (r: Option<usize>)
    ensures
        match r {
            Some(k) => k < v@.len() && with_id(v@, id@, 0) == Some(k as int),
            None => with_id(v@, id@, 0) is None,
        },
{
    let mut i: usize = 0;
    while i < v.len()
        invariant
            i <= v.len(),
            with_id(v@, id@, 0) == with_id(v@, id@, i as int),
        decreases v.len() - i,
    {
        if same_text(v[i].subscription_id.0.as_str(), id) {
            return Some(i);
        }
        i = i + 1;
    }
    None
}

/// Whether `e`, an account's subscription, says the same as `s` of another.
pub open spec fn same_terms(e: Subscription, s: Subscription, account: Seq<char>) -> bool {
    &&& e.provider@ == s.provider@
    &&& e.provider_account_id.0@ == account
    &&& e.plan_name@ == s.plan_name@
    &&& e.price == s.price
    &&& e.currency@ == s.currency@
    &&& e.billing_period == s.billing_period
    &&& e.paid_at == s.paid_at
    &&& e.renewal_day == s.renewal_day
    &&& e.started_at == s.started_at
    &&& e.ended_at == s.ended_at
    &&& e.current_period_ends_at == s.current_period_ends_at
    &&& e.status == s.status
}

fn same_time(a: Option<Timestamp>, b: Option<Timestamp>) -> (r: bool)
    ensures
        r == (a == b),
{
    match (a, b) {
        (Some(x), Some(y)) => x == y,
        (None, None) => true,
        _ => false,
    }
}

fn has_same_terms(e: &Subscription, s: &Subscription, account: &ProviderAccountId) -> (r: bool)
    ensures
        r == same_terms(*e, *s, account.0@),
{
    let same_day = match (e.renewal_day, s.renewal_day) {
        (Some(x), Some(y)) => x == y,
        (None, None) => true,
        _ => false,
    };
    same_text(e.provider.as_str(), s.provider.as_str()) && same_text(
        e.provider_account_id.0.as_str(),
        account.0.as_str(),
    ) && same_text(e.plan_name.as_str(), s.plan_name.as_str()) && e.price == s.price && same_text(
        e.currency.as_str(),
        s.currency.as_str(),
    ) && e.billing_period == s.billing_period && same_time(e.paid_at, s.paid_at) && same_day
        && e.started_at == s.started_at && same_time(e.ended_at, s.ended_at) && same_time(
        e.current_period_ends_at,
        s.current_period_ends_at,
    ) && e.status == s.status
}

/// The identifier of a subscription on another account.
pub open spec fn moved_id(s: Subscription, account: Seq<char>) -> Seq<char> {
    subscription_id_spec(s.provider@, account, s.plan_name@, s.started_at)
}

/// The subscription that the new identifier already names, where it is another.
pub open spec fn taken_by(v: Seq<Subscription>, s: Subscription, account: Seq<char>) -> Option<int> {
    if moved_id(s, account) == s.subscription_id.0@ {
        None
    } else {
        with_id(v, moved_id(s, account), 0)
    }
}

/// What moving a subscription gives: an account that already has it keeps its
/// own, else the subscription is written under its new identifier, unless the
/// identifier names another one or the periods overlap.
pub open spec fn subscription_moved(
    r: Result<SubscriptionMove, String>,
    v: Seq<Subscription>,
    s: Subscription,
    target: ProviderAccountId,
) -> bool {
    let clash = first_in_the_way(
        v,
        s.provider@,
        target.0@,
        s.started_at,
        s.ended_at,
        Some(s.subscription_id.0@),
        0,
    );
    match taken_by(v, s, target.0@) {
        Some(k) => match r {
            Ok(m) => same_terms(v[k], s, target.0@) && m == (SubscriptionMove {
                delete_old: true,
                write: false,
                subscription: v[k],
            }),
            Err(e) => !same_terms(v[k], s, target.0@) && e@ == "subscription "@
                + s.subscription_id.0@ + " would collide with existing subscription "@ + moved_id(
                s,
                target.0@,
            ) + " on "@ + target.0@,
        },
        None => match r {
            Ok(m) => {
                &&& clash is None
                &&& m.write
                &&& m.delete_old == (moved_id(s, target.0@) != s.subscription_id.0@)
                &&& m.subscription.subscription_id.0@ == moved_id(s, target.0@)
                &&& m.subscription == (Subscription {
                    subscription_id: m.subscription.subscription_id,
                    provider_account_id: target,
                    ..s
                })
            },
            Err(e) => clash matches Some(k) && e@ == overlap_text(v[k], target.0@),
        },
    }
}

/// Moves a subscription to another account of the provider. Where the account
/// already has the same subscription, the old one is deleted. Fails where the
/// account has another under that identifier, and where the periods overlap.
pub fn move_subscription_to_account(
    subscriptions: &[Subscription],
    subscription: &Subscription,
    target: &ProviderAccountId,
) -> (r: Result<SubscriptionMove, String>)
    requires
        subscription.started_at.wf(),
    ensures
        subscription_moved(r, subscriptions@, *subscription, *target),
{
    let new_id = subscription_id(
        subscription.provider.as_str(),
        target,
        subscription.plan_name.as_str(),
        subscription.started_at,
    );
    let renamed = !same_text(new_id.0.as_str(), subscription.subscription_id.0.as_str());
    if renamed {
        match find_with_id(subscriptions, new_id.0.as_str()) {
            Some(k) => {
                if has_same_terms(&subscriptions[k], subscription, target) {
                    return Ok(
                        SubscriptionMove {
                            delete_old: true,
                            write: false,
                            subscription: subscriptions[k].clone(),
                        },
                    );
                }
                let mut message = concat3(
                    "subscription ",
                    subscription.subscription_id.0.as_str(),
                    " would collide with existing subscription ",
                );
                message.append(new_id.0.as_str());
                message.append(" on ");
                message.append(target.0.as_str());
                return Err(message);
            },
            None => {},
        }
    }
    match validate_subscription_overlap(
        subscriptions,
        subscription.provider.as_str(),
        target,
        subscription.started_at,
        subscription.ended_at,
        Some(&subscription.subscription_id),
    ) {
        Ok(_) => {},
        Err(e) => return Err(e),
    }
    let mut moved = subscription.clone();
    moved.subscription_id = new_id;
    moved.provider_account_id = target.clone();
    Ok(SubscriptionMove { delete_old: renamed, write: true, subscription: moved })
}

pub open spec fn status_name(status: SubscriptionStatus) -> Seq<char> {
    match status {
        SubscriptionStatus::Active => "active"@,
        SubscriptionStatus::Paused => "paused"@,
        SubscriptionStatus::Cancelled => "cancelled"@,
    }
}

pub fn subscription_status_label(status: &SubscriptionStatus) -> (r: &'static str)
    ensures
        r@ == status_name(*status),
{
    match status {
        SubscriptionStatus::Active => "active",
        SubscriptionStatus::Paused => "paused",
        SubscriptionStatus::Cancelled => "cancelled",
    }
}

} // verus!
