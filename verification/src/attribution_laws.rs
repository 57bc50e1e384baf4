//! Which account usage belongs to.
use crate::accounts::{assignments_to, events_of, named_places, selection, subscriptions_of};
use crate::assignments::{current_upto, last_active, resolved_event, resolved_summary};
use crate::identities::{
    Finding, email_key, finding, first_email, first_user, has_email, has_user, user_key,
};
use crate::ids::ProviderAccountId;
use crate::matching_laws::fits;
use crate::merge::{events_moved, summaries_moved};
use crate::records::{
    IdentitySource, ParseEvidence, ProviderAccount, SourceAccountAssignment, Subscription,
    UsageEvent, UsageSummary, account_name,
};
use crate::text::{blank, lowered, trimmed};
use crate::time::Timestamp;
use crate::usage_laws::picked;
use vstd::prelude::*;

verus! {

/// Whether an assignment holds at an instant: from its start on and before its
/// end.
pub open spec fn held_at(a: SourceAccountAssignment, t: Timestamp) -> bool {
    a.started_at.at() <= t.at() && (a.ended_at is None || t.at() < a.ended_at->0.at())
}

/// The assignment that counts at an instant holds then, and none that holds starts
/// later; there is none only where none holds.
pub proof fn the_assignment_that_counts_started_last(
    v: Seq<SourceAccountAssignment>,
    t: Timestamp,
    n: int,
)
    requires
        0 <= n <= v.len(),
    ensures
        ({
            let r = current_upto(v, t, n);
            &&& r is None ==> forall|k: int| 0 <= k < n ==> !held_at(#[trigger] v[k], t)
            &&& r is Some ==> 0 <= r->0 < n && held_at(v[r->0], t)
            &&& r is Some ==> forall|k: int|
                0 <= k < n && held_at(#[trigger] v[k], t) ==> v[k].started_at.at()
                    <= v[r->0].started_at.at()
            &&& r is Some ==> forall|k: int|
                r->0 < k < n && held_at(#[trigger] v[k], t) ==> v[k].started_at.at()
                    < v[r->0].started_at.at()
        }),
    decreases n,
{
    if n > 0 {
        the_assignment_that_counts_started_last(v, t, n - 1);
    }
}

/// The text of an identifier that is there.
pub open spec fn id_text_of(id: Option<ProviderAccountId>) -> Seq<char> {
    match id {
        Some(x) => x.0@,
        None => Seq::empty(),
    }
}

/// Whether an identity was chosen or guessed rather than found with the record.
pub open spec fn chosen_or_guessed(s: IdentitySource) -> bool {
    s == IdentitySource::SourceConfig || s == IdentitySource::UserConfigured || s
        == IdentitySource::ManualHint || s == IdentitySource::Unknown || s
        == IdentitySource::Unresolved
}

/// Whether a record names an account that was found with it.
pub open spec fn found_with_record(id: Option<ProviderAccountId>, e: Option<ParseEvidence>) -> bool {
    id is Some && !blank(id_text_of(id)) && e is Some && !chosen_or_guessed(
        e->0.account_identity_source,
    )
}

/// Whether a record's account may come only from an assignment.
pub open spec fn given_by_assignment(id: Option<ProviderAccountId>, e: Option<ParseEvidence>) -> bool {
    id is Some && !blank(id_text_of(id)) && (e is None || chosen_or_guessed(
        e->0.account_identity_source,
    ))
}

/// Whether nothing of an event changed but its account and where that comes from.
pub open spec fn same_but_for_account(a: UsageEvent, b: UsageEvent) -> bool {
    a == (UsageEvent {
        provider_account_id: a.provider_account_id,
        parse_evidence: a.parse_evidence,
        ..b
    })
}

/// What an event's account becomes: one that was found with the event stays; else
/// it is that of the assignment that holds when the event began; where none holds,
/// an account that only an assignment can have given is taken away. Nothing else
/// about the event changes.
pub proof fn an_event_goes_to_the_account_of_its_time(
    v: Seq<SourceAccountAssignment>,
    e: UsageEvent,
)
    ensures
        ({
            let r = resolved_event(v, e);
            let t = e.session.started_at;
            let id = e.provider_account_id;
            let found = found_with_record(id, e.parse_evidence);
            let k = current_upto(v, t, v.len() as int);
            &&& same_but_for_account(r, e)
            &&& found ==> r == e
            &&& !found && k is Some ==> r.provider_account_id == Some(v[k->0].provider_account_id)
            &&& !found && k is Some && e.parse_evidence is Some
                ==> r.parse_evidence->0.account_identity_source == IdentitySource::SourceConfig
            &&& !found && k is None && given_by_assignment(id, e.parse_evidence)
                ==> r.provider_account_id is None
            &&& !found && k is None && !given_by_assignment(id, e.parse_evidence) ==> r == e
            &&& r.parse_evidence is Some == e.parse_evidence is Some
        }),
{
}

/// What a summary's account becomes, by the assignment that holds when its period
/// starts, or when it was observed.
pub proof fn a_summary_goes_to_the_account_of_its_time(
    v: Seq<SourceAccountAssignment>,
    s: UsageSummary,
)
    ensures
        ({
            let r = resolved_summary(v, s);
            let t = if s.period_start is Some {
                s.period_start->0
            } else {
                s.observed_at
            };
            let id = s.provider_account_id;
            let found = found_with_record(id, s.parse_evidence);
            let k = current_upto(v, t, v.len() as int);
            &&& r == (UsageSummary {
                provider_account_id: r.provider_account_id,
                parse_evidence: r.parse_evidence,
                ..s
            })
            &&& found ==> r == s
            &&& !found && k is Some ==> r.provider_account_id == Some(v[k->0].provider_account_id)
            &&& !found && k is None && given_by_assignment(id, s.parse_evidence)
                ==> r.provider_account_id is None
            &&& !found && k is None && !given_by_assignment(id, s.parse_evidence) ==> r == s
        }),
{
}

/// The assignment that is ended is the last of those that hold at the instant and
/// are of the account, where one is named.
pub proof fn the_last_held_assignment_is_ended(
    v: Seq<SourceAccountAssignment>,
    t: Timestamp,
    account: Option<Seq<char>>,
    n: int,
)
    requires
        0 <= n <= v.len(),
    ensures
        ({
            let r = last_active(v, t, account, n);
            let fits = |a: SourceAccountAssignment|
                held_at(a, t) && (account is Some ==> a.provider_account_id.0@ == account->0);
            &&& r is None ==> forall|k: int| 0 <= k < n ==> !fits(#[trigger] v[k])
            &&& r is Some ==> 0 <= r->0 < n && fits(v[r->0])
            &&& r is Some ==> forall|k: int| r->0 < k < n ==> !fits(#[trigger] v[k])
        }),
    decreases n,
{
    if n > 0 {
        the_last_held_assignment_is_ended(v, t, account, n - 1);
    }
}

/// Records that are moved to an account are the account's, by the user's choice,
/// and otherwise unchanged; no other record is touched.
pub proof fn moving_records_changes_only_their_account(
    v: Seq<UsageEvent>,
    w: Seq<UsageSummary>,
    provider: Seq<char>,
    from: Seq<char>,
    to: ProviderAccountId,
    i: int,
)
    ensures
        events_moved(v, provider, from, to).len() == v.len(),
        summaries_moved(w, provider, from, to).len() == w.len(),
        0 <= i < v.len() ==> ({
            let e = v[i];
            let r = events_moved(v, provider, from, to)[i];
            let mine = e.provider@ == provider && e.provider_account_id is Some
                && id_text_of(e.provider_account_id) == from;
            &&& !mine ==> r == e
            &&& mine ==> r.provider_account_id == Some(to) && same_but_for_account(r, e)
            &&& mine && e.parse_evidence is Some ==> r.parse_evidence->0.account_identity_source
                == IdentitySource::UserConfigured
        }),
        0 <= i < w.len() ==> ({
            let s = w[i];
            let r = summaries_moved(w, provider, from, to)[i];
            let mine = s.provider@ == provider && s.provider_account_id is Some
                && id_text_of(s.provider_account_id) == from;
            &&& !mine ==> r == s
            &&& mine ==> r.provider_account_id == Some(to) && r.usage == s.usage && r.summary_id
                == s.summary_id && r.cost == s.cost
        }),
{
}

// ---------------------------------------------------------------------------
// Identities
// ---------------------------------------------------------------------------

/// Whether an account of the provider has the name with it, or the address.
pub open spec fn known_by(
    a: ProviderAccount,
    provider: Seq<char>,
    user: Option<Seq<char>>,
    email: Option<Seq<char>>,
) -> bool {
    a.provider@ == provider && ((user is Some && a.provider_user_id is Some && a.provider_user_id->0@
        == user->0) || (email is Some && a.email is Some && a.email->0@ == email->0))
}

proof fn lemma_first_user(v: Seq<ProviderAccount>, provider: Seq<char>, user: Option<Seq<char>>, i: int)
    requires
        0 <= i <= v.len(),
    ensures
        ({
            let r = first_user(v, provider, user, i);
            &&& r is None ==> forall|k: int|
                i <= k < v.len() ==> !has_user(#[trigger] v[k], provider, user)
            &&& r is Some ==> i <= r->0 < v.len() && has_user(v[r->0], provider, user)
        }),
    decreases v.len() - i,
{
    if i < v.len() {
        lemma_first_user(v, provider, user, i + 1);
    }
}

proof fn lemma_first_email(
    v: Seq<ProviderAccount>,
    provider: Seq<char>,
    email: Option<Seq<char>>,
    i: int,
)
    requires
        0 <= i <= v.len(),
    ensures
        ({
            let r = first_email(v, provider, email, i);
            &&& r is None ==> forall|k: int|
                i <= k < v.len() ==> !has_email(#[trigger] v[k], provider, email)
            &&& r is Some ==> i <= r->0 < v.len() && has_email(v[r->0], provider, email)
        }),
    decreases v.len() - i,
{
    if i < v.len() {
        lemma_first_email(v, provider, email, i + 1);
    }
}

/// The account that is found is known by the name or the address; none is found
/// only where none is known by either; and there is a conflict only where the
/// name and the address are of different accounts.
pub proof fn accounts_are_found_by_name_or_address(
    v: Seq<ProviderAccount>,
    provider: Seq<char>,
    user: Option<Seq<char>>,
    email: Option<Seq<char>>,
)
    ensures
        match finding(v, provider, user, email) {
            Finding::At(i) => 0 <= i < v.len() && known_by(v[i], provider, user, email),
            Finding::Nothing => forall|k: int|
                0 <= k < v.len() ==> !known_by(#[trigger] v[k], provider, user, email),
            Finding::Conflict => exists|i: int, j: int|
                0 <= i < v.len() && 0 <= j < v.len() && known_by(
                    #[trigger] v[i],
                    provider,
                    user,
                    None,
                ) && known_by(#[trigger] v[j], provider, None, email)
                    && v[i].provider_account_id.0@ != v[j].provider_account_id.0@,
        },
{
    lemma_first_user(v, provider, user, 0);
    lemma_first_email(v, provider, email, 0);
    match finding(v, provider, user, email) {
        Finding::Nothing => {
            assert forall|k: int| 0 <= k < v.len() implies !known_by(
                #[trigger] v[k],
                provider,
                user,
                email,
            ) by {
                assert(!has_user(v[k], provider, user));
                assert(!has_email(v[k], provider, email));
            }
        },
        Finding::Conflict => {
            let i = first_user(v, provider, user, 0)->0;
            let j = first_email(v, provider, email, 0)->0;
            assert(known_by(v[i], provider, user, None));
            assert(known_by(v[j], provider, None, email));
        },
        _ => {},
    }
}

/// A name is compared without the space around it, and an address in small letters
/// as well.
pub proof fn identities_are_compared_without_space_and_case(user: &str, email: &str)
    ensures
        user_key(Some(user)) == Some(trimmed(user@)),
        email_key(Some(email)) == Some(lowered(trimmed(email@))),
        user_key(None) is None,
        email_key(None) is None,
{
}

/// An account's name is the first that is not blank of its label, its address and
/// the provider's name for it; else its identifier.
pub proof fn an_account_is_called_by_its_label_first(a: ProviderAccount)
    ensures
        a.account_label is Some && !blank(a.account_label->0@) ==> account_name(a)
            == a.account_label->0@,
        (a.account_label is None || blank(a.account_label->0@)) && a.email is Some && !blank(
            a.email->0@,
        ) ==> account_name(a) == a.email->0@,
        (a.account_label is None || blank(a.account_label->0@)) && (a.email is None || blank(
            a.email->0@,
        )) && a.provider_user_id is Some && !blank(a.provider_user_id->0@) ==> account_name(a)
            == a.provider_user_id->0@,
        (a.account_label is None || blank(a.account_label->0@)) && (a.email is None || blank(
            a.email->0@,
        )) && (a.provider_user_id is None || blank(a.provider_user_id->0@)) ==> account_name(a)
            == a.provider_account_id.0@,
{
}

/// Whether a selector names an account of the provider.
pub open spec fn selects(a: ProviderAccount, provider: Seq<char>, selector: Seq<char>) -> bool {
    &&& a.provider@ == provider
    &&& a.provider_account_id.0@ == selector || (a.email is Some && lowered(trimmed(a.email->0@))
        == lowered(trimmed(selector))) || (a.provider_user_id is Some && trimmed(
        a.provider_user_id->0@,
    ) == trimmed(selector)) || (a.account_label is Some && lowered(trimmed(a.account_label->0@))
        == lowered(selector))
}

proof fn lemma_named_places(
    v: Seq<ProviderAccount>,
    provider: Seq<char>,
    selector: Seq<char>,
    n: int,
)
    requires
        0 <= n <= v.len(),
    ensures
        forall|k: int|
            0 <= k < named_places(v, provider, selector, n).len() ==> 0 <= (#[trigger] named_places(
                v,
                provider,
                selector,
                n,
            )[k]) < n && selects(v[named_places(v, provider, selector, n)[k]], provider, selector),
        forall|j: int, k: int|
            0 <= j < k < named_places(v, provider, selector, n).len() ==> (#[trigger] named_places(
                v,
                provider,
                selector,
                n,
            )[j]) < (#[trigger] named_places(v, provider, selector, n)[k]),
        forall|i: int|
            0 <= i < n && selects(#[trigger] v[i], provider, selector) ==> named_places(
                v,
                provider,
                selector,
                n,
            ).contains(i),
    decreases n,
{
    if n > 0 {
        lemma_named_places(v, provider, selector, n - 1);
        let before = named_places(v, provider, selector, n - 1);
        let now = named_places(v, provider, selector, n);
        assert forall|k: int| 0 <= k < now.len() implies 0 <= (#[trigger] now[k]) < n && selects(
            v[now[k]],
            provider,
            selector,
        ) by {
            if k < before.len() {
                assert(now[k] == before[k]);
            }
        }
        assert forall|j: int, k: int| 0 <= j < k < now.len() implies (#[trigger] now[j]) < (
        #[trigger] now[k]) by {
            assert(now[j] == before[j]);
            if k < before.len() {
                assert(now[k] == before[k]);
            }
        }
        assert forall|i: int| 0 <= i < n && selects(#[trigger] v[i], provider, selector) implies now.contains(
            i,
        ) by {
            if i < n - 1 {
                let k = choose|k: int| 0 <= k < before.len() && before[k] == i;
                assert(now[k] == i);
            } else {
                assert(now[now.len() - 1] == i);
            }
        }
    }
}

/// A selector selects an account exactly where it is not blank and names that one
/// account of the provider and no other.
pub proof fn a_selector_selects_the_one_account_it_names(
    v: Seq<ProviderAccount>,
    provider: Seq<char>,
    selector: Seq<char>,
)
    ensures
        ({
            let s = trimmed(selector);
            let r = selection(v, provider, selector);
            let one = exists|i: int|
                0 <= i < v.len() && selects(#[trigger] v[i], provider, s) && forall|j: int|
                    0 <= j < v.len() && j != i ==> !selects(#[trigger] v[j], provider, s);
            &&& r is Some == (s.len() > 0 && one)
            &&& r is Some ==> v.contains(r->0) && selects(r->0, provider, s)
        }),
{
    let s = trimmed(selector);
    let n = v.len() as int;
    lemma_named_places(v, provider, s, n);
    let found = named_places(v, provider, s, n);
    if found.len() == 1 {
        let i = found[0];
        assert(selects(v[i], provider, s));
        assert forall|j: int| 0 <= j < v.len() && j != i implies !selects(
            #[trigger] v[j],
            provider,
            s,
        ) by {
            if selects(v[j], provider, s) {
                let k = choose|k: int| 0 <= k < found.len() && found[k] == j;
                assert(k == 0);
            }
        }
        assert(v.contains(v[i]));
    }
    if exists|i: int|
        0 <= i < v.len() && selects(#[trigger] v[i], provider, s) && forall|j: int|
            0 <= j < v.len() && j != i ==> !selects(#[trigger] v[j], provider, s) {
        let i = choose|i: int|
            0 <= i < v.len() && selects(#[trigger] v[i], provider, s) && forall|j: int|
                0 <= j < v.len() && j != i ==> !selects(#[trigger] v[j], provider, s);
        assert(found.contains(i));
        let k = choose|k: int| 0 <= k < found.len() && found[k] == i;
        if found.len() > 1 {
            let other = if k == 0 {
                1int
            } else {
                0int
            };
            assert(selects(v[found[other]], provider, s));
            if k == 0 {
                assert(found[0] < found[1]);
            } else {
                assert(found[0] < found[k]);
            }
            assert(found[other] != i);
        }
    }
}

/// How many records refer to an account, as sums over the records.
pub proof fn references_are_counted_one_by_one(
    a: Seq<SourceAccountAssignment>,
    s: Seq<Subscription>,
    e: Seq<UsageEvent>,
    account: Seq<char>,
    provider: Seq<char>,
    n: int,
)
    requires
        0 <= n,
    ensures
        n <= a.len() ==> assignments_to(a, account, Some(provider), n).len() == picked(
            a.take(n),
            |x: SourceAccountAssignment|
                x.provider_account_id.0@ == account && x.provider@ == provider,
        ),
        n <= s.len() ==> subscriptions_of(s, account, Some(provider), n).len() == picked(
            s.take(n),
            |x: Subscription| x.provider_account_id.0@ == account && x.provider@ == provider,
        ),
        n <= e.len() ==> events_of(e, account, Some(provider), n).len() == picked(
            e.take(n),
            |x: UsageEvent|
                x.provider_account_id is Some && id_text_of(x.provider_account_id) == account
                    && x.provider@ == provider,
        ),
    decreases n,
{
    if n > 0 {
        references_are_counted_one_by_one(a, s, e, account, provider, n - 1);
        if n <= a.len() {
            assert(a.take(n) =~= a.take(n - 1).push(a[n - 1]));
            assert(a.take(n).drop_last() =~= a.take(n - 1));
        }
        if n <= s.len() {
            assert(s.take(n).drop_last() =~= s.take(n - 1));
        }
        if n <= e.len() {
            assert(e.take(n).drop_last() =~= e.take(n - 1));
        }
    } else {
        assert(a.take(0) =~= Seq::empty());
        assert(s.take(0) =~= Seq::empty());
        assert(e.take(0) =~= Seq::empty());
    }
}

} // verus!
