//! Accounts by the identities that people and logins give, and what a login
//! vouches for.
use crate::accounts::{normalize_email, normalize_provider_user_id};
use crate::hashing::{hash_of, hash_text};
use crate::ids::{SourceId, provider_account_id, provider_account_id_spec};
use crate::records::{
    Confidence, IdentitySource, PROVIDER_ACCOUNT_SCHEMA_VERSION, ProviderAccount,
    SourceAccountAssignment, Subscription, is_verified_subscription_source, vouched,
};
use crate::text::{concat2, lowered, opt_text, same_opt, same_text, trimmed};
use crate::time::Timestamp;
use vstd::prelude::*;

verus! {

/// An address as addresses are compared.
pub open spec fn email_key(email: Option<&str>) -> Option<Seq<char>> {
    match email {
        Some(e) => Some(lowered(trimmed(e@))),
        None => None,
    }
}

/// A provider's own name for an account as such names are compared.
pub open spec fn user_key(user: Option<&str>) -> Option<Seq<char>> {
    match user {
        Some(u) => Some(trimmed(u@)),
        None => None,
    }
}

/// Whether an account of the provider has this name with it.
pub open spec fn has_user(a: ProviderAccount, provider: Seq<char>, user: Option<Seq<char>>) -> bool {
    user is Some && a.provider@ == provider && opt_text(a.provider_user_id) == user
}

/// Whether an account of the provider has this address.
pub open spec fn has_email(a: ProviderAccount, provider: Seq<char>, email: Option<Seq<char>>) -> bool {
    email is Some && a.provider@ == provider && opt_text(a.email) == email
}

/// The first account with the name from `i` on.
pub open spec fn first_user(
    v: Seq<ProviderAccount>,
    provider: Seq<char>,
    user: Option<Seq<char>>,
    i: int,
) -> Option<int>
    decreases v.len() - i,
{
    if i < 0 || i >= v.len() {
        None
    } else if has_user(v[i], provider, user) {
        Some(i)
    } else {
        first_user(v, provider, user, i + 1)
    }
}

/// The first account with the address from `i` on.
pub open spec fn first_email(
    v: Seq<ProviderAccount>,
    provider: Seq<char>,
    email: Option<Seq<char>>,
    i: int,
) -> Option<int>
    decreases v.len() - i,
{
    if i < 0 || i >= v.len() {
        None
    } else if has_email(v[i], provider, email) {
        Some(i)
    } else {
        first_email(v, provider, email, i + 1)
    }
}

fn find_user(v: &[ProviderAccount], provider: &str, user: &Option<String>) -> (r: Option<usize>)
    ensures
        match r {
            Some(k) => first_user(v@, provider@, opt_text(*user), 0) == Some(k as int) && k
                < v@.len(),
            None => first_user(v@, provider@, opt_text(*user), 0) is None,
        },
{
    let mut i: usize = 0;
    while i < v.len()
        invariant
            i <= v.len(),
            first_user(v@, provider@, opt_text(*user), 0) == first_user(
                v@,
                provider@,
                opt_text(*user),
                i as int,
            ),
        decreases v.len() - i,
    {
        if user.is_some() && same_text(v[i].provider.as_str(), provider) && same_opt(
            &v[i].provider_user_id,
            user,
        ) {
            return Some(i);
        }
        i = i + 1;
    }
    None
}

fn find_email(v: &[ProviderAccount], provider: &str, email: &Option<String>) -> (r: Option<usize>)
    ensures
        match r {
            Some(k) => first_email(v@, provider@, opt_text(*email), 0) == Some(k as int) && k
                < v@.len(),
            None => first_email(v@, provider@, opt_text(*email), 0) is None,
        },
{
    let mut i: usize = 0;
    while i < v.len()
        invariant
            i <= v.len(),
            first_email(v@, provider@, opt_text(*email), 0) == first_email(
                v@,
                provider@,
                opt_text(*email),
                i as int,
            ),
        decreases v.len() - i,
    {
        if email.is_some() && same_text(v[i].provider.as_str(), provider) && same_opt(
            &v[i].email,
            email,
        ) {
            return Some(i);
        }
        i = i + 1;
    }
    None
}

/// What an identity finds among accounts.
pub enum Finding {
    Nothing,
    At(int),
    /// The name and the address are those of two accounts.
    Conflict,
}

pub open spec fn finding(
    v: Seq<ProviderAccount>,
    provider: Seq<char>,
    user: Option<Seq<char>>,
    email: Option<Seq<char>>,
) -> Finding {
    match (first_user(v, provider, user, 0), first_email(v, provider, email, 0)) {
        (Some(i), Some(j)) => if v[i].provider_account_id.0@ == v[j].provider_account_id.0@ {
            Finding::At(i)
        } else {
            Finding::Conflict
        },
        (Some(i), None) => Finding::At(i),
        (None, Some(j)) => Finding::At(j),
        (None, None) => Finding::Nothing,
    }
}

pub open spec fn conflict_text(provider: Seq<char>) -> Seq<char> {
    "conflicting provider account identifiers for "@ + provider
}

fn normal_email(email: Option<&str>) -> (r: Option<String>)
    ensures
        opt_text(r) == email_key(email),
{
    match email {
        Some(e) => Some(normalize_email(e)),
        None => None,
    }
}

fn normal_user(user: Option<&str>) -> (r: Option<String>)
    ensures
        opt_text(r) == user_key(user),
{
    match user {
        Some(u) => Some(normalize_provider_user_id(u)),
        None => None,
    }
}

/// The account with the provider's name or the address. Fails where they are
/// those of two accounts.
pub fn find_existing_provider_account(
    accounts: &[ProviderAccount],
    provider: &str,
    provider_user_id: Option<&str>,
    email: Option<&str>,
) -> (r: Result<Option<ProviderAccount>, String>)
    ensures
        match finding(accounts@, provider@, user_key(provider_user_id), email_key(email)) {
            Finding::Nothing => r == Ok::<Option<ProviderAccount>, String>(None),
            Finding::At(i) => r matches Ok(Some(a)) && a == accounts@[i],
            Finding::Conflict => r matches Err(e) && e@ == conflict_text(provider@),
        },
{
    let user = normal_user(provider_user_id);
    let email = normal_email(email);
    let by_user = find_user(accounts, provider, &user);
    let by_email = find_email(accounts, provider, &email);
    match (by_user, by_email) {
        (Some(i), Some(j)) => if same_text(
            accounts[i].provider_account_id.0.as_str(),
            accounts[j].provider_account_id.0.as_str(),
        ) {
            Ok(Some(accounts[i].clone()))
        } else {
            Err(concat2("conflicting provider account identifiers for ", provider))
        },
        (Some(i), None) => Ok(Some(accounts[i].clone())),
        (None, Some(j)) => Ok(Some(accounts[j].clone())),
        (None, None) => Ok(None),
    }
}

/// What a new account's identifier is made from: the name, else the address, else
/// the label.
pub open spec fn identity_key(
    user: Option<Seq<char>>,
    email: Option<Seq<char>>,
    label: Option<Seq<char>>,
) -> Option<Seq<char>> {
    if user is Some {
        user
    } else if email is Some {
        email
    } else {
        label
    }
}

/// Whether `a` is an account that a person has just named.
pub open spec fn is_new_account(a: ProviderAccount, provider: Seq<char>, key: Seq<char>, now: Timestamp) -> bool {
    &&& a.schema_version@ == PROVIDER_ACCOUNT_SCHEMA_VERSION@
    &&& a.provider_account_id.0@ == provider_account_id_spec(provider, key)
    &&& a.provider@ == provider
    &&& a.identity_source == IdentitySource::UserConfigured
    &&& a.org_id_hash is None
    &&& a.plan_name is None
    &&& a.confidence == Confidence::High
    &&& a.verified_at is None
    &&& a.created_at == now
}

/// Whether `a` has the fields that stay when an account is completed as `b` has.
pub open spec fn same_rest(a: ProviderAccount, b: ProviderAccount) -> bool {
    &&& a.schema_version@ == b.schema_version@
    &&& a.provider_account_id.0@ == b.provider_account_id.0@
    &&& a.provider@ == b.provider@
    &&& a.identity_source == b.identity_source
    &&& a.org_id_hash == b.org_id_hash
    &&& a.plan_name == b.plan_name
    &&& a.confidence == b.confidence
    &&& a.verified_at == b.verified_at
    &&& a.created_at == b.created_at
}

/// A field after an account was completed: what was given, else what was there.
pub open spec fn completed(given: Option<Seq<char>>, before: Option<Seq<char>>) -> Option<Seq<char>> {
    if given is Some {
        given
    } else {
        before
    }
}

pub open spec fn hashed(o: Option<Seq<char>>) -> Option<Seq<char>> {
    match o {
        Some(t) => Some(hash_of(t)),
        None => None,
    }
}

/// The account with the given identity, completed with it: found, or made where
/// there is none. Fails where the identity is that of two accounts, and where it
/// names none.
pub fn upsert_provider_account(
    accounts: &[ProviderAccount],
    provider: &str,
    provider_user_id: Option<&str>,
    email: Option<&str>,
    label: Option<String>,
    now: Timestamp,
) -> (r: Result<ProviderAccount, String>)
    ensures
        ({
            let user = user_key(provider_user_id);
            let address = email_key(email);
            let found = finding(accounts@, provider@, user, address);
            let key = identity_key(user, address, opt_text(label));
            match r {
                Ok(a) => {
                    &&& match found {
                        Finding::At(i) => {
                            let b = accounts@[i];
                            &&& same_rest(a, b)
                            &&& opt_text(a.provider_user_id) == completed(
                                user,
                                opt_text(b.provider_user_id),
                            )
                            &&& opt_text(a.provider_user_id_hash) == completed(
                                hashed(user),
                                opt_text(b.provider_user_id_hash),
                            )
                            &&& opt_text(a.email) == completed(address, opt_text(b.email))
                            &&& opt_text(a.email_hash) == completed(
                                hashed(address),
                                opt_text(b.email_hash),
                            )
                            &&& opt_text(a.account_label) == completed(
                                opt_text(label),
                                opt_text(b.account_label),
                            )
                        },
                        Finding::Nothing => {
                            &&& key is Some
                            &&& is_new_account(a, provider@, key->0, now)
                            &&& opt_text(a.provider_user_id) == user
                            &&& opt_text(a.provider_user_id_hash) == hashed(user)
                            &&& opt_text(a.email) == address
                            &&& opt_text(a.email_hash) == hashed(address)
                            &&& opt_text(a.account_label) == opt_text(label)
                        },
                        Finding::Conflict => false,
                    }
                    &&& a.updated_at == now
                },
                Err(e) => match found {
                    Finding::At(_) => false,
                    Finding::Nothing => key is None && e@
                        == "no identity given for an account of "@ + provider@,
                    Finding::Conflict => e@ == conflict_text(provider@),
                },
            }
        }),
{
    let found = match find_existing_provider_account(accounts, provider, provider_user_id, email) {
        Ok(o) => o,
        Err(e) => return Err(e),
    };
    let user = normal_user(provider_user_id);
    let address = normal_email(email);
    let mut account = match found {
        Some(a) => a,
        None => {
            let key = match (&user, &address, &label) {
                (Some(u), _, _) => u.clone(),
                (None, Some(e), _) => e.clone(),
                (None, None, Some(l)) => l.clone(),
                (None, None, None) => {
                    return Err(concat2("no identity given for an account of ", provider));
                },
            };
            ProviderAccount {
                schema_version: PROVIDER_ACCOUNT_SCHEMA_VERSION.to_owned(),
                provider_account_id: provider_account_id(provider, key.as_str()),
                provider: provider.to_owned(),
                identity_source: IdentitySource::UserConfigured,
                provider_user_id: None,
                provider_user_id_hash: None,
                email: None,
                email_hash: None,
                org_id_hash: None,
                account_label: None,
                plan_name: None,
                confidence: Confidence::High,
                verified_at: None,
                created_at: now,
                updated_at: now,
            }
        },
    };
    match user {
        Some(u) => {
            account.provider_user_id_hash = Some(hash_text(u.as_str()));
            account.provider_user_id = Some(u);
        },
        None => {},
    }
    match address {
        Some(e) => {
            account.email_hash = Some(hash_text(e.as_str()));
            account.email = Some(e);
        },
        None => {},
    }
    if label.is_some() {
        account.account_label = label;
    }
    account.updated_at = now;
    Ok(account)
}

/// An account that was found or made is found again by the same identity.
pub proof fn an_upserted_account_is_found_again(
    accounts: Seq<ProviderAccount>,
    a: ProviderAccount,
    provider: Seq<char>,
    user: Option<Seq<char>>,
    email: Option<Seq<char>>,
)
    requires
        finding(accounts, provider, user, email) is Nothing,
        a.provider@ == provider,
        opt_text(a.provider_user_id) == user,
        opt_text(a.email) == email,
        user is Some || email is Some,
    ensures
        finding(accounts.push(a), provider, user, email) == Finding::At(accounts.len() as int),
{
    let w = accounts.push(a);
    lemma_pushed(accounts, a, provider, user, email, 0);
    assert(w[accounts.len() as int] == a);
}

proof fn lemma_pushed(
    v: Seq<ProviderAccount>,
    a: ProviderAccount,
    provider: Seq<char>,
    user: Option<Seq<char>>,
    email: Option<Seq<char>>,
    i: int,
)
    requires
        0 <= i <= v.len(),
        first_user(v, provider, user, i) is None,
        first_email(v, provider, email, i) is None,
    ensures
        first_user(v.push(a), provider, user, i) == if has_user(a, provider, user) {
            Some(v.len() as int)
        } else {
            None
        },
        first_email(v.push(a), provider, email, i) == if has_email(a, provider, email) {
            Some(v.len() as int)
        } else {
            None
        },
    decreases v.len() - i,
{
    let w = v.push(a);
    if i < v.len() {
        assert(w[i] == v[i]);
        lemma_pushed(v, a, provider, user, email, i + 1);
    } else {
        assert(w[i] == a);
        assert(first_user(w, provider, user, i + 1) is None);
        assert(first_email(w, provider, email, i + 1) is None);
    }
}

// ---------------------------------------------------------------------------
// What logins vouch for
// ---------------------------------------------------------------------------

/// Whether an assignment of the source is open and rests on a login.
pub open spec fn open_vouched(a: SourceAccountAssignment, source: Seq<char>) -> bool {
    a.source_id.0@ == source && a.ended_at is None && vouched(a.record_source)
}

pub fn has_active_verified_source_assignment(
    assignments: &[SourceAccountAssignment],
    source_id: &SourceId,
) -> (r: bool)
    ensures
        r == exists|i: int|
            0 <= i < assignments@.len() && #[trigger] open_vouched(assignments@[i], source_id.0@),
{
    let mut i: usize = 0;
    while i < assignments.len()
        invariant
            i <= assignments.len(),
            forall|k: int| 0 <= k < i ==> !#[trigger] open_vouched(assignments@[k], source_id.0@),
        decreases assignments.len() - i,
    {
        let a = &assignments[i];
        if same_text(a.source_id.0.as_str(), source_id.0.as_str()) && a.ended_at.is_none()
            && is_verified_subscription_source(&a.record_source) {
            proof {
                assert(open_vouched(assignments@[i as int], source_id.0@));
            }
            return true;
        }
        i = i + 1;
    }
    false
}

/// The open, vouched assignments of the source, ended.
pub open spec fn ended_assignments(
    v: Seq<SourceAccountAssignment>,
    source: Seq<char>,
    at: Timestamp,
) -> Seq<SourceAccountAssignment>
    decreases v.len(),
{
    if v.len() == 0 {
        Seq::empty()
    } else {
        let before = ended_assignments(v.drop_last(), source, at);
        let a = v.last();
        if open_vouched(a, source) {
            before.push(SourceAccountAssignment { ended_at: Some(at), updated_at: at, ..a })
        } else {
            before
        }
    }
}

/// Whether a subscription is open, rests on a login, and is one of these
/// assignments' accounts'.
pub open spec fn open_vouched_subscription(
    s: Subscription,
    ended: Seq<SourceAccountAssignment>,
) -> bool {
    s.ended_at is None && vouched(s.record_source) && exists|i: int|
        0 <= i < ended.len() && (#[trigger] ended[i]).provider_account_id.0@
            == s.provider_account_id.0@
}

/// The open, vouched subscriptions of the assignments' accounts, ended.
pub open spec fn ended_subscriptions(
    v: Seq<Subscription>,
    ended: Seq<SourceAccountAssignment>,
    at: Timestamp,
) -> Seq<Subscription>
    decreases v.len(),
{
    if v.len() == 0 {
        Seq::empty()
    } else {
        let before = ended_subscriptions(v.drop_last(), ended, at);
        let s = v.last();
        if open_vouched_subscription(s, ended) {
            before.push(Subscription { ended_at: Some(at), ..s })
        } else {
            before
        }
    }
}

fn is_account_of_any(ended: &[SourceAccountAssignment], s: &Subscription) -> (r: bool)
    ensures
        r == exists|i: int|
            0 <= i < ended@.len() && (#[trigger] ended@[i]).provider_account_id.0@
                == s.provider_account_id.0@,
{
    let mut i: usize = 0;
    while i < ended.len()
        invariant
            i <= ended.len(),
            forall|k: int|
                0 <= k < i ==> (#[trigger] ended@[k]).provider_account_id.0@
                    != s.provider_account_id.0@,
        decreases ended.len() - i,
    {
        if same_text(
            ended[i].provider_account_id.0.as_str(),
            s.provider_account_id.0.as_str(),
        ) {
            proof {
                assert(ended@[i as int].provider_account_id.0@ == s.provider_account_id.0@);
            }
            return true;
        }
        i = i + 1;
    }
    false
}

/// Ends what the source's login vouched for: returns the assignments and the
/// subscriptions to write.
pub fn close_active_verified_source_linkages(
    assignments: &[SourceAccountAssignment],
    subscriptions: &[Subscription],
    source_id: &SourceId,
    at: Timestamp,
) -> (r: (Vec<SourceAccountAssignment>, Vec<Subscription>))
    ensures
        r.0@ == ended_assignments(assignments@, source_id.0@, at),
        r.1@ == ended_subscriptions(subscriptions@, r.0@, at),
{
    let mut ended: Vec<SourceAccountAssignment> = Vec::new();
    let mut i: usize = 0;
    proof {
        assert(assignments@.take(0) =~= Seq::empty());
    }
    while i < assignments.len()
        invariant
            i <= assignments.len(),
            ended@ == ended_assignments(assignments@.take(i as int), source_id.0@, at),
        decreases assignments.len() - i,
    {
        proof {
            assert(assignments@.take(i + 1).drop_last() =~= assignments@.take(i as int));
        }
        let a = &assignments[i];
        if same_text(a.source_id.0.as_str(), source_id.0.as_str()) && a.ended_at.is_none()
            && is_verified_subscription_source(&a.record_source) {
            let mut e = a.clone();
            e.ended_at = Some(at);
            e.updated_at = at;
            ended.push(e);
        }
        i = i + 1;
    }
    proof {
        assert(assignments@.take(i as int) =~= assignments@);
        assert(subscriptions@.take(0) =~= Seq::empty());
    }
    let mut closed: Vec<Subscription> = Vec::new();
    let mut j: usize = 0;
    while j < subscriptions.len()
        invariant
            j <= subscriptions.len(),
            closed@ == ended_subscriptions(subscriptions@.take(j as int), ended@, at),
        decreases subscriptions.len() - j,
    {
        proof {
            assert(subscriptions@.take(j + 1).drop_last() =~= subscriptions@.take(j as int));
        }
        let s = &subscriptions[j];
        if s.ended_at.is_none() && is_verified_subscription_source(&s.record_source)
            && is_account_of_any(&ended, s) {
            let mut e = s.clone();
            e.ended_at = Some(at);
            closed.push(e);
        }
        j = j + 1;
    }
    proof {
        assert(subscriptions@.take(j as int) =~= subscriptions@);
    }
    (ended, closed)
}

} // verus!
