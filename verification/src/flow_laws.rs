//! What a batch costs, whom an identity names, and what outside replies say.
use crate::attribution_laws::id_text_of;
use crate::auth::{
    AuthCredentials, callback_params, percent_decoded, query_params, session_token, usable_token,
};
use crate::daemon_presence::{pid_of, read_openers};
use crate::identities::{
    Finding, completed, email_key, finding, first_email, first_user, has_email, has_user, user_key,
};
use crate::records::{ProviderAccount, UsageSummary};
use crate::source_laws::as_many_queries_as_it_takes;
use crate::sync::{
    BatchModel, anchor_of, assignment_accounts, distinct, distinct_accounts, location_key,
    location_keys, month_keys, project_key, project_keys, queries_for, query_estimate,
    subscription_accounts, summary_accounts, trimmed_nonempty,
};
use crate::text::{blank, joined, lowered, split_first, splitting_undoes_joining, trimmed};
use crate::text_laws::{a_field_is_what_precedes_the_separator, a_text_is_split_at_the_first_place};
use vstd::prelude::*;

verus! {

// ---------------------------------------------------------------------------
// What a batch costs
// ---------------------------------------------------------------------------

/// The accounts, projects and places that summaries name are those of the records,
/// one for each that has one, in order.
pub proof fn keys_are_those_of_the_records(v: Seq<UsageSummary>, n: int)
    requires
        0 <= n <= v.len(),
    ensures
        summary_accounts(v, n) == v.take(n).filter(
            |s: UsageSummary| s.provider_account_id is Some,
        ).map_values(|s: UsageSummary| id_text_of(s.provider_account_id)),
        project_keys(v, n) == v.take(n).filter(|s: UsageSummary| s.project is Some).map_values(
            |s: UsageSummary| project_key(s)->0,
        ),
        location_keys(v, n) == v.take(n).filter(|s: UsageSummary| s.project is Some).map_values(
            |s: UsageSummary| location_key(s)->0,
        ),
    decreases n,
{
    reveal(Seq::filter);
    let account = |s: UsageSummary| s.provider_account_id is Some;
    let id = |s: UsageSummary| id_text_of(s.provider_account_id);
    let project = |s: UsageSummary| s.project is Some;
    let pk = |s: UsageSummary| project_key(s)->0;
    let lk = |s: UsageSummary| location_key(s)->0;
    if n > 0 {
        keys_are_those_of_the_records(v, n - 1);
        let x = v[n - 1];
        assert(v.take(n).drop_last() =~= v.take(n - 1));
        assert(v.take(n).last() == x);
        let a = v.take(n - 1).filter(account);
        let p = v.take(n - 1).filter(project);
        assert(a.push(x).map_values(id) =~= a.map_values(id).push(id(x)));
        assert(p.push(x).map_values(pk) =~= p.map_values(pk).push(pk(x)));
        assert(p.push(x).map_values(lk) =~= p.map_values(lk).push(lk(x)));
    } else {
        assert(v.take(0) =~= Seq::empty());
        assert(v.take(0).filter(account).map_values(id) =~= Seq::empty());
        assert(v.take(0).filter(project).map_values(pk) =~= Seq::empty());
        assert(v.take(0).filter(project).map_values(lk) =~= Seq::empty());
    }
}

/// A project is known by its repository before its path; a place by its path before
/// its repository. Both are known by the identifier last.
pub proof fn projects_go_by_repository_and_places_by_path(s: UsageSummary)
    ensures
        s.project is None ==> project_key(s) is None && location_key(s) is None,
        s.project is Some ==> {
            let p = s.project->0;
            &&& p.repo_remote_hash is Some ==> project_key(s) == Some(
                "repo:"@ + p.repo_remote_hash->0@,
            )
            &&& p.repo_remote_hash is None && p.path_hash is Some ==> project_key(s) == Some(
                "path:"@ + p.path_hash->0@,
            )
            &&& p.path_hash is Some ==> location_key(s) == Some("path:"@ + p.path_hash->0@)
            &&& p.path_hash is None && p.repo_remote_hash is Some ==> location_key(s) == Some(
                "repo:"@ + p.repo_remote_hash->0@ + ":"@ + p.project_id@,
            )
            &&& p.path_hash is None && p.repo_remote_hash is None ==> location_key(s)
                == project_key(s) && project_key(s) == Some("project:"@ + p.project_id@)
        },
        s.period_start is Some ==> Some(anchor_of(s)) == s.period_start,
        s.period_start is None && s.period_end is Some ==> Some(anchor_of(s)) == s.period_end,
        s.period_start is None && s.period_end is None ==> anchor_of(s) == s.observed_at,
{
}

/// Whether `q` queries are enough for the items at `size` to a query, and one fewer
/// is not.
pub open spec fn just_enough(q: int, items: int, size: int) -> bool {
    q >= 0 && q * size >= items && (q > 0 ==> (q - 1) * size < items)
}

proof fn lemma_just_enough(q: int, items: int, size: int)
    requires
        just_enough(q, items, size),
        items >= 0,
        size > 0,
    ensures
        q == queries_for(items, size),
{
    as_many_queries_as_it_takes(items, size);
    let r = queries_for(items, size);
    assert(q == r) by (nonlinear_arith)
        requires
            q >= 0,
            q * size >= items,
            q > 0 ==> (q - 1) * size < items,
            r * size >= items,
            items > 0 ==> (r - 1) * size < items,
            items == 0 ==> r == 0,
            items >= 0,
            size > 0,
    ;
}

/// A batch takes five queries for device, batch and books; one for the accounts'
/// other names where it has accounts; one for each record, project, place and month;
/// lookups, ninety to a query, of the accounts that assignments, subscriptions and
/// summaries name, of the summaries and of the places; the daily rows, seven to a
/// query; and one for the dashboard where it has summaries.
pub proof fn a_batch_costs_its_records_and_lookups(
    m: BatchModel,
    by_assignments: int,
    by_subscriptions: int,
    by_summaries: int,
    summaries: int,
    places: int,
    daily: int,
)
    requires
        just_enough(
            by_assignments,
            distinct_accounts(assignment_accounts(m.assignments)) as int,
            90,
        ),
        just_enough(
            by_subscriptions,
            distinct_accounts(subscription_accounts(m.subscriptions)) as int,
            90,
        ),
        just_enough(
            by_summaries,
            distinct_accounts(summary_accounts(m.summaries, m.summaries.len() as int)) as int,
            90,
        ),
        just_enough(summaries, m.summaries.len() as int, 90),
        just_enough(
            places,
            distinct(location_keys(m.summaries, m.summaries.len() as int)) as int,
            90,
        ),
        just_enough(daily, m.summaries.len() as int, 7),
    ensures
        ({
            let n = m.summaries.len() as int;
            let records = m.sources.len() + m.accounts.len() + m.assignments.len()
                + m.subscriptions.len();
            let lookups = by_assignments + by_subscriptions + by_summaries + summaries + places;
            let kept = distinct(project_keys(m.summaries, n)) + distinct(
                location_keys(m.summaries, n),
            ) + distinct(month_keys(m.summaries));
            query_estimate(m) - 5 - records - lookups - kept - daily == if m.accounts.len() > 0
                && n > 0 {
                2int
            } else if m.accounts.len() > 0 || n > 0 {
                1int
            } else {
                0int
            }
        }),
{
    let n = m.summaries.len() as int;
    lemma_just_enough(
        by_assignments,
        distinct_accounts(assignment_accounts(m.assignments)) as int,
        90,
    );
    lemma_just_enough(
        by_subscriptions,
        distinct_accounts(subscription_accounts(m.subscriptions)) as int,
        90,
    );
    lemma_just_enough(by_summaries, distinct_accounts(summary_accounts(m.summaries, n)) as int, 90);
    lemma_just_enough(summaries, n, 90);
    lemma_just_enough(places, distinct(location_keys(m.summaries, n)) as int, 90);
    lemma_just_enough(daily, n, 7);
}

/// Blank names count for nothing, and white space around a name does not matter.
pub proof fn names_are_counted_trimmed(v: Seq<Seq<char>>)
    ensures
        trimmed_nonempty(v) == v.filter(|t: Seq<char>| !blank(t)).map_values(
            |t: Seq<char>| trimmed(t),
        ),
    decreases v.len(),
{
    reveal(Seq::filter);
    let kept = |t: Seq<char>| !blank(t);
    let clean = |t: Seq<char>| trimmed(t);
    if v.len() > 0 {
        names_are_counted_trimmed(v.drop_last());
        let before = v.drop_last().filter(kept);
        assert(before.push(v.last()).map_values(clean) =~= before.map_values(clean).push(
            clean(v.last()),
        ));
    } else {
        assert(trimmed_nonempty(v) =~= v.filter(kept).map_values(clean));
    }
}

// ---------------------------------------------------------------------------
// Identities
// ---------------------------------------------------------------------------

/// Whether an account of the provider is known by the name or by the address.
pub open spec fn known_by(
    a: ProviderAccount,
    provider: Seq<char>,
    user: Option<Seq<char>>,
    email: Option<Seq<char>>,
) -> bool {
    a.provider@ == provider && ((user is Some && a.provider_user_id is Some
        && a.provider_user_id->0@ == user->0) || (email is Some && a.email is Some && a.email->0@
        == email->0))
}

/// An identity is found exactly where an account of the provider has the name or the
/// address. What is found has one of them, and the name where any account has it.
pub proof fn an_identity_names_the_account_that_has_it(
    v: Seq<ProviderAccount>,
    provider: Seq<char>,
    user: Option<Seq<char>>,
    email: Option<Seq<char>>,
)
    ensures
        match finding(v, provider, user, email) {
            Finding::Nothing => forall|i: int|
                0 <= i < v.len() ==> !known_by(#[trigger] v[i], provider, user, email),
            Finding::At(i) => 0 <= i < v.len() && known_by(v[i], provider, user, email) && ((
            exists|k: int|
                0 <= k < v.len() && known_by(#[trigger] v[k], provider, user, None)) ==> known_by(
                v[i],
                provider,
                user,
                None,
            )),
            Finding::Conflict => exists|i: int, j: int|
                0 <= i < v.len() && 0 <= j < v.len() && known_by(
                    #[trigger] v[i],
                    provider,
                    user,
                    None,
                ) && known_by(#[trigger] v[j], provider, None, email)
                    && v[i].provider_account_id.0@ != v[j].provider_account_id.0@,
        },
{
    lemma_first_user(v, provider, user, 0);
    lemma_first_email(v, provider, email, 0);
    match (first_user(v, provider, user, 0), first_email(v, provider, email, 0)) {
        (Some(i), Some(j)) => {
            assert(known_by(v[i], provider, user, None));
            assert(known_by(v[j], provider, None, email));
        },
        (Some(i), None) => {
            assert(known_by(v[i], provider, user, None));
        },
        (None, Some(j)) => {
            assert forall|k: int| 0 <= k < v.len() implies !known_by(
                #[trigger] v[k],
                provider,
                user,
                None,
            ) by {
                assert(!has_user(v[k], provider, user));
            }
        },
        (None, None) => {
            assert forall|i: int| 0 <= i < v.len() implies !known_by(
                #[trigger] v[i],
                provider,
                user,
                email,
            ) by {
                assert(!has_user(v[i], provider, user));
                assert(!has_email(v[i], provider, email));
            }
        },
    }
}

proof fn lemma_first_user(
    v: Seq<ProviderAccount>,
    provider: Seq<char>,
    user: Option<Seq<char>>,
    i: int,
)
    requires
        0 <= i <= v.len(),
    ensures
        match first_user(v, provider, user, i) {
            Some(k) => i <= k < v.len() && has_user(v[k], provider, user),
            None => forall|k: int| i <= k < v.len() ==> !has_user(#[trigger] v[k], provider, user),
        },
    decreases v.len() - i,
{
    if i < v.len() {
        lemma_first_user(v, provider, user, i + 1);
    }
}

proof fn lemma_first_email(
    v: Seq<ProviderAccount>,
    provider: Seq<char>,
    email: Option<Seq<char>>,
    i: int,
)
    requires
        0 <= i <= v.len(),
    ensures
        match first_email(v, provider, email, i) {
            Some(k) => i <= k < v.len() && has_email(v[k], provider, email),
            None => forall|k: int|
                i <= k < v.len() ==> !has_email(#[trigger] v[k], provider, email),
        },
    decreases v.len() - i,
{
    if i < v.len() {
        lemma_first_email(v, provider, email, i + 1);
    }
}

/// Completing an account puts what is given in place of what was there, and takes
/// nothing away.
pub proof fn completing_takes_nothing_away(given: Seq<char>, before: Option<Seq<char>>)
    ensures
        completed(Some(given), before) == Some(given),
        completed(None, before) == before,
{
}

/// Addresses are compared without case and white space around them, names without
/// white space around them.
pub proof fn identities_are_compared_trimmed(text: &str)
    ensures
        email_key(Some(text)) == Some(lowered(trimmed(text@))),
        user_key(Some(text)) == Some(trimmed(text@)),
        email_key(None) is None,
        user_key(None) is None,
{
}

// ---------------------------------------------------------------------------
// Replies
// ---------------------------------------------------------------------------

/// A callback's last code and last state are read, decoded; other parameters count
/// for nothing.
pub proof fn the_last_code_and_state_are_read(
    params: Seq<Seq<char>>,
    key: Seq<char>,
    value: Seq<char>,
)
    requires
        !key.contains('='),
        callback_params(params) is Some,
    ensures
        ({
            let before = callback_params(params)->0;
            let now = callback_params(params.push(key + seq!['='] + value));
            &&& key == seq!['c', 'o', 'd', 'e'] ==> match (now, percent_decoded(value)) {
                (Some(p), Some(code)) => p.code == Some(code) && p.state == before.state,
                (None, None) => true,
                _ => false,
            }
            &&& key == seq!['s', 't', 'a', 't', 'e'] ==> match (now, percent_decoded(value)) {
                (Some(p), Some(state)) => p.state == Some(state) && p.code == before.code,
                (None, None) => true,
                _ => false,
            }
            &&& key != seq!['c', 'o', 'd', 'e'] && key != seq!['s', 't', 'a', 't', 'e'] ==> now
                == Some(before)
        }),
{
    reveal_strlit("=");
    reveal_strlit("code");
    reveal_strlit("state");
    assert("="@ =~= seq!['=']);
    assert("code"@ =~= seq!['c', 'o', 'd', 'e']);
    assert("state"@ =~= seq!['s', 't', 'a', 't', 'e']);
    assert("code"@.len() != "state"@.len());
    a_field_is_what_precedes_the_separator(key, '=', value);
    assert(params.push(key + seq!['='] + value).drop_last() =~= params);
}

/// The parameters of an address are what stands behind its first question mark,
/// between the ampersands.
pub proof fn parameters_stand_behind_the_question_mark(
    path: Seq<char>,
    params: Seq<Seq<char>>,
)
    requires
        !path.contains('?'),
        params.len() > 0,
        forall|i: int| 0 <= i < params.len() ==> !(#[trigger] params[i]).contains('&'),
    ensures
        query_params(path + seq!['?'] + joined(params, seq!['&'])) == params,
        query_params(path) == Seq::<Seq<char>>::empty(),
{
    reveal_strlit("?");
    assert("?"@ =~= seq!['?']);
    a_field_is_what_precedes_the_separator(path, '?', joined(params, seq!['&']));
    splitting_undoes_joining(params, '&');
    a_text_is_split_at_the_first_place(path, "?"@);
    match split_first(path, "?"@) {
        Some((a, b)) => {
            assert(path[a.len() as int] == '?');
        },
        None => {},
    }
}


/// An access token is used only while it holds for more than five minutes yet, and a
/// blank one never.
pub proof fn a_token_is_used_while_it_holds(c: AuthCredentials, now: u64)
    ensures
        match usable_token(c, now) {
            Some(t) => c.cloudflare_access_token is Some && c.cloudflare_access_token->0@ == t
                && !blank(t) && c.cloudflare_access_expires_at_secs - now > 300,
            None => c.cloudflare_access_token is None || blank(c.cloudflare_access_token->0@)
                || c.cloudflare_access_expires_at_secs - now <= 300,
        },
        match session_token(c) {
            Some(t) => c.cloudflare_refresh_token is Some && c.cloudflare_refresh_token->0@ == t
                && !blank(t),
            None => c.cloudflare_refresh_token is None || blank(c.cloudflare_refresh_token->0@),
        },
{
}

/// A process that is listed with its command is an opener, unless it is the asking
/// one or stands there already.
pub proof fn every_other_process_is_listed(
    lines: Seq<Seq<char>>,
    number: Seq<char>,
    command: Seq<char>,
    own: u32,
)
    requires
        pid_of(number) is Some,
    ensures
        ({
            let before = read_openers(lines, own).openers;
            let now = read_openers(
                lines.push(seq!['p'] + number).push(seq!['c'] + command),
                own,
            ).openers;
            let pid = pid_of(number)->0;
            let there = exists|k: int| 0 <= k < before.len() && (#[trigger] before[k]).0 == pid;
            &&& pid == own || there ==> now == before
            &&& pid != own && !there ==> now == before.push((pid, trimmed(command)))
        }),
{
    let one = lines.push(seq!['p'] + number);
    let two = one.push(seq!['c'] + command);
    assert(one.drop_last() =~= lines);
    assert(two.drop_last() =~= one);
    assert((seq!['p'] + number).skip(1) =~= number);
    assert((seq!['c'] + command).skip(1) =~= command);
    let before = read_openers(lines, own).openers;
    assert(read_openers(one, own).openers == before);
    assert(read_openers(one, own).pid == pid_of(number));
}

} // verus!
