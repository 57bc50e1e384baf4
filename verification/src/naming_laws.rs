//! What identities, services, plans and counts are told by.
use crate::account_plan::{
    AccountPlanObservationV1, AccountPlanProjectionV1, capital_words, capitalized, projects,
};
use crate::accounts::AccountReferenceCounts;
use crate::code_types::{CodeLineCounts, TraceEdit};
use crate::identities::identity_key;
use crate::ids::{ProviderAccountId, SemanticFingerprintInput, count_or_zero, fingerprint_parts};
use crate::json_limit::{Encoding, decoded};
use crate::metrics::{CommittedMetricId, persisted_id, project_of_edit};
use crate::period_laws::a_date_stands_for_its_whole_day;
use crate::periods::{ReportBound, since_of, until_of};
use crate::sync_flow::{endpoint_spec, gap_spec, sibling_url};
use crate::text::{blank, decimal, lemma_decimal, lower, trim_back_char, trimmed, upper};
use crate::time::{MAX_DAY, MIN_DAY, Timestamp, parsed_rfc3339, rfc3339_text, ymd_day};
use crate::usage_laws::{held, tokens};
use vstd::prelude::*;

verus! {

/// Different counts are written differently.
pub proof fn different_counts_are_written_differently(a: nat, b: nat)
    ensures
        (decimal(a) == decimal(b)) == (a == b),
{
    lemma_decimal(a);
    lemma_decimal(b);
}

/// Events with the same fingerprint are of the same provider and source, session,
/// project and model, and have the same counts, each of them.
pub proof fn a_fingerprint_tells_every_count(
    a: SemanticFingerprintInput<'_>,
    b: SemanticFingerprintInput<'_>,
)
    requires
        fingerprint_parts(a) == fingerprint_parts(b),
    ensures
        a.provider@ == b.provider@,
        a.source_id.0@ == b.source_id.0@,
        tokens(a.input_tokens) == tokens(b.input_tokens),
        tokens(a.output_tokens) == tokens(b.output_tokens),
        tokens(a.cache_read_tokens) == tokens(b.cache_read_tokens),
        tokens(a.cache_creation_tokens) == tokens(b.cache_creation_tokens),
        tokens(a.reasoning_tokens) == tokens(b.reasoning_tokens),
        a.total_tokens == b.total_tokens,
        a.session_hash is Some && b.session_hash is Some ==> a.session_hash->0@
            == b.session_hash->0@,
        a.project_key is Some && b.project_key is Some ==> a.project_key->0@ == b.project_key->0@,
        a.model_name is Some && b.model_name is Some ==> a.model_name->0@ == b.model_name->0@,
        rfc3339_text(a.started_at.secs as int, a.started_at.nanos as int) == rfc3339_text(
            b.started_at.secs as int,
            b.started_at.nanos as int,
        ),
{
    let p = fingerprint_parts(a);
    let q = fingerprint_parts(b);
    assert(p[0] == q[0] && p[1] == q[1] && p[2] == q[2] && p[3] == q[3] && p[4] == q[4] && p[5]
        == q[5]);
    assert(p[6] == q[6] && p[7] == q[7] && p[8] == q[8] && p[9] == q[9] && p[10] == q[10] && p[11]
        == q[11]);
    different_counts_are_written_differently(
        count_or_zero(a.input_tokens),
        count_or_zero(b.input_tokens),
    );
    different_counts_are_written_differently(
        count_or_zero(a.cache_read_tokens),
        count_or_zero(b.cache_read_tokens),
    );
    different_counts_are_written_differently(
        count_or_zero(a.cache_creation_tokens),
        count_or_zero(b.cache_creation_tokens),
    );
    different_counts_are_written_differently(
        count_or_zero(a.output_tokens),
        count_or_zero(b.output_tokens),
    );
    different_counts_are_written_differently(
        count_or_zero(a.reasoning_tokens),
        count_or_zero(b.reasoning_tokens),
    );
    different_counts_are_written_differently(a.total_tokens as nat, b.total_tokens as nat);
}

/// A new account is known by the provider's name for it, else by its address, and by
/// its label only where it has neither.
pub proof fn an_account_is_known_by_name_then_address(
    user: Seq<char>,
    email: Seq<char>,
    other: Option<Seq<char>>,
    label: Option<Seq<char>>,
)
    ensures
        identity_key(Some(user), other, label) == Some(user),
        identity_key(None, Some(email), label) == Some(email),
        identity_key(None, None, label) == label,
{
}

/// Beside the service that batches go to stand the others, on the same server.
pub proof fn services_stand_beside_each_other(api_url: Seq<char>, service: Seq<char>)
    requires
        api_url.len() > 0,
        api_url.last() != '/',
    ensures
        sibling_url(endpoint_spec(None, api_url), service) == Some(api_url + service),
        sibling_url(endpoint_spec(None, api_url) + seq!['/'], service) == Some(api_url + service),
        endpoint_spec(None, api_url + seq!['/']) == endpoint_spec(None, api_url),
{
    reveal_strlit("/api/sync/batches");
    let tail = "/api/sync/batches"@;
    let e = api_url + tail;
    assert(trim_back_char(api_url, '/') == api_url);
    assert(endpoint_spec(None, api_url) == e);
    assert(e.last() == tail[tail.len() - 1]);
    assert(trim_back_char(e, '/') == e);
    assert(e.skip(e.len() - tail.len()) =~= tail);
    assert(e.take(e.len() - tail.len()) =~= api_url);
    let f = e + seq!['/'];
    assert(f.drop_last() =~= e);
    assert(trim_back_char(f, '/') == trim_back_char(f.drop_last(), '/'));
    let g = api_url + seq!['/'];
    assert(g.drop_last() =~= api_url);
    assert(trim_back_char(g, '/') == trim_back_char(g.drop_last(), '/'));
}

/// An address that the user gives goes before the server's own.
pub proof fn a_given_address_is_used(address: Seq<char>, api_url: Seq<char>)
    requires
        !blank(address),
    ensures
        endpoint_spec(Some(address), api_url) == trimmed(address),
{
}

/// The words of a plan's name are those that are not empty, in order, each with a
/// capital first and small letters behind it.
pub proof fn plan_words_are_capitalized(parts: Seq<Seq<char>>)
    ensures
        capital_words(parts) == parts.filter(|w: Seq<char>| w.len() > 0).map_values(
            |w: Seq<char>| capitalized(w),
        ),
        forall|w: Seq<char>, k: int|
            0 < k < w.len() ==> #[trigger] capitalized(w)[k] == lower(w[k]),
        forall|w: Seq<char>|
            w.len() > 0 ==> (#[trigger] capitalized(w)).len() == w.len() && capitalized(w)[0]
                == upper(w[0]),
    decreases parts.len(),
{
    reveal(Seq::filter);
    let kept = |w: Seq<char>| w.len() > 0;
    let big = |w: Seq<char>| capitalized(w);
    if parts.len() > 0 {
        plan_words_are_capitalized(parts.drop_last());
        let before = parts.drop_last().filter(kept);
        assert(before.push(parts.last()).map_values(big) =~= before.map_values(big).push(
            big(parts.last()),
        ));
    } else {
        assert(capital_words(parts) =~= parts.filter(kept).map_values(big));
        assert forall|w: Seq<char>, k: int| 0 < k < w.len() implies #[trigger] capitalized(w)[k]
            == lower(w[k]) by {
            assert(w.skip(1)[k - 1] == w[k]);
        }
    }
}

/// A device tells of a plan what was observed of it.
pub proof fn a_plan_is_told_as_observed(
    p: AccountPlanProjectionV1,
    o: AccountPlanObservationV1,
    account: ProviderAccountId,
    device: Seq<char>,
)
    requires
        projects(p, o, account, device),
    ensures
        p.device_id@ == device,
        p.provider@ == o.provider@ && p.plan_name@ == o.plan_name@ && p.raw_plan_name@
            == o.raw_plan_name@,
        p.provider_account_id == account,
        (p.observed_at, p.active_from, p.active_until) == (
            o.observed_at,
            o.active_from,
            o.active_until,
        ),
        (p.is_current_snapshot, p.evidence_kind, p.confidence) == (
            o.is_current_snapshot,
            o.evidence_kind,
            o.confidence,
        ),
{
}

/// Lines added are those of source and of test code together, and so are lines
/// deleted.
pub proof fn added_lines_are_those_of_source_and_tests(c: CodeLineCounts)
    ensures
        c.additions_spec() == held(c.source_additions + c.test_additions),
        c.deletions_spec() == held(c.source_deletions + c.test_deletions),
{
}

/// A payload that is not encoded is taken whole up to the limit, and a longer one
/// stays longer than the limit.
pub proof fn a_plain_payload_is_taken_up_to_the_limit(body: Seq<u8>, limit: usize)
    ensures
        body.len() <= limit ==> decoded(body, Encoding::Identity, limit) == Some(body),
        body.len() > limit && limit < usize::MAX ==> match decoded(
            body,
            Encoding::Identity,
            limit,
        ) {
            Some(b) => b.len() == limit + 1 && b == body.take(limit + 1),
            None => false,
        },
{
    if body.len() == limit + 1 {
        assert(body.take(limit + 1) =~= body);
    }
}

/// The server has a gap exactly where it says that it holds fewer records than were
/// all sent.
pub proof fn a_gap_is_fewer_than_were_sent(
    label: Seq<char>,
    remote: Option<u64>,
    total: usize,
    pending: usize,
)
    ensures
        gap_spec(label, remote, total, pending) is Some == (pending == 0 && remote is Some
            && remote->0 < total),
{
}

/// The project of a match is that of the last edit with its identifier; where no
/// edit has it there is none.
pub proof fn a_match_has_the_project_of_its_edit(
    traces: Seq<TraceEdit>,
    id: Seq<char>,
    i: int,
    n: int,
)
    requires
        0 <= n <= traces.len(),
    ensures
        0 <= i < n && traces[i].trace_edit_id@ == id && (forall|k: int|
            i < k < n ==> (#[trigger] traces[k]).trace_edit_id@ != id) ==> match (
            project_of_edit(traces, id, n),
            traces[i].project_id,
        ) {
            (Some(p), Some(q)) => p == q@,
            (None, None) => true,
            _ => false,
        },
        (forall|k: int| 0 <= k < n ==> (#[trigger] traces[k]).trace_edit_id@ != id)
            ==> project_of_edit(traces, id, n) is None,
    decreases n,
{
    if n > 0 {
        a_match_has_the_project_of_its_edit(traces, id, i, n - 1);
        if traces[n - 1].trace_edit_id@ == id && i < n - 1 && (forall|k: int|
            i < k < n ==> (#[trigger] traces[k]).trace_edit_id@ != id) {
            assert(traces[n - 1].trace_edit_id@ != id);
        }
    }
}

/// A commit's metric keeps the identifier that was first given to it; a commit to
/// which none was given has none.
pub proof fn a_commit_keeps_its_first_identifier(
    ids: Seq<CommittedMetricId>,
    commit: Seq<char>,
    i: int,
)
    ensures
        0 <= i < ids.len() && ids[i].deduplication_id@ == commit && (forall|k: int|
            0 <= k < i ==> (#[trigger] ids[k]).deduplication_id@ != commit) ==> persisted_id(
            ids,
            commit,
        ) == Some(ids[i].metric_id@),
        (forall|k: int| 0 <= k < ids.len() ==> (#[trigger] ids[k]).deduplication_id@ != commit)
            ==> persisted_id(ids, commit) is None,
    decreases ids.len(),
{
    if ids.len() > 0 {
        let rest = ids.skip(1);
        a_commit_keeps_its_first_identifier(rest, commit, i - 1);
        assert(forall|k: int| 0 <= k < rest.len() ==> #[trigger] rest[k] == ids[k + 1]);
        if ids[0].deduplication_id@ != commit {
            if 0 < i < ids.len() {
                assert(rest[i - 1] == ids[i]);
            }
        }
    }
}

/// A range that is given by plain dates starts with the first instant of its first
/// day and ends with the last nanosecond of its last; without an end it ends now.
pub proof fn a_range_of_dates_holds_whole_days(value: &str, day: int, now: Timestamp)
    requires
        parsed_rfc3339(value@) is None,
        ymd_day(value@) == Some(day),
        MIN_DAY <= day < MAX_DAY,
    ensures
        match since_of(Some(value)) {
            Some(b) => b.timestamp.secs == day * 86_400 && b.timestamp.nanos == 0 && b.date_only,
            None => false,
        },
        until_of(Some(value), now).timestamp.secs + 1 == (day + 1) * 86_400,
        until_of(Some(value), now).timestamp.nanos == 999_999_999,
        until_of(Some(value), now).date_only,
        since_of(None) is None,
        until_of(None, now).timestamp == now,
{
    a_date_stands_for_its_whole_day(None, Some(day), false);
    a_date_stands_for_its_whole_day(None, Some(day), true);
}

/// A bound with a time is the instant that it names, at either end of a range.
pub proof fn a_bound_with_a_time_is_that_instant(value: &str, t: Timestamp, now: Timestamp)
    requires
        parsed_rfc3339(value@) == Some(t),
    ensures
        since_of(Some(value)) == Some(ReportBound { timestamp: t, date_only: false }),
        until_of(Some(value), now) == (ReportBound { timestamp: t, date_only: false }),
{
}

/// Everything that refers to an account is counted.
pub proof fn all_references_are_counted(c: AccountReferenceCounts)
    ensures
        c.total_spec() - c.events - c.summaries == c.source_account_assignments + c.subscriptions,
{
}

} // verus!
