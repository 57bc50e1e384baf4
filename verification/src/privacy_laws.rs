//! What leaves the device, and what does not.
use crate::binary64::one;
use crate::records::{
    EventSource, IdentitySource, ProviderAccount, SourceLocation, Subscription, UsageEvent,
    UsageSummary,
};
use crate::sync::BatchModel;
use crate::sync_flow::{
    RemoteSyncStatus, SyncLocalVerify, account_for_sync, event_for_sync, gaps_spec, kept_summaries,
    passthrough_upto, remote_matches, reset_reasons, rollup_ids, source_for_sync, splittable,
    subscription_for_sync, summary_for_sync,
};
use crate::text::{blank, opt_text, trimmed};
use vstd::prelude::*;

verus! {

/// What leaves the device of a source, an account and a subscription is everything
/// but the local path, the plan, a label that the user did not choose, and the
/// notes.
pub proof fn only_private_fields_stay_behind(
    source: SourceLocation,
    account: ProviderAccount,
    subscription: Subscription,
)
    ensures
        source_for_sync(source).path_label is None,
        (SourceLocation { path_label: source.path_label, ..source_for_sync(source) }) == source,
        account_for_sync(account).plan_name is None,
        account.identity_source != IdentitySource::UserConfigured ==> account_for_sync(
            account,
        ).account_label is None,
        account.identity_source == IdentitySource::UserConfigured ==> account_for_sync(
            account,
        ).account_label == account.account_label,
        (ProviderAccount {
            plan_name: account.plan_name,
            account_label: account.account_label,
            ..account_for_sync(account)
        }) == account,
        subscription_for_sync(subscription).notes is None,
        (Subscription { notes: subscription.notes, ..subscription_for_sync(subscription) })
            == subscription,
{
}

/// What leaves the device of usage is everything but which line and which record
/// of which file it was read from.
pub proof fn only_where_usage_was_read_stays_behind(event: UsageEvent, summary: UsageSummary)
    ensures
        event_for_sync(event).source.source_record_id is None,
        event_for_sync(event).parse_evidence is Some == event.parse_evidence is Some,
        event.parse_evidence is Some ==> event_for_sync(
            event,
        ).parse_evidence->0.source_line_number is None && event_for_sync(
            event,
        ).parse_evidence->0.source_record_id is None && event_for_sync(
            event,
        ).parse_evidence->0.account_identity_source
            == event.parse_evidence->0.account_identity_source && event_for_sync(
            event,
        ).parse_evidence->0.source_file_path_hash == event.parse_evidence->0.source_file_path_hash,
        (UsageEvent {
            source: event.source,
            parse_evidence: event.parse_evidence,
            ..event_for_sync(event)
        }) == event,
        summary_for_sync(summary).source.source_record_id is None,
        summary.parse_evidence is Some ==> summary_for_sync(
            summary,
        ).parse_evidence->0.source_line_number is None && summary_for_sync(
            summary,
        ).parse_evidence->0.source_record_id is None,
        (UsageSummary {
            source: summary.source,
            parse_evidence: summary.parse_evidence,
            ..summary_for_sync(summary)
        }) == summary,
        (EventSource {
            source_record_id: event.source.source_record_id,
            ..event_for_sync(event).source
        }) == event.source,
{
}

/// Whether a summary adds up a single day.
pub open spec fn of_one_day(s: UsageSummary) -> bool {
    s.metadata.summary_format@ == "daily_rollup.v1"@
}

/// Of stored summaries those that add up no single day are sent on, each once and
/// in order.
pub proof fn other_summaries_are_sent_on(v: Seq<UsageSummary>, n: int)
    requires
        0 <= n <= v.len(),
    ensures
        passthrough_upto(v, n) == v.take(n).filter(|s: UsageSummary| !of_one_day(s)).map_values(
            |s: UsageSummary| summary_for_sync(s),
        ),
    decreases n,
{
    let keep = |s: UsageSummary| !of_one_day(s);
    let clean = |s: UsageSummary| summary_for_sync(s);
    reveal(Seq::filter);
    if n > 0 {
        other_summaries_are_sent_on(v, n - 1);
        assert(v.take(n).drop_last() =~= v.take(n - 1));
        let before = v.take(n - 1).filter(keep);
        if keep(v[n - 1]) {
            assert(before.push(v[n - 1]).map_values(clean) =~= before.map_values(clean).push(
                clean(v[n - 1]),
            ));
        }
    } else {
        assert(v.take(0) =~= Seq::empty());
        assert(passthrough_upto(v, 0) =~= v.take(0).filter(keep).map_values(clean));
    }
}

/// Of sent summaries, those of single days are remembered by their identifiers and
/// the others as they are; every one is one or the other.
pub proof fn sent_summaries_are_remembered(v: Seq<UsageSummary>, n: int)
    requires
        0 <= n <= v.len(),
    ensures
        kept_summaries(v, n) == v.take(n).filter(|s: UsageSummary| !of_one_day(s)),
        rollup_ids(v, n) == v.take(n).filter(|s: UsageSummary| of_one_day(s)).map_values(
            |s: UsageSummary| s.summary_id,
        ),
    decreases n,
{
    let one = |s: UsageSummary| of_one_day(s);
    let id = |s: UsageSummary| s.summary_id;
    reveal(Seq::filter);
    if n > 0 {
        sent_summaries_are_remembered(v, n - 1);
        assert(v.take(n).drop_last() =~= v.take(n - 1));
        let before = v.take(n - 1).filter(one);
        if one(v[n - 1]) {
            assert(before.push(v[n - 1]).map_values(id) =~= before.map_values(id).push(
                id(v[n - 1]),
            ));
        }
    } else {
        assert(v.take(0) =~= Seq::empty());
        assert(rollup_ids(v, 0) =~= v.take(0).filter(one).map_values(id));
    }
}

/// The server's copy has a gap exactly where some kind of records was sent whole
/// and the server says that it holds fewer.
pub open spec fn lacks(remote: Option<u64>, total: usize, pending: usize) -> bool {
    remote is Some && remote->0 < total && pending == 0
}

pub proof fn a_gap_is_what_the_server_lacks(remote: RemoteSyncStatus, local: SyncLocalVerify)
    ensures
        (gaps_spec(remote, local).len() > 0) == (lacks(
            remote.sources,
            local.total_sources,
            local.pending_sources,
        ) || lacks(remote.accounts, local.total_accounts, local.pending_accounts) || lacks(
            remote.source_account_assignments,
            local.total_source_account_assignments,
            local.pending_source_account_assignments,
        ) || lacks(
            remote.subscriptions,
            local.total_subscriptions,
            local.pending_subscriptions,
        )),
{
}

/// What was sent has to be sent again exactly where the server's last batch is not
/// the one that was sent last, or its copy has a gap.
pub proof fn tracking_is_reset_where_the_server_differs(
    remote: RemoteSyncStatus,
    last: Seq<char>,
    local: SyncLocalVerify,
)
    ensures
        (reset_reasons(remote, last, local).len() > 0) == (!remote_matches(
            opt_text(remote.last_sync_batch_id),
            last,
        ) || gaps_spec(remote, local).len() > 0),
        remote.last_sync_batch_id is Some && remote.last_sync_batch_id->0@ == last && !blank(last)
            && trimmed(last) == last ==> remote_matches(opt_text(remote.last_sync_batch_id), last),
        remote.last_sync_batch_id is None ==> !remote_matches(
            opt_text(remote.last_sync_batch_id),
            last,
        ),
{
}

/// A batch is tried again in parts exactly where the server found it too expensive
/// and it holds two records that can be parted.
pub proof fn a_batch_of_one_record_is_not_split(m: BatchModel)
    ensures
        splittable(m) == (m.summaries.len() + m.sources.len() + m.accounts.len()
            + m.assignments.len() + m.subscriptions.len() > 1 && (m.summaries.len() > 0
            || m.sources.len() > 1 || m.accounts.len() > 1 || m.assignments.len() > 1
            || m.subscriptions.len() > 1)),
{
}

} // verus!
