//! Which sources are scanned, what of a scan is stored, and what an import
//! replaces.
use crate::accounts::same_provider;
use crate::attribution_laws::id_text_of;
use crate::identities::{ended_assignments, ended_subscriptions, open_vouched_subscription};
use crate::ids::SourceKind;
use crate::imports::{
    ReportedImportReport, any_replaces, makes_way, replaced_ids, report_replaces, same_replace_key,
    stable_record_id,
};
use crate::matching::ResolvedPath;
use crate::paths::{is_base, same_path};
use crate::records::{
    LocationOrigin, SourceAccountAssignment, SourceLocation, SourceVerificationMode, Subscription,
    UsageEvent, UsageSummary, vouched,
};
use crate::sorted::Keyed;
use crate::sources::{
    ScanDiagnostics, SourceFindings, SourceOutcome, SourceProbe, SourceScanPlan, comparable_path,
    covers, events_total, first_at, first_source, last_with_key, outcome_spec, plan_of, preference,
    scanned_of, shadowed, summaries_total, uncovered,
};
use crate::sync::queries_for;
use crate::text::opt_str;
use crate::time::Timestamp;
use crate::usage_laws::{
    cost_is_sum, counts_are_sums, event_cost, lemma_cost_step, lemma_counts_step, summary_cost,
};
use vstd::prelude::*;

verus! {

/// Whether a source of the list, other than `v[i]` itself, is a directory above it
/// of the same provider that the user prefers no less.
pub open spec fn lies_below_another(v: Seq<SourceLocation>, i: int, known: Seq<ResolvedPath>) -> bool {
    exists|k: int|
        0 <= k < v.len() && k != i && same_provider(v[i].provider@, (#[trigger] v[k]).provider@)
            && comparable_path(v[i], known) is Some && comparable_path(v[k], known) is Some
            && is_base(comparable_path(v[k], known)->0, comparable_path(v[i], known)->0)
            && !same_path(comparable_path(v[k], known)->0, comparable_path(v[i], known)->0)
            && preference(v[i].location_origin) <= preference(v[k].location_origin)
}

/// A source is left out exactly where another covers it; the others stay, each
/// once and in order.
pub proof fn sources_that_lie_below_another_are_left_out(
    v: Seq<SourceLocation>,
    known: Seq<ResolvedPath>,
    n: int,
)
    requires
        0 <= n <= v.len(),
    ensures
        forall|i: int|
            0 <= i < n && !lies_below_another(v, i, known) ==> uncovered(v, known, n).contains(
                #[trigger] v[i],
            ),
        forall|k: int|
            0 <= k < uncovered(v, known, n).len() ==> exists|i: int|
                0 <= i < n && #[trigger] v[i] == #[trigger] uncovered(v, known, n)[k]
                    && !lies_below_another(v, i, known),
        uncovered(v, known, n).len() <= n,
    decreases n,
{
    if n > 0 {
        sources_that_lie_below_another_are_left_out(v, known, n - 1);
        let before = uncovered(v, known, n - 1);
        let now = uncovered(v, known, n);
        assert(shadowed(v, n - 1, known) == lies_below_another(v, n - 1, known)) by {
            if shadowed(v, n - 1, known) {
                let k = choose|k: int|
                    0 <= k < v.len() && k != n - 1 && covers(#[trigger] v[k], v[n - 1], known);
                assert(same_provider(v[n - 1].provider@, v[k].provider@));
            }
            if lies_below_another(v, n - 1, known) {
                let i = n - 1;
                let k = choose|k: int|
                    0 <= k < v.len() && k != i && same_provider(
                        v[i].provider@,
                        (#[trigger] v[k]).provider@,
                    ) && comparable_path(v[i], known) is Some && comparable_path(v[k], known) is Some
                        && is_base(
                        comparable_path(v[k], known)->0,
                        comparable_path(v[i], known)->0,
                    ) && !same_path(
                        comparable_path(v[k], known)->0,
                        comparable_path(v[i], known)->0,
                    ) && preference(v[i].location_origin) <= preference(v[k].location_origin);
                assert(covers(v[k], v[n - 1], known));
            }
        }
        assert forall|i: int| 0 <= i < n && !lies_below_another(v, i, known) implies now.contains(
            #[trigger] v[i],
        ) by {
            if i < n - 1 {
                let k = choose|k: int| 0 <= k < before.len() && before[k] == v[i];
                assert(now[k] == v[i]);
            } else {
                assert(now[now.len() - 1] == v[i]);
            }
        }
        assert forall|k: int| 0 <= k < now.len() implies exists|i: int|
            0 <= i < n && #[trigger] v[i] == #[trigger] now[k] && !lies_below_another(v, i, known) by {
            if k < before.len() {
                assert(now[k] == before[k]);
                let i = choose|i: int|
                    0 <= i < n - 1 && #[trigger] v[i] == before[k] && !lies_below_another(
                        v,
                        i,
                        known,
                    );
                assert(v[i] == now[k]);
            } else {
                assert(v[n - 1] == now[k]);
            }
        }
    }
}

/// What the user chose weighs more than what was discovered, and that more than a
/// default.
pub proof fn chosen_places_weigh_most(a: LocationOrigin)
    ensures
        preference(LocationOrigin::Configured) == preference(LocationOrigin::Env),
        preference(LocationOrigin::Env) > preference(LocationOrigin::Discovered),
        preference(LocationOrigin::Discovered) > preference(LocationOrigin::Default),
        preference(a) >= preference(LocationOrigin::Default),
{
}

/// An adapter scans the enabled local sources of its provider, and no others.
pub proof fn enabled_local_sources_of_the_provider_are_scanned(
    v: Seq<SourceLocation>,
    provider: Seq<char>,
    n: int,
)
    requires
        0 <= n <= v.len(),
    ensures
        scanned_of(v, provider, n) == v.take(n).filter(
            |s: SourceLocation|
                s.enabled && s.source_kind == SourceKind::LocalAdapter && same_provider(
                    s.provider@,
                    provider,
                ),
        ),
    decreases n,
{
    reveal(Seq::filter);
    if n > 0 {
        enabled_local_sources_of_the_provider_are_scanned(v, provider, n - 1);
        assert(v.take(n).drop_last() =~= v.take(n - 1));
    } else {
        assert(v.take(0) =~= Seq::empty());
    }
}

/// Of sources with one identifier the last one counts.
pub proof fn the_last_source_of_an_identifier_counts(
    v: Seq<SourceLocation>,
    key: Seq<Seq<char>>,
    n: int,
)
    requires
        0 <= n <= v.len(),
    ensures
        ({
            let r = last_with_key(v, key, n);
            &&& r is None ==> forall|k: int| 0 <= k < n ==> (#[trigger] v[k]).key() != key
            &&& r is Some ==> 0 <= r->0 < n && v[r->0].key() == key
            &&& r is Some ==> forall|k: int| r->0 < k < n ==> (#[trigger] v[k]).key() != key
        }),
    decreases n,
{
    if n > 0 {
        the_last_source_of_an_identifier_counts(v, key, n - 1);
    }
}

/// A source is found by its identifier wherever one has it, and it is the first.
pub proof fn sources_are_found_by_identifier_or_path(
    v: Seq<SourceLocation>,
    id: Seq<char>,
    hash: Seq<char>,
    i: int,
)
    requires
        0 <= i <= v.len(),
    ensures
        ({
            let r = first_source(v, id, i);
            &&& r is None ==> forall|k: int| i <= k < v.len() ==> (#[trigger] v[k]).source_id.0@ != id
            &&& r is Some ==> i <= r->0 < v.len() && v[r->0].source_id.0@ == id
            &&& r is Some ==> forall|k: int| i <= k < r->0 ==> (#[trigger] v[k]).source_id.0@ != id
        }),
        ({
            let r = first_at(v, hash, i);
            &&& r is None ==> forall|k: int|
                i <= k < v.len() ==> (#[trigger] v[k]).path_hash is None || v[k].path_hash->0@ != hash
            &&& r is Some ==> i <= r->0 < v.len() && v[r->0].path_hash is Some
                && v[r->0].path_hash->0@ == hash
        }),
    decreases v.len() - i,
{
    if i < v.len() {
        sources_are_found_by_identifier_or_path(v, id, hash, i + 1);
    }
}

/// Files are read where the user asks for it or one changed. A login counts only
/// where logins are watched: it has changed exactly where it looks different from
/// before.
pub proof fn a_scan_reads_what_changed(p: SourceProbe<'_>)
    ensures
        ({
            let plan = plan_of(p);
            &&& plan.full_scan == (p.replace || p.no_cache || p.pending > 0)
            &&& p.mode != SourceVerificationMode::Auto ==> !plan.verified_state_changed
                && !plan.legacy_reconciliation
            &&& p.mode == SourceVerificationMode::Auto ==> plan.verified_state_changed == (
            opt_str(p.stored_state) != opt_str(p.next_state))
            &&& plan.verified_state_changed ==> !plan.legacy_reconciliation
            &&& plan.legacy_reconciliation ==> p.state_missing && p.has_verified_assignment
                && p.stored_state is None && p.next_state is None
            &&& p.mode == SourceVerificationMode::Auto && p.stored_state is None && p.next_state is None
                && p.state_missing && p.has_verified_assignment ==> plan.legacy_reconciliation
        }),
{
}

/// What a scan found is stored wherever anything is new and it is no preview; a
/// source of which nothing was seen is passed over.
pub proof fn anything_new_is_stored(f: SourceFindings, plan: SourceScanPlan, detailed: bool)
    ensures
        f.events > 0 || f.summaries > 0 || plan.verified_state_changed || plan.legacy_reconciliation
            ==> outcome_spec(f, plan, detailed, false) == SourceOutcome::Stored,
        f.pending > 0 && (f.diagnostics.files_scanned > 0 || f.diagnostics.raw_rows > 0)
            ==> outcome_spec(f, plan, detailed, false) == SourceOutcome::Stored,
        f.events == 0 && f.summaries == 0 && f.diagnostics.files_scanned == 0
            && f.diagnostics.files_skipped_unchanged == 0 && f.diagnostics.raw_rows == 0
            && !plan.verified_state_changed && !plan.legacy_reconciliation ==> outcome_spec(
            f,
            plan,
            detailed,
            false,
        ) == SourceOutcome::Ignored,
        f.events == 0 && f.summaries == 0 && f.pending == 0 && f.diagnostics.files_skipped_unchanged
            > 0 && !plan.verified_state_changed && !plan.legacy_reconciliation && !detailed
            ==> outcome_spec(f, plan, detailed, false) == SourceOutcome::Counted,
        outcome_spec(f, plan, detailed, true) != SourceOutcome::Stored,
{
}

/// A scan's totals are the sums over the events and the summaries.
pub proof fn scanned_usage_is_summed(events: Seq<UsageEvent>, summaries: Seq<UsageSummary>, n: int)
    requires
        0 <= n,
    ensures
        n <= events.len() ==> counts_are_sums(
            events_total(events, n),
            events.take(n),
            |e: UsageEvent| true,
            |e: UsageEvent| e.usage,
        ) && cost_is_sum(
            events_total(events, n),
            events.take(n),
            |e: UsageEvent| true,
            |e: UsageEvent| event_cost(e),
        ),
        n <= summaries.len() ==> counts_are_sums(
            summaries_total(summaries, n),
            summaries.take(n),
            |s: UsageSummary| true,
            |s: UsageSummary| s.usage,
        ) && cost_is_sum(
            summaries_total(summaries, n),
            summaries.take(n),
            |s: UsageSummary| true,
            |s: UsageSummary| summary_cost(s),
        ),
    decreases n,
{
    if n > 0 {
        scanned_usage_is_summed(events, summaries, n - 1);
        if n <= events.len() {
            let e = events[n - 1];
            let t = events_total(events, n - 1);
            assert(events.take(n) =~= events.take(n - 1).push(e));
            lemma_counts_step(
                t,
                events.take(n - 1),
                e,
                |e: UsageEvent| true,
                |e: UsageEvent| e.usage,
                e.cost.estimated_spec(),
            );
            lemma_cost_step(
                t,
                events.take(n - 1),
                e,
                |e: UsageEvent| true,
                |e: UsageEvent| event_cost(e),
                e.usage,
                e.cost.estimated_spec(),
            );
        }
        if n <= summaries.len() {
            let s = summaries[n - 1];
            let t = summaries_total(summaries, n - 1);
            assert(summaries.take(n) =~= summaries.take(n - 1).push(s));
            lemma_counts_step(
                t,
                summaries.take(n - 1),
                s,
                |s: UsageSummary| true,
                |s: UsageSummary| s.usage,
                s.cost.effective_spec(),
            );
            lemma_cost_step(
                t,
                summaries.take(n - 1),
                s,
                |s: UsageSummary| true,
                |s: UsageSummary| summary_cost(s),
                s.usage,
                s.cost.effective_spec(),
            );
        }
    } else {
        assert(events.take(0) =~= Seq::empty());
        assert(summaries.take(0) =~= Seq::empty());
    }
}

/// What several scans counted is added count by count.
pub proof fn diagnostics_are_added_count_by_count(a: ScanDiagnostics, b: ScanDiagnostics)
    requires
        a.fits(b),
    ensures
        a.plus(b).files_scanned == a.files_scanned + b.files_scanned,
        a.plus(b).files_skipped_unchanged == a.files_skipped_unchanged + b.files_skipped_unchanged,
        a.plus(b).raw_rows == a.raw_rows + b.raw_rows,
        a.plus(b).candidate_usage_rows == a.candidate_usage_rows + b.candidate_usage_rows,
        a.plus(b).accepted_events == a.accepted_events + b.accepted_events,
        a.plus(b).duplicate_events == a.duplicate_events + b.duplicate_events,
        a.plus(b).skipped_zero_events == a.skipped_zero_events + b.skipped_zero_events,
        a.plus(b).invalid_rows == a.invalid_rows + b.invalid_rows,
        a.plus(b).timestamp_fallbacks == a.timestamp_fallbacks + b.timestamp_fallbacks,
        a.plus(b).model_fallbacks == a.model_fallbacks + b.model_fallbacks,
{
}

// ---------------------------------------------------------------------------
// Imports
// ---------------------------------------------------------------------------

/// Whether two summaries report the same: the same kind, of the same account and
/// source, over the same period, and from the same record where the record has an
/// identifier of its own.
pub open spec fn report_the_same(a: UsageSummary, b: UsageSummary) -> bool {
    &&& a.provider@ == b.provider@
    &&& a.source_id.0@ == b.source_id.0@
    &&& a.metadata.summary_format@ == b.metadata.summary_format@
    &&& a.period_start == b.period_start
    &&& a.period_end == b.period_end
    &&& a.provider_account_id is Some == b.provider_account_id is Some
    &&& a.provider_account_id is Some ==> id_text_of(a.provider_account_id) == id_text_of(
        b.provider_account_id,
    )
    &&& stable_record_id(a) == stable_record_id(b)
}

/// The stored summaries that an import deletes are those that were reported or
/// entered by hand and that an incoming one reports again; all of them, in order.
pub proof fn an_import_replaces_what_it_reports_again(
    stored: Seq<UsageSummary>,
    reports: Seq<ReportedImportReport>,
)
    ensures
        replaced_ids(stored, reports) == stored.filter(
            |s: UsageSummary| makes_way(reports, s),
        ).map_values(|s: UsageSummary| s.summary_id),
        forall|s: UsageSummary| #[trigger]
            makes_way(reports, s) == ((s.source.source_kind == SourceKind::ExternalReport
                || s.source.source_kind == SourceKind::Manual) && exists|i: int, j: int|
                0 <= i < reports.len() && 0 <= j < reports[i].records@.len() && report_the_same(
                    (#[trigger] reports[i].records@[j]).summary,
                    s,
                )),
    decreases stored.len(),
{
    reveal(Seq::filter);
    let way = |s: UsageSummary| makes_way(reports, s);
    let id = |s: UsageSummary| s.summary_id;
    if stored.len() > 0 {
        an_import_replaces_what_it_reports_again(stored.drop_last(), reports);
        let before = stored.drop_last().filter(way);
        if way(stored.last()) {
            assert(before.push(stored.last()).map_values(id) =~= before.map_values(id).push(
                id(stored.last()),
            ));
        }
    } else {
        assert(replaced_ids(stored, reports) =~= stored.filter(way).map_values(id));
    }
    assert forall|s: UsageSummary| #[trigger]
        makes_way(reports, s) == ((s.source.source_kind == SourceKind::ExternalReport
            || s.source.source_kind == SourceKind::Manual) && exists|i: int, j: int|
            0 <= i < reports.len() && 0 <= j < reports[i].records@.len() && report_the_same(
                (#[trigger] reports[i].records@[j]).summary,
                s,
            )) by {
        if any_replaces(reports, s) {
            let i = choose|i: int| 0 <= i < reports.len() && #[trigger] report_replaces(reports[i], s);
            let j = choose|j: int|
                0 <= j < reports[i].records@.len() && same_replace_key(
                    (#[trigger] reports[i].records@[j]).summary,
                    s,
                );
            assert(report_the_same(reports[i].records@[j].summary, s));
        }
        if exists|i: int, j: int|
            0 <= i < reports.len() && 0 <= j < reports[i].records@.len() && report_the_same(
                (#[trigger] reports[i].records@[j]).summary,
                s,
            ) {
            let (i, j) = choose|i: int, j: int|
                0 <= i < reports.len() && 0 <= j < reports[i].records@.len() && report_the_same(
                    (#[trigger] reports[i].records@[j]).summary,
                    s,
                );
            assert(same_replace_key(reports[i].records@[j].summary, s));
            assert(report_replaces(reports[i], s));
        }
    }
}

/// A login that has gone ends the open assignments that it vouched for, of that
/// source, and the open subscriptions that it vouched for of their accounts.
/// Nothing else of them changes.
pub proof fn a_lost_login_ends_what_it_vouched_for(
    v: Seq<SourceAccountAssignment>,
    w: Seq<Subscription>,
    ended: Seq<SourceAccountAssignment>,
    source: Seq<char>,
    at: Timestamp,
)
    ensures
        ended_assignments(v, source, at) == v.filter(
            |a: SourceAccountAssignment|
                a.source_id.0@ == source && a.ended_at is None && vouched(a.record_source),
        ).map_values(
            |a: SourceAccountAssignment|
                SourceAccountAssignment { ended_at: Some(at), updated_at: at, ..a },
        ),
        ended_subscriptions(w, ended, at) == w.filter(
            |s: Subscription| open_vouched_subscription(s, ended),
        ).map_values(|s: Subscription| Subscription { ended_at: Some(at), ..s }),
        forall|s: Subscription| #[trigger]
            open_vouched_subscription(s, ended) ==> s.ended_at is None && vouched(s.record_source),
    decreases v.len() + w.len(),
{
    reveal(Seq::filter);
    let open = |a: SourceAccountAssignment|
        a.source_id.0@ == source && a.ended_at is None && vouched(a.record_source);
    let end = |a: SourceAccountAssignment|
        SourceAccountAssignment { ended_at: Some(at), updated_at: at, ..a };
    let sopen = |s: Subscription| open_vouched_subscription(s, ended);
    let send = |s: Subscription| Subscription { ended_at: Some(at), ..s };
    if v.len() > 0 {
        a_lost_login_ends_what_it_vouched_for(v.drop_last(), w, ended, source, at);
        let before = v.drop_last().filter(open);
        if open(v.last()) {
            assert(before.push(v.last()).map_values(end) =~= before.map_values(end).push(
                end(v.last()),
            ));
        }
    } else {
        assert(ended_assignments(v, source, at) =~= v.filter(open).map_values(end));
        if w.len() > 0 {
            a_lost_login_ends_what_it_vouched_for(v, w.drop_last(), ended, source, at);
            let before = w.drop_last().filter(sopen);
            if sopen(w.last()) {
                assert(before.push(w.last()).map_values(send) =~= before.map_values(send).push(
                    send(w.last()),
                ));
            }
        } else {
            assert(ended_subscriptions(w, ended, at) =~= w.filter(sopen).map_values(send));
        }
    }
}

// ---------------------------------------------------------------------------
// What a batch costs
// ---------------------------------------------------------------------------

/// So many queries are enough for the items, and one fewer is not.
pub proof fn as_many_queries_as_it_takes(items: int, size: int)
    requires
        items >= 0,
        size > 0,
    ensures
        queries_for(items, size) * size >= items,
        items > 0 ==> (queries_for(items, size) - 1) * size < items,
        items == 0 ==> queries_for(items, size) == 0,
{
    if items > 0 {
        let q = (items + size - 1) / size;
        assert(q * size <= items + size - 1 && items + size - 1 < (q + 1) * size) by (nonlinear_arith)
            requires
                size > 0,
                q == (items + size - 1) / size,
        ;
        assert((q + 1) * size == q * size + size) by (nonlinear_arith);
        assert((q - 1) * size == q * size - size) by (nonlinear_arith);
    }
}

} // verus!
