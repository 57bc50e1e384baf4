//! Imports of reported usage.
use crate::ids::{SourceKind, SummaryId};
use crate::records::{EventSource, SourceLocation, UsageSummary, account_text};
use crate::text::{opt_text, same_opt, same_text, starts, starts_with};
use crate::time::Timestamp;
use crate::usage::UsageTotals;
use vstd::prelude::*;

verus! {

/// A reported summary and the source it belongs to.
#[derive(Debug, Clone, PartialEq, Eq)]
pub struct ReportedUsageSummaryRecord {
    pub source: SourceLocation,
    pub summary: UsageSummary,
}

/// What was read from one file.
#[derive(Debug, Clone, PartialEq, Eq)]
pub struct ReportedImportReport {
    pub path: String,
    pub records: Vec<ReportedUsageSummaryRecord>,
    pub warnings: Vec<String>,
}

/// What makes a reported summary take the place of another.
#[derive(Debug, Clone, PartialEq, Eq)]
pub struct ReportedReplaceKey {
    pub provider: String,
    pub provider_account_id: Option<String>,
    pub summary_format: String,
    pub source_id: String,
    pub period_start: Option<Timestamp>,
    pub period_end: Option<Timestamp>,
    pub source_record_id: Option<String>,
}

pub const GENERATED_RECORD_PREFIX: &'static str = "summary_key_";

/// The summary's own record identifier; a generated one does not count.
pub open spec fn stable_record_id(s: UsageSummary) -> Option<Seq<char>> {
    match s.source.source_record_id {
        Some(id) => if starts(id@, GENERATED_RECORD_PREFIX@) {
            None
        } else {
            Some(id@)
        },
        None => None,
    }
}

pub fn stable_reported_record_id(summary: &UsageSummary) -> (r: Option<String>)
    ensures
        opt_text(r) == stable_record_id(*summary),
{
    match &summary.source.source_record_id {
        Some(id) => if starts_with(id.as_str(), GENERATED_RECORD_PREFIX) {
            None
        } else {
            Some(id.clone())
        },
        None => None,
    }
}

/// Whether a key is a summary's.
pub open spec fn is_key_of(k: ReportedReplaceKey, s: UsageSummary) -> bool {
    &&& k.provider@ == s.provider@
    &&& opt_text(k.provider_account_id) == account_text(s.provider_account_id)
    &&& k.summary_format@ == s.metadata.summary_format@
    &&& k.source_id@ == s.source_id.0@
    &&& k.period_start == s.period_start
    &&& k.period_end == s.period_end
    &&& opt_text(k.source_record_id) == stable_record_id(s)
}

pub fn reported_replace_key_from_summary(summary: &UsageSummary) -> (r: ReportedReplaceKey)
    ensures
        is_key_of(r, *summary),
{
    ReportedReplaceKey {
        provider: summary.provider.clone(),
        provider_account_id: match &summary.provider_account_id {
            Some(id) => Some(id.0.clone()),
            None => None,
        },
        summary_format: summary.metadata.summary_format.clone(),
        source_id: summary.source_id.0.clone(),
        period_start: summary.period_start,
        period_end: summary.period_end,
        source_record_id: stable_reported_record_id(summary),
    }
}

pub fn reported_replace_key(record: &ReportedUsageSummaryRecord) -> (r: ReportedReplaceKey)
    ensures
        is_key_of(r, record.summary),
{
    reported_replace_key_from_summary(&record.summary)
}

/// Whether one summary takes the place of the other.
pub open spec fn same_replace_key(a: UsageSummary, b: UsageSummary) -> bool {
    &&& a.provider@ == b.provider@
    &&& account_text(a.provider_account_id) == account_text(b.provider_account_id)
    &&& a.metadata.summary_format@ == b.metadata.summary_format@
    &&& a.source_id.0@ == b.source_id.0@
    &&& a.period_start == b.period_start
    &&& a.period_end == b.period_end
    &&& stable_record_id(a) == stable_record_id(b)
}

/// Summaries take each other's places whatever generated identifiers they carry.
pub proof fn generated_identifiers_do_not_matter(a: UsageSummary, generated: String)
    requires
        starts(generated@, GENERATED_RECORD_PREFIX@),
        a.source.source_record_id is None,
    ensures
        same_replace_key(
            a,
            (UsageSummary {
                source: EventSource { source_record_id: Some(generated), ..a.source },
                ..a
            }),
        ),
{
}

fn same_instant(a: Option<Timestamp>, b: Option<Timestamp>) -> (r: bool)
    ensures
        r == (a == b),
{
    match (a, b) {
        (Some(x), Some(y)) => x == y,
        (None, None) => true,
        _ => false,
    }
}

fn keys_agree(a: &ReportedReplaceKey, b: &ReportedReplaceKey) -> (r: bool)
    ensures
        r == {
            &&& a.provider@ == b.provider@
            &&& opt_text(a.provider_account_id) == opt_text(b.provider_account_id)
            &&& a.summary_format@ == b.summary_format@
            &&& a.source_id@ == b.source_id@
            &&& a.period_start == b.period_start
            &&& a.period_end == b.period_end
            &&& opt_text(a.source_record_id) == opt_text(b.source_record_id)
        },
{
    same_text(a.provider.as_str(), b.provider.as_str()) && same_opt(
        &a.provider_account_id,
        &b.provider_account_id,
    ) && same_text(a.summary_format.as_str(), b.summary_format.as_str()) && same_text(
        a.source_id.as_str(),
        b.source_id.as_str(),
    ) && same_instant(a.period_start, b.period_start) && same_instant(a.period_end, b.period_end)
        && same_opt(&a.source_record_id, &b.source_record_id)
}

pub open spec fn report_replaces(report: ReportedImportReport, s: UsageSummary) -> bool {
    exists|i: int|
        0 <= i < report.records@.len() && same_replace_key(
            (#[trigger] report.records@[i]).summary,
            s,
        )
}

/// Whether one of the incoming summaries takes the place of `s`.
pub open spec fn any_replaces(reports: Seq<ReportedImportReport>, s: UsageSummary) -> bool {
    exists|i: int| 0 <= i < reports.len() && #[trigger] report_replaces(reports[i], s)
}

/// Whether a stored summary was reported or entered by hand and makes way for an
/// incoming one.
pub open spec fn makes_way(reports: Seq<ReportedImportReport>, s: UsageSummary) -> bool {
    (s.source.source_kind == SourceKind::ExternalReport || s.source.source_kind
        == SourceKind::Manual) && any_replaces(reports, s)
}

fn report_replaces_summary(report: &ReportedImportReport, key: &ReportedReplaceKey, s: Ghost<UsageSummary>) -> (r:
    bool)
    requires
        is_key_of(*key, s@),
    ensures
        r == report_replaces(*report, s@),
{
    let mut i: usize = 0;
    while i < report.records.len()
        invariant
            is_key_of(*key, s@),
            i <= report.records.len(),
            forall|k: int|
                0 <= k < i ==> !same_replace_key((#[trigger] report.records@[k]).summary, s@),
        decreases report.records.len() - i,
    {
        let own = reported_replace_key(&report.records[i]);
        if keys_agree(&own, key) {
            proof {
                assert(same_replace_key(report.records@[i as int].summary, s@));
            }
            return true;
        }
        i = i + 1;
    }
    false
}

fn summary_makes_way(reports: &[ReportedImportReport], s: &UsageSummary) -> (r: bool)
    ensures
        r == makes_way(reports@, *s),
{
    let reported = match s.source.source_kind {
        SourceKind::ExternalReport => true,
        SourceKind::Manual => true,
        _ => false,
    };
    if !reported {
        return false;
    }
    let key = reported_replace_key_from_summary(s);
    let mut i: usize = 0;
    while i < reports.len()
        invariant
            s.source.source_kind == SourceKind::ExternalReport || s.source.source_kind
                == SourceKind::Manual,
            is_key_of(key, *s),
            i <= reports.len(),
            forall|k: int| 0 <= k < i ==> !#[trigger] report_replaces(reports@[k], *s),
        decreases reports.len() - i,
    {
        if report_replaces_summary(&reports[i], &key, Ghost(*s)) {
            proof {
                assert(report_replaces(reports@[i as int], *s));
            }
            return true;
        }
        i = i + 1;
    }
    false
}

/// The identifiers of the stored summaries that make way, in their order.
pub open spec fn replaced_ids(stored: Seq<UsageSummary>, reports: Seq<ReportedImportReport>) -> Seq<
    SummaryId,
>
    decreases stored.len(),
{
    if stored.len() == 0 {
        Seq::empty()
    } else {
        let before = replaced_ids(stored.drop_last(), reports);
        if makes_way(reports, stored.last()) {
            before.push(stored.last().summary_id)
        } else {
            before
        }
    }
}

pub fn matching_reported_summary_ids(stored: &[UsageSummary], reports: &[ReportedImportReport]) -> (r:
    Vec<SummaryId>)
    ensures
        r@ == replaced_ids(stored@, reports@),
{
    let mut out: Vec<SummaryId> = Vec::new();
    let mut i: usize = 0;
    proof {
        assert(stored@.take(0) =~= Seq::empty());
    }
    while i < stored.len()
        invariant
            i <= stored.len(),
            out@ == replaced_ids(stored@.take(i as int), reports@),
        decreases stored.len() - i,
    {
        proof {
            assert(stored@.take(i + 1).drop_last() =~= stored@.take(i as int));
        }
        if summary_makes_way(reports, &stored[i]) {
            out.push(stored[i].summary_id.clone());
        }
        i = i + 1;
    }
    proof {
        assert(stored@.take(i as int) =~= stored@);
    }
    out
}

/// The records of all reports, in order.
pub open spec fn all_records(reports: Seq<ReportedImportReport>) -> Seq<ReportedUsageSummaryRecord>
    decreases reports.len(),
{
    if reports.len() == 0 {
        Seq::empty()
    } else {
        all_records(reports.drop_last()) + reports.last().records@
    }
}

pub open spec fn records_total(records: Seq<ReportedUsageSummaryRecord>) -> UsageTotals
    decreases records.len(),
{
    if records.len() == 0 {
        UsageTotals::zero()
    } else {
        records_total(records.drop_last()).plus_summary(records.last().summary)
    }
}

/// What an import does to the store: the summaries to delete first, and then the
/// records to write, each source before its summary.
#[derive(Debug, Clone, PartialEq, Eq)]
pub struct ImportPlan {
    pub deletes: Vec<SummaryId>,
    pub records: Vec<ReportedUsageSummaryRecord>,
    pub usage: UsageTotals,
}

fn push_records(out: &mut Vec<ReportedUsageSummaryRecord>, more: &[ReportedUsageSummaryRecord])
    ensures
        final(out)@ == old(out)@ + more@,
{
    let ghost before = out@;
    let mut i: usize = 0;
    proof {
        assert(before + more@.take(0) =~= before);
    }
    while i < more.len()
        invariant
            i <= more.len(),
            out@ == before + more@.take(i as int),
        decreases more.len() - i,
    {
        out.push(
            ReportedUsageSummaryRecord {
                source: more[i].source.clone(),
                summary: more[i].summary.clone(),
            },
        );
        i = i + 1;
        proof {
            assert(out@ =~= before + more@.take(i as int));
        }
    }
    proof {
        assert(more@.take(i as int) =~= more@);
    }
}

/// Plans an import. With `replace`, stored summaries make way for incoming ones
/// with the same key.
pub fn import_reported_summary_records(
    stored: &[UsageSummary],
    reports: &[ReportedImportReport],
    replace: bool,
) -> (r: ImportPlan)
    ensures
        r.deletes@ == if replace {
            replaced_ids(stored@, reports@)
        } else {
            Seq::empty()
        },
        r.records@ == all_records(reports@),
        r.usage == records_total(all_records(reports@)),
{
    let deletes: Vec<SummaryId> = if replace {
        matching_reported_summary_ids(stored, reports)
    } else {
        Vec::new()
    };
    let mut records: Vec<ReportedUsageSummaryRecord> = Vec::new();
    let mut n: usize = 0;
    proof {
        assert(reports@.take(0) =~= Seq::empty());
    }
    while n < reports.len()
        invariant
            n <= reports.len(),
            records@ == all_records(reports@.take(n as int)),
        decreases reports.len() - n,
    {
        proof {
            assert(reports@.take(n + 1).drop_last() =~= reports@.take(n as int));
        }
        push_records(&mut records, &reports[n].records);
        n = n + 1;
    }
    proof {
        assert(reports@.take(n as int) =~= reports@);
    }
    let mut usage = UsageTotals::default();
    let mut i: usize = 0;
    proof {
        assert(records@.take(0) =~= Seq::empty());
    }
    while i < records.len()
        invariant
            i <= records.len(),
            usage == records_total(records@.take(i as int)),
        decreases records.len() - i,
    {
        proof {
            assert(records@.take(i + 1).drop_last() =~= records@.take(i as int));
        }
        usage.add_summary(&records[i].summary);
        i = i + 1;
    }
    proof {
        assert(records@.take(i as int) =~= records@);
    }
    ImportPlan { deletes, records, usage }
}

} // verus!
