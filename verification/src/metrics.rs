//! Aggregates edits, commits and matches into publishable metrics.
use crate::calendar::civil;
use crate::code_types::{
    AttributionConfidence, CODE_CHANGE_METRIC_SCHEMA_VERSION, CodeChangeMatch, CodeChangeMetric,
    CodeChangeMetricBuildError, CodeChangeMetricKind, CodeLineCounts, CoverageStatus,
    GitCommitChange, GitFileChange, GitScan, MAX_REPORTABLE_FUTURE_DAYS, TraceEdit,
    max_reportable_day,
};
use crate::hashing::{hash_of, hash_text};
use crate::matching::{
    ResolvedPath, canonical_scan_roots, canonical_spec, commit_times_wf, owner_hash,
    repository_hash_for_trace, scans_wf, traces_wf,
};
use crate::sorted::{
    Keyed, has_key, key_at, key_lt, key_place, keys_increase, lemma_insert_keeps_order,
    lemma_key_found,
};
use crate::text::{
    copy_opt, decimal, digit_ascii, join, joined, lemma_decimal, lemma_text_lt_irreflexive,
    lemma_text_lt_total, lemma_text_lt_transitive, less_text, opt_text, same_opt, same_text,
    splitting_undoes_joining, text_lt, texts,
};
use crate::time::{
    MAX_DAY, MAX_SECONDS, MIN_DAY, Timestamp, day_text, format_day, year_text, zero_padded,
};
use vstd::prelude::*;

verus! {

/// The metrics of one refresh, and how much of what happened they cover.
#[derive(Debug, Clone, PartialEq, Eq)]
pub struct CodeChangeMetricBuild {
    pub metrics: Vec<CodeChangeMetric>,
    pub trace_coverage: CoverageStatus,
}

/// The identifier under which a commit's metric is published.
#[derive(Debug, Clone, PartialEq, Eq)]
pub struct CommittedMetricId {
    pub deduplication_id: String,
    pub metric_id: String,
}

// ---------------------------------------------------------------------------
// Model
// ---------------------------------------------------------------------------

/// What a metric says.
#[verifier::ext_equal]
pub struct MetricModel {
    pub schema_version: Seq<char>,
    pub metric_id: Seq<char>,
    pub device_id: Seq<char>,
    pub day: int,
    pub project_id: Option<Seq<char>>,
    pub repository_hash: Option<Seq<char>>,
    pub commit_hash: Option<Seq<char>>,
    pub kind: CodeChangeMetricKind,
    pub counts: CodeLineCounts,
    pub confidence: Option<AttributionConfidence>,
    pub trace_coverage: CoverageStatus,
    pub git_coverage: CoverageStatus,
}

impl CodeChangeMetric {
    pub open spec fn model(self) -> MetricModel {
        MetricModel {
            schema_version: self.schema_version@,
            metric_id: self.metric_id@,
            device_id: self.device_id@,
            day: self.day as int,
            project_id: opt_text(self.project_id),
            repository_hash: opt_text(self.repository_hash),
            commit_hash: opt_text(self.commit_hash),
            kind: self.kind,
            counts: self.counts,
            confidence: self.attribution_confidence,
            trace_coverage: self.trace_coverage,
            git_coverage: self.git_coverage,
        }
    }
}

pub open spec fn metric_models(v: Seq<CodeChangeMetric>) -> Seq<MetricModel> {
    v.map_values(|m: CodeChangeMetric| m.model())
}

/// A day's edits of one project in one repository.
#[verifier::ext_equal]
pub struct DayKey {
    pub day: int,
    pub project: Option<Seq<char>>,
    pub repository: Option<Seq<char>>,
}

/// The order of optional texts: a missing one is first.
pub open spec fn opt_lt(a: Option<Seq<char>>, b: Option<Seq<char>>) -> bool {
    match (a, b) {
        (_, None) => false,
        (None, Some(_)) => true,
        (Some(x), Some(y)) => text_lt(x, y),
    }
}

pub open spec fn day_key_lt(a: DayKey, b: DayKey) -> bool {
    if a.day != b.day {
        a.day < b.day
    } else if a.project != b.project {
        opt_lt(a.project, b.project)
    } else {
        opt_lt(a.repository, b.repository)
    }
}

/// The inputs of a refresh, and the values that all its metrics share.
pub struct MetricInputs {
    pub device: Seq<char>,
    pub traces: Seq<TraceEdit>,
    pub scans: Seq<GitScan>,
    pub matches: Seq<CodeChangeMatch>,
    pub ids: Seq<CommittedMetricId>,
    pub known: Seq<ResolvedPath>,
    pub last_day: int,
    pub trace_coverage: CoverageStatus,
    pub git_coverage: CoverageStatus,
}

/// The coverage of the first `n` scans together.
pub open spec fn coverage_upto(scans: Seq<GitScan>, n: int) -> CoverageStatus
    decreases n,
{
    if n <= 0 {
        CoverageStatus::Unavailable
    } else if n == 1 {
        scans[0].coverage
    } else {
        coverage_upto(scans, n - 1).combine_spec(scans[n - 1].coverage)
    }
}

/// The coverage of all scans together; without a scan nothing is covered.
pub open spec fn scans_coverage(scans: Seq<GitScan>) -> CoverageStatus {
    coverage_upto(scans, scans.len() as int)
}

/// Whether an edit's day lies too far ahead to be published.
pub open spec fn skewed(trace: TraceEdit, last_day: int) -> bool {
    trace.occurred_at matches Some(t) && t.day_spec() > last_day
}

pub open spec fn any_skewed(traces: Seq<TraceEdit>, last_day: int) -> bool {
    exists|i: int| 0 <= i < traces.len() && skewed(#[trigger] traces[i], last_day)
}

/// The coverage that the edits have, less where an edit was left out.
pub open spec fn effective_coverage(
    traces: Seq<TraceEdit>,
    last_day: int,
    given: CoverageStatus,
) -> CoverageStatus {
    if any_skewed(traces, last_day) {
        given.combine_spec(CoverageStatus::Partial)
    } else {
        given
    }
}

/// The day, project and repository that an edit is published under.
pub open spec fn day_key_of(
    trace: TraceEdit,
    scans: Seq<GitScan>,
    known: Seq<ResolvedPath>,
    last_day: int,
) -> Option<DayKey> {
    match trace.occurred_at {
        Some(t) => if t.day_spec() > last_day {
            None
        } else {
            Some(
                DayKey {
                    day: t.day_spec(),
                    project: opt_text(trace.project_id),
                    repository: owner_hash(trace, scans, known),
                },
            )
        },
        None => None,
    }
}

/// The lines of the edits published under a key, among the first `n`.
pub open spec fn counts_under(
    key: DayKey,
    traces: Seq<TraceEdit>,
    scans: Seq<GitScan>,
    known: Seq<ResolvedPath>,
    last_day: int,
    n: int,
) -> CodeLineCounts
    decreases n,
{
    if n <= 0 {
        CodeLineCounts::zero()
    } else {
        let before = counts_under(key, traces, scans, known, last_day, n - 1);
        if day_key_of(traces[n - 1], scans, known, last_day) == Some(key) {
            before.plus(traces[n - 1].counts)
        } else {
            before
        }
    }
}

/// Whether an edit among the first `n` is published under the key.
pub open spec fn key_occurs(
    key: DayKey,
    traces: Seq<TraceEdit>,
    scans: Seq<GitScan>,
    known: Seq<ResolvedPath>,
    last_day: int,
    n: int,
) -> bool {
    exists|i: int|
        0 <= i < n && day_key_of(#[trigger] traces[i], scans, known, last_day) == Some(key)
}

/// Whether `groups` are the published edits of the first `n`, one entry for each
/// key, in the order of the keys.
pub open spec fn are_groups(
    groups: Seq<(DayKey, CodeLineCounts)>,
    traces: Seq<TraceEdit>,
    scans: Seq<GitScan>,
    known: Seq<ResolvedPath>,
    last_day: int,
    n: int,
) -> bool {
    &&& forall|i: int, j: int|
        0 <= i < j < groups.len() ==> day_key_lt((#[trigger] groups[i]).0, (#[trigger] groups[j]).0)
    &&& forall|i: int|
        0 <= i < groups.len() ==> key_occurs(
            (#[trigger] groups[i]).0,
            traces,
            scans,
            known,
            last_day,
            n,
        ) && groups[i].1 == counts_under(groups[i].0, traces, scans, known, last_day, n)
    &&& forall|key: DayKey|
        #[trigger] key_occurs(key, traces, scans, known, last_day, n) ==> exists|i: int|
            0 <= i < groups.len() && (#[trigger] groups[i]).0 == key
}

pub open spec fn text_or_empty(o: Option<Seq<char>>) -> Seq<char> {
    match o {
        Some(s) => s,
        None => Seq::empty(),
    }
}

/// What tells the edits of a day, project and repository apart.
pub open spec fn agent_edit_parts(device: Seq<char>, key: DayKey) -> Seq<Seq<char>> {
    seq![
        "agent-edit-day.v1"@,
        device,
        day_text(key.day),
        text_or_empty(key.project),
        text_or_empty(key.repository),
    ]
}

/// The identifier of a day's edits: a hash, so that it shows neither project nor
/// repository.
pub open spec fn agent_edit_id(device: Seq<char>, key: DayKey) -> Seq<char> {
    hash_of(joined(agent_edit_parts(device, key), seq!['\u{1e}']))
}

/// Whether none of the key's texts holds the character that separates them.
pub open spec fn unseparated(device: Seq<char>, key: DayKey) -> bool {
    &&& !device.contains('\u{1e}')
    &&& !text_or_empty(key.project).contains('\u{1e}')
    &&& !text_or_empty(key.repository).contains('\u{1e}')
}

proof fn lemma_padded_plain(n: nat, width: nat)
    ensures
        !zero_padded(n, width).contains('\u{1e}'),
{
    lemma_decimal(n);
    let z = zero_padded(n, width);
    let d = decimal(n);
    assert forall|k: int| 0 <= k < z.len() implies z[k] != '\u{1e}' by {
        if z.len() > d.len() && k < z.len() - d.len() {
            assert(z[k] == '0');
        } else {
            let m = if z.len() > d.len() { k - (z.len() - d.len()) } else { k };
            assert(z[k] == d[m]);
            assert(digit_ascii(d[m]));
        }
    }
}

proof fn lemma_day_plain(day: int)
    ensures
        !day_text(day).contains('\u{1e}'),
{
    let c = civil(day);
    let y = year_text(c.0);
    let m = zero_padded(c.1 as nat, 2);
    let d = zero_padded(c.2 as nat, 2);
    lemma_padded_plain(c.0 as nat, 4);
    lemma_padded_plain((-c.0) as nat, 4);
    lemma_padded_plain(c.1 as nat, 2);
    lemma_padded_plain(c.2 as nat, 2);
    let t = day_text(day);
    assert forall|k: int| 0 <= k < t.len() implies t[k] != '\u{1e}' by {
        if k < y.len() {
            assert(t[k] == y[k]);
            if 0 <= c.0 <= 9999 {
                assert(y.contains(y[k]));
            } else if k > 0 {
                let z = if c.0 < 0 {
                    zero_padded((-c.0) as nat, 4)
                } else {
                    zero_padded(c.0 as nat, 4)
                };
                assert(y[k] == z[k - 1]);
                assert(z.contains(z[k - 1]));
            }
        } else if k == y.len() {
        } else if k < y.len() + 1 + m.len() {
            assert(t[k] == m[k - y.len() - 1]);
            assert(m.contains(m[k - y.len() - 1]));
        } else if k > y.len() + 1 + m.len() {
            let x = k - y.len() - m.len() - 2;
            assert(t[k] == d[x]);
            assert(d.contains(d[x]));
        }
    }
}

/// What is hashed for a day's edits differs wherever the device, the day as
/// written, the project or the repository does: a value cannot be taken for
/// another split of the same text.
pub proof fn agent_edit_keys_do_not_collide(a: Seq<char>, ka: DayKey, b: Seq<char>, kb: DayKey)
    requires
        unseparated(a, ka),
        unseparated(b, kb),
        joined(agent_edit_parts(a, ka), seq!['\u{1e}']) == joined(
            agent_edit_parts(b, kb),
            seq!['\u{1e}'],
        ),
    ensures
        a == b,
        day_text(ka.day) == day_text(kb.day),
        text_or_empty(ka.project) == text_or_empty(kb.project),
        text_or_empty(ka.repository) == text_or_empty(kb.repository),
{
    reveal_strlit("agent-edit-day.v1");
    lemma_day_plain(ka.day);
    lemma_day_plain(kb.day);
    let p = agent_edit_parts(a, ka);
    let q = agent_edit_parts(b, kb);
    splitting_undoes_joining(p, '\u{1e}');
    splitting_undoes_joining(q, '\u{1e}');
    assert(p[1] == q[1] && p[2] == q[2] && p[3] == q[3] && p[4] == q[4]);
}

pub open spec fn agent_metric(x: MetricInputs, group: (DayKey, CodeLineCounts)) -> MetricModel {
    MetricModel {
        schema_version: CODE_CHANGE_METRIC_SCHEMA_VERSION@,
        metric_id: agent_edit_id(x.device, group.0),
        device_id: x.device,
        day: group.0.day,
        project_id: group.0.project,
        repository_hash: group.0.repository,
        commit_hash: None,
        kind: CodeChangeMetricKind::AgentEdit,
        counts: group.1,
        confidence: None,
        trace_coverage: x.trace_coverage,
        git_coverage: x.git_coverage,
    }
}

pub open spec fn agent_metrics(x: MetricInputs, groups: Seq<(DayKey, CodeLineCounts)>) -> Seq<
    MetricModel,
> {
    groups.map_values(|g: (DayKey, CodeLineCounts)| agent_metric(x, g))
}

/// The identifier persisted for a commit.
pub open spec fn persisted_id(ids: Seq<CommittedMetricId>, dedup: Seq<char>) -> Option<Seq<char>>
    decreases ids.len(),
{
    if ids.len() == 0 {
        None
    } else if ids[0].deduplication_id@ == dedup {
        Some(ids[0].metric_id@)
    } else {
        persisted_id(ids.skip(1), dedup)
    }
}

/// The lines of the first `n` files together.
pub open spec fn files_counts(files: Seq<GitFileChange>, n: int) -> CodeLineCounts
    decreases n,
{
    if n <= 0 {
        CodeLineCounts::zero()
    } else {
        files_counts(files, n - 1).plus(files[n - 1].counts)
    }
}

pub open spec fn committed_metric(x: MetricInputs, c: GitCommitChange) -> MetricModel {
    MetricModel {
        schema_version: CODE_CHANGE_METRIC_SCHEMA_VERSION@,
        metric_id: persisted_id(x.ids, c.deduplication_id@)->0,
        device_id: x.device,
        day: c.committed_at.day_spec(),
        project_id: opt_text(c.project_id),
        repository_hash: Some(c.repository_hash@),
        commit_hash: Some(c.commit_hash@),
        kind: CodeChangeMetricKind::Committed,
        counts: files_counts(c.files@, c.files@.len() as int),
        confidence: None,
        trace_coverage: x.trace_coverage,
        git_coverage: x.git_coverage,
    }
}

/// The metrics of the first `n` commits.
pub open spec fn commits_metrics(x: MetricInputs, commits: Seq<GitCommitChange>, n: int) -> Seq<
    MetricModel,
> {
    Seq::new(n as nat, |i: int| committed_metric(x, commits[i]))
}

/// The metrics of all commits of the first `n` scans.
pub open spec fn scans_metrics(x: MetricInputs, n: int) -> Seq<MetricModel>
    decreases n,
{
    if n <= 0 {
        Seq::empty()
    } else {
        scans_metrics(x, n - 1) + commits_metrics(
            x,
            x.scans[n - 1].commits@,
            x.scans[n - 1].commits@.len() as int,
        )
    }
}

/// Whether every commit has an identifier for its metric.
pub open spec fn all_persisted(scans: Seq<GitScan>, ids: Seq<CommittedMetricId>) -> bool {
    forall|i: int, j: int|
        0 <= i < scans.len() && 0 <= j < scans[i].commits@.len() ==> persisted_id(
            ids,
            (#[trigger] scans[i].commits@[j]).deduplication_id@,
        ) is Some
}

/// The project of the last edit with this identifier among the first `n`.
pub open spec fn project_of_edit(traces: Seq<TraceEdit>, id: Seq<char>, n: int) -> Option<Seq<char>>
    decreases n,
{
    if n <= 0 {
        None
    } else if traces[n - 1].trace_edit_id@ == id {
        opt_text(traces[n - 1].project_id)
    } else {
        project_of_edit(traces, id, n - 1)
    }
}

pub open spec fn matched_metric(x: MetricInputs, m: CodeChangeMatch) -> MetricModel {
    MetricModel {
        schema_version: CODE_CHANGE_METRIC_SCHEMA_VERSION@,
        metric_id: m.match_id@,
        device_id: x.device,
        day: m.committed_at.day_spec(),
        project_id: project_of_edit(x.traces, m.trace_edit_id@, x.traces.len() as int),
        repository_hash: Some(m.repository_hash@),
        commit_hash: Some(m.commit_hash@),
        kind: CodeChangeMetricKind::TraceMatchedCommitted,
        counts: m.counts,
        confidence: Some(m.confidence),
        trace_coverage: x.trace_coverage,
        git_coverage: x.git_coverage,
    }
}

/// The metrics of the first `n` matches, without those too far ahead.
pub open spec fn matched_metrics(x: MetricInputs, n: int) -> Seq<MetricModel>
    decreases n,
{
    if n <= 0 {
        Seq::empty()
    } else {
        let before = matched_metrics(x, n - 1);
        if x.matches[n - 1].committed_at.day_spec() > x.last_day {
            before
        } else {
            before.push(matched_metric(x, x.matches[n - 1]))
        }
    }
}

/// All metrics before they are put in order.
pub open spec fn collected(x: MetricInputs, groups: Seq<(DayKey, CodeLineCounts)>) -> Seq<MetricModel> {
    agent_metrics(x, groups) + scans_metrics(x, x.scans.len() as int) + matched_metrics(
        x,
        x.matches.len() as int,
    )
}

pub open spec fn id_occurs(all: Seq<MetricModel>, id: Seq<char>) -> bool {
    exists|i: int| 0 <= i < all.len() && (#[trigger] all[i]).metric_id == id
}

/// Whether `all[i]` is the first metric with its identifier.
pub open spec fn first_with_id(all: Seq<MetricModel>, i: int) -> bool {
    &&& 0 <= i < all.len()
    &&& forall|k: int| 0 <= k < i ==> (#[trigger] all[k]).metric_id != all[i].metric_id
}

/// Whether `m` is the first of all metrics with its identifier.
pub open spec fn is_first(all: Seq<MetricModel>, m: MetricModel) -> bool {
    exists|k: int| #[trigger] first_with_id(all, k) && all[k] == m
}

/// Whether `out` holds, of all metrics, the first with each identifier, in the
/// order of the identifiers.
pub open spec fn published(out: Seq<MetricModel>, all: Seq<MetricModel>) -> bool {
    &&& forall|i: int, j: int|
        0 <= i < j < out.len() ==> text_lt(
            (#[trigger] out[i]).metric_id,
            (#[trigger] out[j]).metric_id,
        )
    &&& forall|i: int| 0 <= i < out.len() ==> is_first(all, #[trigger] out[i])
    &&& forall|k: int| 0 <= k < all.len() ==> id_occurs(out, (#[trigger] all[k]).metric_id)
}

pub open spec fn build_inputs(
    device: Seq<char>,
    traces: Seq<TraceEdit>,
    scans: Seq<GitScan>,
    matches: Seq<CodeChangeMatch>,
    ids: Seq<CommittedMetricId>,
    known: Seq<ResolvedPath>,
    last_day: int,
    coverage: CoverageStatus,
) -> MetricInputs {
    MetricInputs {
        device,
        traces,
        scans,
        matches,
        ids,
        known,
        last_day,
        trace_coverage: effective_coverage(traces, last_day, coverage),
        git_coverage: scans_coverage(scans),
    }
}

// ---------------------------------------------------------------------------
// Grouping edits
// ---------------------------------------------------------------------------

struct DayGroup {
    day: i64,
    project: Option<String>,
    repository: Option<String>,
    counts: CodeLineCounts,
}

impl DayGroup {
    spec fn model(self) -> (DayKey, CodeLineCounts) {
        (
            DayKey {
                day: self.day as int,
                project: opt_text(self.project),
                repository: opt_text(self.repository),
            },
            self.counts,
        )
    }
}

spec fn group_models(v: Seq<DayGroup>) -> Seq<(DayKey, CodeLineCounts)> {
    v.map_values(|g: DayGroup| g.model())
}

pub proof fn lemma_opt_lt(a: Option<Seq<char>>, b: Option<Seq<char>>, c: Option<Seq<char>>)
    ensures
        !opt_lt(a, a),
        opt_lt(a, b) && opt_lt(b, c) ==> opt_lt(a, c),
        opt_lt(a, b) || a == b || opt_lt(b, a),
{
    match (a, b) {
        (Some(x), Some(y)) => {
            lemma_text_lt_irreflexive(x);
            lemma_text_lt_total(x, y);
            if let Some(z) = c {
                if text_lt(x, y) && text_lt(y, z) {
                    lemma_text_lt_transitive(x, y, z);
                }
            }
        },
        (Some(x), None) => {
            lemma_text_lt_irreflexive(x);
        },
        _ => {},
    }
}

pub proof fn lemma_day_key_lt(a: DayKey, b: DayKey, c: DayKey)
    ensures
        !day_key_lt(a, a),
        day_key_lt(a, b) && day_key_lt(b, c) ==> day_key_lt(a, c),
        day_key_lt(a, b) || a == b || day_key_lt(b, a),
{
    lemma_opt_lt(a.project, b.project, c.project);
    lemma_opt_lt(a.repository, b.repository, c.repository);
    lemma_opt_lt(c.project, a.project, b.project);
    lemma_opt_lt(a.repository, a.repository, a.repository);
    lemma_opt_lt(b.project, c.project, a.project);
    if !day_key_lt(a, b) && !day_key_lt(b, a) {
        assert(a.day == b.day && a.project == b.project && a.repository == b.repository);
    }
}

fn less_opt(a: &Option<String>, b: &Option<String>) -> (r: bool)
    ensures
        r == opt_lt(opt_text(*a), opt_text(*b)),
{
    match (a, b) {
        (_, None) => false,
        (None, Some(_)) => true,
        (Some(x), Some(y)) => less_text(x.as_str(), y.as_str()),
    }
}

fn less_group(a: &DayGroup, day: i64, project: &Option<String>, repository: &Option<String>) -> (r:
    bool)
    ensures
        r == day_key_lt(
            a.model().0,
            DayKey {
                day: day as int,
                project: opt_text(*project),
                repository: opt_text(*repository),
            },
        ),
{
    if a.day != day {
        a.day < day
    } else if !same_opt(&a.project, project) {
        less_opt(&a.project, project)
    } else {
        less_opt(&a.repository, repository)
    }
}

proof fn lemma_counts_other_key(
    key: DayKey,
    traces: Seq<TraceEdit>,
    scans: Seq<GitScan>,
    known: Seq<ResolvedPath>,
    last_day: int,
    n: int,
)
    requires
        !key_occurs(key, traces, scans, known, last_day, n),
    ensures
        counts_under(key, traces, scans, known, last_day, n) == CodeLineCounts::zero(),
    decreases n,
{
    if n > 0 {
        assert(day_key_of(traces[n - 1], scans, known, last_day) != Some(key));
        assert(!key_occurs(key, traces, scans, known, last_day, n - 1));
        lemma_counts_other_key(key, traces, scans, known, last_day, n - 1);
    }
}

/// One more edit without a key changes no group.
proof fn lemma_groups_skip(
    groups: Seq<(DayKey, CodeLineCounts)>,
    traces: Seq<TraceEdit>,
    scans: Seq<GitScan>,
    known: Seq<ResolvedPath>,
    last_day: int,
    n: int,
)
    requires
        0 <= n < traces.len(),
        are_groups(groups, traces, scans, known, last_day, n),
        day_key_of(traces[n], scans, known, last_day) is None,
    ensures
        are_groups(groups, traces, scans, known, last_day, n + 1),
{
    assert forall|key: DayKey|
        key_occurs(key, traces, scans, known, last_day, n + 1) == #[trigger] key_occurs(
            key,
            traces,
            scans,
            known,
            last_day,
            n,
        ) by {
        if key_occurs(key, traces, scans, known, last_day, n + 1) {
            let i = choose|i: int|
                0 <= i < n + 1 && day_key_of(#[trigger] traces[i], scans, known, last_day) == Some(
                    key,
                );
            assert(i < n);
        }
    }
    assert forall|i: int| 0 <= i < groups.len() implies key_occurs(
        (#[trigger] groups[i]).0,
        traces,
        scans,
        known,
        last_day,
        n + 1,
    ) && groups[i].1 == counts_under(groups[i].0, traces, scans, known, last_day, n + 1) by {
        assert(key_occurs(groups[i].0, traces, scans, known, last_day, n));
    }
    assert forall|key: DayKey| #[trigger]
        key_occurs(key, traces, scans, known, last_day, n + 1) implies exists|i: int|
        0 <= i < groups.len() && (#[trigger] groups[i]).0 == key by {
        assert(key_occurs(key, traces, scans, known, last_day, n));
    }
}

/// One more edit under a key that is there changes that group alone.
proof fn lemma_groups_add(
    groups: Seq<(DayKey, CodeLineCounts)>,
    traces: Seq<TraceEdit>,
    scans: Seq<GitScan>,
    known: Seq<ResolvedPath>,
    last_day: int,
    n: int,
    p: int,
)
    requires
        0 <= n < traces.len(),
        are_groups(groups, traces, scans, known, last_day, n),
        0 <= p < groups.len(),
        day_key_of(traces[n], scans, known, last_day) == Some(groups[p].0),
    ensures
        are_groups(
            groups.update(p, (groups[p].0, groups[p].1.plus(traces[n].counts))),
            traces,
            scans,
            known,
            last_day,
            n + 1,
        ),
{
    let w = groups.update(p, (groups[p].0, groups[p].1.plus(traces[n].counts)));
    assert forall|i: int| 0 <= i < w.len() implies key_occurs(
        (#[trigger] w[i]).0,
        traces,
        scans,
        known,
        last_day,
        n + 1,
    ) && w[i].1 == counts_under(w[i].0, traces, scans, known, last_day, n + 1) by {
        assert(w[i].0 == groups[i].0);
        assert(key_occurs(groups[i].0, traces, scans, known, last_day, n));
        let k = choose|k: int|
            0 <= k < n && day_key_of(#[trigger] traces[k], scans, known, last_day) == Some(
                groups[i].0,
            );
        assert(day_key_of(traces[k], scans, known, last_day) == Some(w[i].0));
        if i != p {
            lemma_day_key_lt(groups[i].0, groups[p].0, groups[p].0);
            if i < p {
                assert(day_key_lt(groups[i].0, groups[p].0));
            } else {
                assert(day_key_lt(groups[p].0, groups[i].0));
            }
        }
    }
    assert forall|key: DayKey| #[trigger]
        key_occurs(key, traces, scans, known, last_day, n + 1) implies exists|i: int|
        0 <= i < w.len() && (#[trigger] w[i]).0 == key by {
        let k = choose|k: int|
            0 <= k < n + 1 && day_key_of(#[trigger] traces[k], scans, known, last_day) == Some(key);
        if k < n {
            assert(key_occurs(key, traces, scans, known, last_day, n));
            let i = choose|i: int| 0 <= i < groups.len() && (#[trigger] groups[i]).0 == key;
            assert(w[i].0 == key);
        } else {
            assert(w[p].0 == key);
        }
    }
    assert forall|i: int, j: int| 0 <= i < j < w.len() implies day_key_lt(
        (#[trigger] w[i]).0,
        (#[trigger] w[j]).0,
    ) by {
        assert(day_key_lt(groups[i].0, groups[j].0));
    }
}

/// One more edit under a new key makes a new group at its place.
proof fn lemma_groups_insert(
    groups: Seq<(DayKey, CodeLineCounts)>,
    traces: Seq<TraceEdit>,
    scans: Seq<GitScan>,
    known: Seq<ResolvedPath>,
    last_day: int,
    n: int,
    p: int,
    key: DayKey,
)
    requires
        0 <= n < traces.len(),
        are_groups(groups, traces, scans, known, last_day, n),
        0 <= p <= groups.len(),
        day_key_of(traces[n], scans, known, last_day) == Some(key),
        forall|i: int| 0 <= i < p ==> day_key_lt((#[trigger] groups[i]).0, key),
        p < groups.len() ==> day_key_lt(key, groups[p].0),
    ensures
        are_groups(
            groups.insert(p, (key, CodeLineCounts::zero().plus(traces[n].counts))),
            traces,
            scans,
            known,
            last_day,
            n + 1,
        ),
{
    let fresh = (key, CodeLineCounts::zero().plus(traces[n].counts));
    let w = groups.insert(p, fresh);
    assert forall|i: int| p <= i < groups.len() implies day_key_lt(key, (#[trigger] groups[i]).0) by {
        if i > p {
            assert(day_key_lt(groups[p].0, groups[i].0));
            lemma_day_key_lt(key, groups[p].0, groups[i].0);
        }
    }
    lemma_day_key_lt(key, key, key);
    assert(!key_occurs(key, traces, scans, known, last_day, n)) by {
        if key_occurs(key, traces, scans, known, last_day, n) {
            let i = choose|i: int| 0 <= i < groups.len() && (#[trigger] groups[i]).0 == key;
            assert(i < p || p <= i);
        }
    }
    lemma_counts_other_key(key, traces, scans, known, last_day, n);
    assert forall|i: int| 0 <= i < w.len() implies key_occurs(
        (#[trigger] w[i]).0,
        traces,
        scans,
        known,
        last_day,
        n + 1,
    ) && w[i].1 == counts_under(w[i].0, traces, scans, known, last_day, n + 1) by {
        if i == p {
            assert(day_key_of(traces[n], scans, known, last_day) == Some(w[i].0));
        } else {
            let a = if i < p { i } else { i - 1 };
            assert(w[i] == groups[a]);
            assert(key_occurs(groups[a].0, traces, scans, known, last_day, n));
            let k = choose|k: int|
                0 <= k < n && day_key_of(#[trigger] traces[k], scans, known, last_day) == Some(
                    groups[a].0,
                );
            assert(day_key_of(traces[k], scans, known, last_day) == Some(w[i].0));
        }
    }
    assert forall|other: DayKey| #[trigger]
        key_occurs(other, traces, scans, known, last_day, n + 1) implies exists|i: int|
        0 <= i < w.len() && (#[trigger] w[i]).0 == other by {
        let k = choose|k: int|
            0 <= k < n + 1 && day_key_of(#[trigger] traces[k], scans, known, last_day) == Some(
                other,
            );
        if k < n {
            assert(key_occurs(other, traces, scans, known, last_day, n));
            let i = choose|i: int| 0 <= i < groups.len() && (#[trigger] groups[i]).0 == other;
            let a = if i < p { i } else { i + 1 };
            assert(w[a] == groups[i]);
        } else {
            assert(w[p].0 == other);
        }
    }
    assert forall|i: int, j: int| 0 <= i < j < w.len() implies day_key_lt(
        (#[trigger] w[i]).0,
        (#[trigger] w[j]).0,
    ) by {
        if i != p && j != p {
            let a = if i < p { i } else { i - 1 };
            let b = if j < p { j } else { j - 1 };
            assert(w[i] == groups[a] && w[j] == groups[b]);
        } else if i == p {
            assert(w[j] == groups[j - 1]);
        } else {
            assert(w[i] == groups[i]);
        }
    }
}

#[verifier::rlimit(50)]
#[verifier::spinoff_prover]
fn group_edits(
    traces: &[TraceEdit],
    scans: &[GitScan],
    known: &[ResolvedPath],
    last_day: i64,
) -> (r: (Vec<DayGroup>, bool))
    requires
        traces_wf(traces@),
    ensures
        are_groups(
            group_models(r.0@),
            traces@,
            scans@,
            known@,
            last_day as int,
            traces@.len() as int,
        ),
        r.1 == any_skewed(traces@, last_day as int),
        forall|i: int| 0 <= i < r.0@.len() ==> MIN_DAY <= (#[trigger] r.0@[i]).day <= MAX_DAY,
{
    let scan_roots = canonical_scan_roots(scans, known);
    let mut groups: Vec<DayGroup> = Vec::new();
    let mut skipped = false;
    let mut n: usize = 0;
    let ghost last = last_day as int;
    proof {
        assert(group_models(groups@) =~= Seq::empty());
    }
    while n < traces.len()
        invariant
            last == last_day as int,
            traces_wf(traces@),
            scan_roots@.len() == scans@.len(),
            forall|i: int|
                0 <= i < scan_roots@.len() ==> (#[trigger] scan_roots@[i])@ == canonical_spec(
                    known@,
                    scans@[i].repository_root@,
                ),
            n <= traces.len(),
            are_groups(group_models(groups@), traces@, scans@, known@, last, n as int),
            skipped == exists|i: int| 0 <= i < n && skewed(#[trigger] traces@[i], last),
            forall|i: int| 0 <= i < groups@.len() ==> MIN_DAY <= (#[trigger] groups@[i]).day
                <= MAX_DAY,
        decreases traces.len() - n,
    {
        let edit = &traces[n];
        let ghost before = group_models(groups@);
        let ghost skipped_before = skipped;
        proof {
            assert(edit.occurred_at matches Some(t) ==> t.wf());
        }
        match edit.occurred_at {
            Some(t) => {
                let day: i64 = t.day();
                if day > last_day {
                    skipped = true;
                    proof {
                        lemma_groups_skip(before, traces@, scans@, known@, last, n as int);
                        assert(skewed(traces@[n as int], last));
                    }
                } else {
                    let repository = repository_hash_for_trace(edit, scans, &scan_roots, known);
                    let project = copy_opt(&edit.project_id);
                    let ghost key = DayKey {
                        day: day as int,
                        project: opt_text(project),
                        repository: opt_text(repository),
                    };
                    proof {
                        assert(day_key_of(*edit, scans@, known@, last) == Some(key));
                    }
                    let mut p: usize = 0;
                    while p < groups.len() && less_group(&groups[p], day, &project, &repository)
                        invariant
                            before == group_models(groups@),
                            key == (DayKey {
                                day: day as int,
                                project: opt_text(project),
                                repository: opt_text(repository),
                            }),
                            p <= groups.len(),
                            forall|i: int|
                                0 <= i < p ==> day_key_lt((#[trigger] before[i]).0, key),
                        decreases groups.len() - p,
                    {
                        proof {
                            assert(before[p as int] == groups@[p as int].model());
                        }
                        p = p + 1;
                    }
                    let there = p < groups.len() && groups[p].day == day && same_opt(
                        &groups[p].project,
                        &project,
                    ) && same_opt(&groups[p].repository, &repository);
                    if there {
                        proof {
                            assert(before[p as int].0 == key);
                            lemma_groups_add(
                                before,
                                traces@,
                                scans@,
                                known@,
                                last,
                                n as int,
                                p as int,
                            );
                        }
                        let ghost was = groups@;
                        groups[p].counts.add(edit.counts);
                        proof {
                            assert(group_models(groups@) =~= before.update(
                                p as int,
                                (before[p as int].0, before[p as int].1.plus(edit.counts)),
                            ));
                            assert forall|i: int| 0 <= i < groups@.len() implies MIN_DAY <= (
                            #[trigger] groups@[i]).day <= MAX_DAY by {
                                assert(was[i].day == groups@[i].day);
                            }
                        }
                    } else {
                        proof {
                            if p < groups@.len() {
                                assert(before[p as int] == groups@[p as int].model());
                                lemma_day_key_lt(before[p as int].0, key, key);
                            }
                            lemma_groups_insert(
                                before,
                                traces@,
                                scans@,
                                known@,
                                last,
                                n as int,
                                p as int,
                                key,
                            );
                        }
                        let mut counts = CodeLineCounts::default();
                        counts.add(edit.counts);
                        let ghost was = groups@;
                        groups.insert(p, DayGroup { day, project, repository, counts });
                        proof {
                            assert(group_models(groups@) =~= before.insert(p as int, (key, counts)));
                            assert forall|i: int| 0 <= i < groups@.len() implies MIN_DAY <= (
                            #[trigger] groups@[i]).day <= MAX_DAY by {
                                if i < p {
                                    assert(groups@[i] == was[i]);
                                } else if i > p {
                                    assert(groups@[i] == was[i - 1]);
                                }
                            }
                        }
                    }
                }
            },
            None => {
                proof {
                    lemma_groups_skip(before, traces@, scans@, known@, last, n as int);
                }
            },
        }
        proof {
            if skipped_before {
                let i = choose|i: int| 0 <= i < n && skewed(#[trigger] traces@[i], last);
                assert(skewed(traces@[i], last));
            }
        }
        n = n + 1;
    }
    (groups, skipped)
}

// ---------------------------------------------------------------------------
// Building
// ---------------------------------------------------------------------------

pub fn agent_edit_metric_id(
    device_id: &str,
    day: i64,
    project_id: &Option<String>,
    repository_hash: &Option<String>,
) -> (r: String)
    requires
        MIN_DAY <= day <= MAX_DAY,
    ensures
        r@ == agent_edit_id(
            device_id@,
            DayKey {
                day: day as int,
                project: opt_text(*project_id),
                repository: opt_text(*repository_hash),
            },
        ),
        r@.len() == 64,
{
    let mut parts: Vec<String> = Vec::new();
    parts.push("agent-edit-day.v1".to_owned());
    parts.push(device_id.to_owned());
    parts.push(format_day(day));
    parts.push(
        match project_id {
            Some(p) => p.clone(),
            None => String::new(),
        },
    );
    parts.push(
        match repository_hash {
            Some(p) => p.clone(),
            None => String::new(),
        },
    );
    proof {
        reveal_strlit("\u{1e}");
        assert("\u{1e}"@ =~= seq!['\u{1e}']);
        assert(texts(parts@) =~= seq![
            "agent-edit-day.v1"@,
            device_id@,
            day_text(day as int),
            text_or_empty(opt_text(*project_id)),
            text_or_empty(opt_text(*repository_hash)),
        ]);
    }
    let key = join(&parts, "\u{1e}");
    hash_text(key.as_str())
}

fn scan_coverage(scans: &[GitScan]) -> (r: CoverageStatus)
    ensures
        r == scans_coverage(scans@),
{
    if scans.len() == 0 {
        return CoverageStatus::Unavailable;
    }
    let mut coverage = scans[0].coverage;
    let mut i: usize = 1;
    while i < scans.len()
        invariant
            1 <= i <= scans.len(),
            coverage == coverage_upto(scans@, i as int),
        decreases scans.len() - i,
    {
        coverage = coverage.combine(scans[i].coverage);
        i = i + 1;
    }
    coverage
}

fn find_persisted(ids: &[CommittedMetricId], dedup: &str) -> (r: Option<String>)
    ensures
        opt_text(r) == persisted_id(ids@, dedup@),
{
    let mut i: usize = 0;
    proof {
        assert(ids@.skip(0) =~= ids@);
    }
    while i < ids.len()
        invariant
            i <= ids.len(),
            persisted_id(ids@, dedup@) == persisted_id(ids@.skip(i as int), dedup@),
        decreases ids.len() - i,
    {
        if same_text(ids[i].deduplication_id.as_str(), dedup) {
            return Some(ids[i].metric_id.clone());
        }
        proof {
            assert(ids@.skip(i as int).skip(1) =~= ids@.skip(i + 1));
        }
        i = i + 1;
    }
    None
}

fn commit_counts(files: &[GitFileChange]) -> (r: CodeLineCounts)
    ensures
        r == files_counts(files@, files@.len() as int),
{
    let mut counts = CodeLineCounts::default();
    let mut i: usize = 0;
    while i < files.len()
        invariant
            i <= files.len(),
            counts == files_counts(files@, i as int),
        decreases files.len() - i,
    {
        counts.add(files[i].counts);
        i = i + 1;
    }
    counts
}

fn find_project(traces: &[TraceEdit], id: &str) -> (r: Option<String>)
    ensures
        opt_text(r) == project_of_edit(traces@, id@, traces@.len() as int),
{
    let mut n: usize = traces.len();
    while n > 0
        invariant
            n <= traces.len(),
            project_of_edit(traces@, id@, traces@.len() as int) == project_of_edit(
                traces@,
                id@,
                n as int,
            ),
        decreases n,
    {
        if same_text(traces[n - 1].trace_edit_id.as_str(), id) {
            return copy_opt(&traces[n - 1].project_id);
        }
        n = n - 1;
    }
    None
}

proof fn lemma_models_push(v: Seq<CodeChangeMetric>, m: CodeChangeMetric)
    ensures
        metric_models(v.push(m)) == metric_models(v).push(m.model()),
{
    assert(metric_models(v.push(m)) =~= metric_models(v).push(m.model()));
}

fn push_agent_metrics(
    out: &mut Vec<CodeChangeMetric>,
    groups: &[DayGroup],
    device_id: &str,
    trace_coverage: CoverageStatus,
    git_coverage: CoverageStatus,
    Ghost(x): Ghost<MetricInputs>,
)
    requires
        x.device == device_id@,
        x.trace_coverage == trace_coverage,
        x.git_coverage == git_coverage,
        forall|i: int| 0 <= i < groups@.len() ==> MIN_DAY <= (#[trigger] groups@[i]).day <= MAX_DAY,
    ensures
        metric_models(final(out)@) == metric_models(old(out)@) + agent_metrics(
            x,
            group_models(groups@),
        ),
{
    let ghost start = metric_models(out@);
    let ghost want = agent_metrics(x, group_models(groups@));
    let mut i: usize = 0;
    proof {
        assert(start + want.take(0) =~= start);
    }
    while i < groups.len()
        invariant
            x.device == device_id@,
            x.trace_coverage == trace_coverage,
            x.git_coverage == git_coverage,
            forall|k: int| 0 <= k < groups@.len() ==> MIN_DAY <= (#[trigger] groups@[k]).day
                <= MAX_DAY,
            want == agent_metrics(x, group_models(groups@)),
            i <= groups.len(),
            metric_models(out@) == start + want.take(i as int),
        decreases groups.len() - i,
    {
        let g = &groups[i];
        let metric = CodeChangeMetric {
            schema_version: CODE_CHANGE_METRIC_SCHEMA_VERSION.to_owned(),
            metric_id: agent_edit_metric_id(device_id, g.day, &g.project, &g.repository),
            device_id: device_id.to_owned(),
            day: g.day,
            project_id: copy_opt(&g.project),
            repository_hash: copy_opt(&g.repository),
            commit_hash: None,
            kind: CodeChangeMetricKind::AgentEdit,
            counts: g.counts,
            attribution_confidence: None,
            trace_coverage,
            git_coverage,
        };
        proof {
            lemma_models_push(out@, metric);
            assert(want[i as int] == metric.model());
            assert(want.take(i + 1) =~= want.take(i as int).push(want[i as int]));
            assert(start + want.take(i + 1) =~= (start + want.take(i as int)).push(
                want[i as int],
            ));
        }
        out.push(metric);
        i = i + 1;
    }
    proof {
        assert(want.take(i as int) =~= want);
    }
}

fn push_committed_metrics(
    out: &mut Vec<CodeChangeMetric>,
    commits: &[GitCommitChange],
    ids: &[CommittedMetricId],
    device_id: &str,
    trace_coverage: CoverageStatus,
    git_coverage: CoverageStatus,
    Ghost(x): Ghost<MetricInputs>,
) -> (r: bool)
    requires
        x.device == device_id@,
        x.ids == ids@,
        x.trace_coverage == trace_coverage,
        x.git_coverage == git_coverage,
        forall|j: int| 0 <= j < commits@.len() ==> commit_times_wf(#[trigger] commits@[j]),
    ensures
        r == forall|j: int|
            0 <= j < commits@.len() ==> persisted_id(
                ids@,
                (#[trigger] commits@[j]).deduplication_id@,
            ) is Some,
        r ==> metric_models(final(out)@) == metric_models(old(out)@) + commits_metrics(
            x,
            commits@,
            commits@.len() as int,
        ),
{
    let ghost start = metric_models(out@);
    let mut i: usize = 0;
    proof {
        assert(start + commits_metrics(x, commits@, 0) =~= start);
    }
    while i < commits.len()
        invariant
            x.device == device_id@,
            x.ids == ids@,
            x.trace_coverage == trace_coverage,
            x.git_coverage == git_coverage,
            forall|j: int| 0 <= j < commits@.len() ==> commit_times_wf(#[trigger] commits@[j]),
            i <= commits.len(),
            forall|j: int|
                0 <= j < i ==> persisted_id(ids@, (#[trigger] commits@[j]).deduplication_id@) is Some,
            metric_models(out@) == start + commits_metrics(x, commits@, i as int),
        decreases commits.len() - i,
    {
        let commit = &commits[i];
        proof {
            assert(commit_times_wf(commits@[i as int]));
        }
        let metric_id = match find_persisted(ids, commit.deduplication_id.as_str()) {
            Some(id) => id,
            None => {
                proof {
                    assert(persisted_id(ids@, commits@[i as int].deduplication_id@) is None);
                }
                return false;
            },
        };
        let metric = CodeChangeMetric {
            schema_version: CODE_CHANGE_METRIC_SCHEMA_VERSION.to_owned(),
            metric_id,
            device_id: device_id.to_owned(),
            day: commit.committed_at.day(),
            project_id: copy_opt(&commit.project_id),
            repository_hash: Some(commit.repository_hash.clone()),
            commit_hash: Some(commit.commit_hash.clone()),
            kind: CodeChangeMetricKind::Committed,
            counts: commit_counts(&commit.files),
            attribution_confidence: None,
            trace_coverage,
            git_coverage,
        };
        proof {
            lemma_models_push(out@, metric);
            assert(committed_metric(x, *commit) == metric.model());
            assert(start + commits_metrics(x, commits@, i + 1) =~= (start + commits_metrics(
                x,
                commits@,
                i as int,
            )).push(metric.model()));
        }
        out.push(metric);
        i = i + 1;
    }
    true
}

fn push_matched_metrics(
    out: &mut Vec<CodeChangeMetric>,
    matches: &[CodeChangeMatch],
    traces: &[TraceEdit],
    last_day: i64,
    device_id: &str,
    trace_coverage: CoverageStatus,
    git_coverage: CoverageStatus,
    Ghost(x): Ghost<MetricInputs>,
)
    requires
        x.device == device_id@,
        x.matches == matches@,
        x.traces == traces@,
        x.last_day == last_day,
        x.trace_coverage == trace_coverage,
        x.git_coverage == git_coverage,
        forall|j: int| 0 <= j < matches@.len() ==> (#[trigger] matches@[j]).committed_at.wf(),
    ensures
        metric_models(final(out)@) == metric_models(old(out)@) + matched_metrics(
            x,
            matches@.len() as int,
        ),
{
    let ghost start = metric_models(out@);
    let mut i: usize = 0;
    proof {
        assert(start + matched_metrics(x, 0) =~= start);
    }
    while i < matches.len()
        invariant
            x.device == device_id@,
            x.matches == matches@,
            x.traces == traces@,
            x.last_day == last_day,
            x.trace_coverage == trace_coverage,
            x.git_coverage == git_coverage,
            forall|j: int| 0 <= j < matches@.len() ==> (#[trigger] matches@[j]).committed_at.wf(),
            i <= matches.len(),
            metric_models(out@) == start + matched_metrics(x, i as int),
        decreases matches.len() - i,
    {
        let m = &matches[i];
        proof {
            assert(matches@[i as int].committed_at.wf());
        }
        let day: i64 = m.committed_at.day();
        if day <= last_day {
            let metric = CodeChangeMetric {
                schema_version: CODE_CHANGE_METRIC_SCHEMA_VERSION.to_owned(),
                metric_id: m.match_id.clone(),
                device_id: device_id.to_owned(),
                day,
                project_id: find_project(traces, m.trace_edit_id.as_str()),
                repository_hash: Some(m.repository_hash.clone()),
                commit_hash: Some(m.commit_hash.clone()),
                kind: CodeChangeMetricKind::TraceMatchedCommitted,
                counts: m.counts,
                attribution_confidence: Some(m.confidence),
                trace_coverage,
                git_coverage,
            };
            proof {
                lemma_models_push(out@, metric);
                assert(matched_metric(x, *m) == metric.model());
                assert(start + matched_metrics(x, i + 1) =~= (start + matched_metrics(
                    x,
                    i as int,
                )).push(metric.model()));
            }
            out.push(metric);
        }
        i = i + 1;
    }
}

impl Keyed for CodeChangeMetric {
    open spec fn key(&self) -> Seq<Seq<char>> {
        seq![self.metric_id@]
    }

    fn key_texts(&self) -> (r: Vec<String>) {
        let mut out: Vec<String> = Vec::new();
        out.push(self.metric_id.clone());
        proof {
            assert(texts(out@) =~= self.key());
        }
        out
    }
}

spec fn is_first_upto(all: Seq<CodeChangeMetric>, n: int, m: CodeChangeMetric) -> bool {
    exists|k: int| 0 <= k < n && #[trigger] first_with_id(metric_models(all), k) && all[k] == m
}

/// What holds while metrics are put in order: `out` holds the first with each
/// identifier among the first `n`.
spec fn ordered_upto(out: Seq<CodeChangeMetric>, all: Seq<CodeChangeMetric>, n: int) -> bool {
    &&& keys_increase(out)
    &&& forall|i: int| 0 <= i < out.len() ==> is_first_upto(all, n, #[trigger] out[i])
    &&& forall|k: int| 0 <= k < n ==> has_key(out, (#[trigger] all[k]).key())
}

proof fn lemma_key_of_id(a: Seq<char>, b: Seq<char>)
    ensures
        (seq![a] == seq![b]) == (a == b),
        key_lt(seq![a], seq![b]) == text_lt(a, b),
{
    reveal_with_fuel(key_lt, 3);
    assert(seq![a][0] == a && seq![b][0] == b);
    if a == b {
        lemma_text_lt_irreflexive(a);
        assert(seq![a].skip(1) =~= Seq::empty());
    }
}

proof fn lemma_ordered_published(out: Seq<CodeChangeMetric>, all: Seq<CodeChangeMetric>)
    requires
        ordered_upto(out, all, all.len() as int),
    ensures
        published(metric_models(out), metric_models(all)),
{
    let o = metric_models(out);
    let a = metric_models(all);
    assert forall|i: int, j: int| 0 <= i < j < o.len() implies text_lt(
        (#[trigger] o[i]).metric_id,
        (#[trigger] o[j]).metric_id,
    ) by {
        assert(key_lt(out[i].key(), out[j].key()));
        lemma_key_of_id(out[i].metric_id@, out[j].metric_id@);
    }
    assert forall|i: int| 0 <= i < o.len() implies is_first(a, #[trigger] o[i]) by {
        assert(is_first_upto(all, all.len() as int, out[i]));
        let k = choose|k: int|
            0 <= k < all.len() && #[trigger] first_with_id(a, k) && all[k] == out[i];
        assert(first_with_id(a, k) && a[k] == o[i]);
    }
    assert forall|k: int| 0 <= k < a.len() implies id_occurs(o, (#[trigger] a[k]).metric_id) by {
        assert(has_key(out, all[k].key()));
        let i = choose|i: int| 0 <= i < out.len() && (#[trigger] out[i]).key() == all[k].key();
        lemma_key_of_id(out[i].metric_id@, all[k].metric_id@);
        assert(o[i].metric_id == a[k].metric_id);
    }
}

fn publish(all: &[CodeChangeMetric]) -> (r: Vec<CodeChangeMetric>)
    ensures
        published(metric_models(r@), metric_models(all@)),
{
    let mut out: Vec<CodeChangeMetric> = Vec::new();
    let mut n: usize = 0;
    while n < all.len()
        invariant
            n <= all.len(),
            ordered_upto(out@, all@, n as int),
        decreases all.len() - n,
    {
        let key = all[n].key_texts();
        let p: usize = key_place(&out, &key);
        let there = key_at(&out, &key, p);
        let ghost was = out@;
        let ghost a = metric_models(all@);
        proof {
            lemma_key_found(out@, texts(key@), p as int);
        }
        if !there {
            proof {
                lemma_insert_keeps_order(out@, all@[n as int], p as int);
                assert(first_with_id(a, n as int)) by {
                    assert forall|k: int| 0 <= k < n implies (#[trigger] a[k]).metric_id
                        != a[n as int].metric_id by {
                        assert(has_key(out@, all@[k].key()));
                        lemma_key_of_id(all@[k].metric_id@, all@[n as int].metric_id@);
                    }
                }
            }
            out.insert(p, all[n].clone());
            proof {
                assert forall|i: int| 0 <= i < out@.len() implies is_first_upto(
                    all@,
                    n + 1,
                    #[trigger] out@[i],
                ) by {
                    if i == p {
                        assert(first_with_id(a, n as int) && all@[n as int] == out@[i]);
                    } else {
                        let b = if i < p { i } else { i - 1 };
                        assert(out@[i] == was[b]);
                        assert(is_first_upto(all@, n as int, was[b]));
                        let k = choose|k: int|
                            0 <= k < n && #[trigger] first_with_id(a, k) && all@[k] == was[b];
                        assert(first_with_id(a, k) && all@[k] == out@[i]);
                    }
                }
            }
        } else {
            proof {
                assert forall|i: int| 0 <= i < out@.len() implies is_first_upto(
                    all@,
                    n + 1,
                    #[trigger] out@[i],
                ) by {
                    assert(is_first_upto(all@, n as int, out@[i]));
                    let k = choose|k: int|
                        0 <= k < n && #[trigger] first_with_id(a, k) && all@[k] == out@[i];
                    assert(first_with_id(a, k) && all@[k] == out@[i]);
                }
            }
        }
        n = n + 1;
    }
    proof {
        lemma_ordered_published(out@, all@);
    }
    out
}

/// Builds the metrics of a refresh at `now`: one for each day, project and
/// repository with agent edits, one for each commit, and one for each matched
/// edit. Edits and matches dated too far ahead are left out; leaving an edit out
/// makes the coverage partial. Fails where a commit has no identifier.
pub fn build_code_change_metrics(
    now: Timestamp,
    device_id: &str,
    trace_edits: &[TraceEdit],
    git_scans: &[GitScan],
    matches: &[CodeChangeMatch],
    committed_metric_ids: &[CommittedMetricId],
    trace_coverage: CoverageStatus,
    known: &[ResolvedPath],
) -> (r: Result<CodeChangeMetricBuild, CodeChangeMetricBuildError>)
    requires
        now.wf(),
        now.secs + MAX_REPORTABLE_FUTURE_DAYS * 86_400 <= MAX_SECONDS,
        traces_wf(trace_edits@),
        scans_wf(git_scans@),
        forall|j: int| 0 <= j < matches@.len() ==> (#[trigger] matches@[j]).committed_at.wf(),
    ensures
        ({
            let x = build_inputs(
                device_id@,
                trace_edits@,
                git_scans@,
                matches@,
                committed_metric_ids@,
                known@,
                now.day_spec() + MAX_REPORTABLE_FUTURE_DAYS,
                trace_coverage,
            );
            match r {
                Ok(b) => {
                    &&& all_persisted(git_scans@, committed_metric_ids@)
                    &&& b.trace_coverage == x.trace_coverage
                    &&& exists|groups: Seq<(DayKey, CodeLineCounts)>|
                        are_groups(
                            groups,
                            trace_edits@,
                            git_scans@,
                            known@,
                            x.last_day,
                            trace_edits@.len() as int,
                        ) && published(metric_models(b.metrics@), #[trigger] collected(x, groups))
                },
                Err(e) => e == CodeChangeMetricBuildError::MissingCommittedMetricId
                    && !all_persisted(git_scans@, committed_metric_ids@),
            }
        }),
{
    let git_coverage = scan_coverage(git_scans);
    let last_day: i64 = max_reportable_day(now);
    let (groups, skipped) = group_edits(trace_edits, git_scans, known, last_day);
    let effective = if skipped {
        trace_coverage.combine(CoverageStatus::Partial)
    } else {
        trace_coverage
    };
    let ghost x = build_inputs(
        device_id@,
        trace_edits@,
        git_scans@,
        matches@,
        committed_metric_ids@,
        known@,
        last_day as int,
        trace_coverage,
    );
    let mut all: Vec<CodeChangeMetric> = Vec::new();
    proof {
        assert(metric_models(all@) =~= Seq::empty());
    }
    push_agent_metrics(&mut all, &groups, device_id, effective, git_coverage, Ghost(x));
    let ghost agent = agent_metrics(x, group_models(groups@));
    proof {
        assert(Seq::<MetricModel>::empty() + agent =~= agent);
    }
    let mut i: usize = 0;
    proof {
        assert(agent + scans_metrics(x, 0) =~= agent);
    }
    while i < git_scans.len()
        invariant
            scans_wf(git_scans@),
            x.scans == git_scans@,
            x.device == device_id@,
            x.ids == committed_metric_ids@,
            x.trace_coverage == effective,
            x.git_coverage == git_coverage,
            i <= git_scans.len(),
            forall|k: int, j: int|
                0 <= k < i && 0 <= j < git_scans@[k].commits@.len() ==> persisted_id(
                    committed_metric_ids@,
                    (#[trigger] git_scans@[k].commits@[j]).deduplication_id@,
                ) is Some,
            metric_models(all@) == agent + scans_metrics(x, i as int),
        decreases git_scans.len() - i,
    {
        let ghost before = metric_models(all@);
        proof {
            assert forall|j: int| 0 <= j < git_scans@[i as int].commits@.len() implies commit_times_wf(
                #[trigger] git_scans@[i as int].commits@[j],
            ) by {}
        }
        let ok = push_committed_metrics(
            &mut all,
            &git_scans[i].commits,
            committed_metric_ids,
            device_id,
            effective,
            git_coverage,
            Ghost(x),
        );
        if !ok {
            proof {
                let j = choose|j: int|
                    0 <= j < git_scans@[i as int].commits@.len() && persisted_id(
                        committed_metric_ids@,
                        (#[trigger] git_scans@[i as int].commits@[j]).deduplication_id@,
                    ) is None;
                assert(persisted_id(
                    committed_metric_ids@,
                    git_scans@[i as int].commits@[j].deduplication_id@,
                ) is None);
            }
            return Err(CodeChangeMetricBuildError::MissingCommittedMetricId);
        }
        proof {
            assert(agent + scans_metrics(x, i + 1) =~= before + commits_metrics(
                x,
                git_scans@[i as int].commits@,
                git_scans@[i as int].commits@.len() as int,
            ));
        }
        i = i + 1;
    }
    push_matched_metrics(
        &mut all,
        matches,
        trace_edits,
        last_day,
        device_id,
        effective,
        git_coverage,
        Ghost(x),
    );
    let metrics = publish(&all);
    proof {
        let g = group_models(groups@);
        assert(metric_models(all@) =~= collected(x, g));
        assert(published(metric_models(metrics@), collected(x, g)));
    }
    Ok(CodeChangeMetricBuild { metrics, trace_coverage: effective })
}

// ---------------------------------------------------------------------------
// Totals
// ---------------------------------------------------------------------------

/// The lines of a day and kind.
#[derive(Debug, Clone, Copy, PartialEq, Eq, Structural)]
pub struct DayTotal {
    pub day: i64,
    pub kind: CodeChangeMetricKind,
    pub counts: CodeLineCounts,
}

/// The order of totals: by day, then by kind.
pub open spec fn total_lt(a: DayTotal, b: DayTotal) -> bool {
    a.day < b.day || (a.day == b.day && a.kind.rank_spec() < b.kind.rank_spec())
}

/// The lines of the metrics of a day and kind, among the first `n`.
pub open spec fn day_counts(
    metrics: Seq<CodeChangeMetric>,
    day: i64,
    kind: CodeChangeMetricKind,
    n: int,
) -> CodeLineCounts
    decreases n,
{
    if n <= 0 {
        CodeLineCounts::zero()
    } else {
        let before = day_counts(metrics, day, kind, n - 1);
        if metrics[n - 1].day == day && metrics[n - 1].kind == kind {
            before.plus(metrics[n - 1].counts)
        } else {
            before
        }
    }
}

pub open spec fn day_occurs(
    metrics: Seq<CodeChangeMetric>,
    day: i64,
    kind: CodeChangeMetricKind,
    n: int,
) -> bool {
    exists|i: int| 0 <= i < n && (#[trigger] metrics[i]).day == day && metrics[i].kind == kind
}

/// Whether there is an entry for the day and kind.
pub open spec fn total_listed(totals: Seq<DayTotal>, day: i64, kind: CodeChangeMetricKind) -> bool {
    exists|i: int| 0 <= i < totals.len() && (#[trigger] totals[i]).day == day && totals[i].kind == kind
}

/// Whether an entry holds the lines of its day and kind.
pub open spec fn total_right(total: DayTotal, metrics: Seq<CodeChangeMetric>, n: int) -> bool {
    day_occurs(metrics, total.day, total.kind, n) && total.counts == day_counts(
        metrics,
        total.day,
        total.kind,
        n,
    )
}

/// Whether `totals` has one entry for each day and kind of the first `n` metrics,
/// in order, with their lines.
pub open spec fn are_totals(totals: Seq<DayTotal>, metrics: Seq<CodeChangeMetric>, n: int) -> bool {
    &&& forall|i: int, j: int|
        0 <= i < j < totals.len() ==> total_lt(#[trigger] totals[i], #[trigger] totals[j])
    &&& forall|i: int| 0 <= i < totals.len() ==> total_right(#[trigger] totals[i], metrics, n)
    &&& forall|k: int|
        0 <= k < n ==> total_listed(totals, (#[trigger] metrics[k]).day, metrics[k].kind)
}

proof fn lemma_day_counts_none(
    metrics: Seq<CodeChangeMetric>,
    day: i64,
    kind: CodeChangeMetricKind,
    n: int,
)
    requires
        !day_occurs(metrics, day, kind, n),
    ensures
        day_counts(metrics, day, kind, n) == CodeLineCounts::zero(),
    decreases n,
{
    if n > 0 {
        assert(!(metrics[n - 1].day == day && metrics[n - 1].kind == kind));
        assert(!day_occurs(metrics, day, kind, n - 1));
        lemma_day_counts_none(metrics, day, kind, n - 1);
    }
}

proof fn lemma_rank_injective(a: CodeChangeMetricKind, b: CodeChangeMetricKind)
    requires
        a.rank_spec() == b.rank_spec(),
    ensures
        a == b,
{
}

proof fn lemma_total_other(total: DayTotal, metrics: Seq<CodeChangeMetric>, n: int)
    requires
        0 <= n < metrics.len(),
        total_right(total, metrics, n),
        total.day != metrics[n].day || total.kind != metrics[n].kind,
    ensures
        total_right(total, metrics, n + 1),
{
    let k = choose|k: int|
        0 <= k < n && (#[trigger] metrics[k]).day == total.day && metrics[k].kind == total.kind;
    assert(metrics[k].day == total.day);
}

proof fn lemma_totals_add(totals: Seq<DayTotal>, metrics: Seq<CodeChangeMetric>, n: int, p: int)
    requires
        0 <= n < metrics.len(),
        are_totals(totals, metrics, n),
        0 <= p < totals.len(),
        totals[p].day == metrics[n].day,
        totals[p].kind == metrics[n].kind,
    ensures
        are_totals(
            totals.update(
                p,
                DayTotal { counts: totals[p].counts.plus(metrics[n].counts), ..totals[p] },
            ),
            metrics,
            n + 1,
        ),
{
    let w = totals.update(
        p,
        DayTotal { counts: totals[p].counts.plus(metrics[n].counts), ..totals[p] },
    );
    assert forall|i: int| 0 <= i < w.len() implies total_right(#[trigger] w[i], metrics, n + 1) by {
        assert(total_right(totals[i], metrics, n));
        if i == p {
            assert(metrics[n].day == w[i].day);
        } else {
            if i < p {
                assert(total_lt(totals[i], totals[p]));
            } else {
                assert(total_lt(totals[p], totals[i]));
            }
            lemma_total_other(totals[i], metrics, n);
        }
    }
    assert forall|k: int| 0 <= k < n + 1 implies total_listed(
        w,
        (#[trigger] metrics[k]).day,
        metrics[k].kind,
    ) by {
        if k < n {
            assert(total_listed(totals, metrics[k].day, metrics[k].kind));
            let i = choose|i: int|
                0 <= i < totals.len() && (#[trigger] totals[i]).day == metrics[k].day
                    && totals[i].kind == metrics[k].kind;
            assert(w[i].day == metrics[k].day);
        } else {
            assert(w[p].day == metrics[k].day);
        }
    }
    assert forall|i: int, j: int| 0 <= i < j < w.len() implies total_lt(
        #[trigger] w[i],
        #[trigger] w[j],
    ) by {
        assert(total_lt(totals[i], totals[j]));
    }
}

proof fn lemma_totals_insert(
    totals: Seq<DayTotal>,
    metrics: Seq<CodeChangeMetric>,
    n: int,
    p: int,
    fresh: DayTotal,
)
    requires
        0 <= n < metrics.len(),
        are_totals(totals, metrics, n),
        0 <= p <= totals.len(),
        fresh.day == metrics[n].day,
        fresh.kind == metrics[n].kind,
        fresh.counts == CodeLineCounts::zero().plus(metrics[n].counts),
        forall|i: int| 0 <= i < p ==> total_lt(#[trigger] totals[i], fresh),
        p < totals.len() ==> total_lt(fresh, totals[p]),
    ensures
        are_totals(totals.insert(p, fresh), metrics, n + 1),
{
    let w = totals.insert(p, fresh);
    assert forall|i: int| p <= i < totals.len() implies total_lt(fresh, #[trigger] totals[i]) by {
        if i > p {
            assert(total_lt(totals[p], totals[i]));
        }
    }
    assert(!day_occurs(metrics, fresh.day, fresh.kind, n)) by {
        if day_occurs(metrics, fresh.day, fresh.kind, n) {
            let k = choose|k: int|
                0 <= k < n && (#[trigger] metrics[k]).day == fresh.day && metrics[k].kind
                    == fresh.kind;
            assert(total_listed(totals, metrics[k].day, metrics[k].kind));
            let i = choose|i: int|
                0 <= i < totals.len() && (#[trigger] totals[i]).day == metrics[k].day
                    && totals[i].kind == metrics[k].kind;
            assert(i < p || total_lt(fresh, totals[i]));
        }
    }
    lemma_day_counts_none(metrics, fresh.day, fresh.kind, n);
    assert forall|i: int| 0 <= i < w.len() implies total_right(#[trigger] w[i], metrics, n + 1) by {
        if i == p {
            assert(metrics[n].day == w[i].day);
        } else {
            let a = if i < p { i } else { i - 1 };
            assert(w[i] == totals[a]);
            lemma_total_other(totals[a], metrics, n);
        }
    }
    assert forall|k: int| 0 <= k < n + 1 implies total_listed(
        w,
        (#[trigger] metrics[k]).day,
        metrics[k].kind,
    ) by {
        if k < n {
            assert(total_listed(totals, metrics[k].day, metrics[k].kind));
            let i = choose|i: int|
                0 <= i < totals.len() && (#[trigger] totals[i]).day == metrics[k].day
                    && totals[i].kind == metrics[k].kind;
            let a = if i < p { i } else { i + 1 };
            assert(w[a] == totals[i]);
        } else {
            assert(w[p].day == metrics[k].day);
        }
    }
    assert forall|i: int, j: int| 0 <= i < j < w.len() implies total_lt(
        #[trigger] w[i],
        #[trigger] w[j],
    ) by {
        if i != p && j != p {
            let a = if i < p { i } else { i - 1 };
            let b = if j < p { j } else { j - 1 };
            assert(w[i] == totals[a] && w[j] == totals[b]);
        } else if i == p {
            assert(w[j] == totals[j - 1]);
        } else {
            assert(w[i] == totals[i]);
        }
    }
}

/// The lines of each day and kind.
pub fn aggregate_code_change_metrics(metrics: &[CodeChangeMetric]) -> (r: Vec<DayTotal>)
    ensures
        are_totals(r@, metrics@, metrics@.len() as int),
{
    let mut totals: Vec<DayTotal> = Vec::new();
    let mut n: usize = 0;
    while n < metrics.len()
        invariant
            n <= metrics.len(),
            are_totals(totals@, metrics@, n as int),
        decreases metrics.len() - n,
    {
        let day: i64 = metrics[n].day;
        let kind = metrics[n].kind;
        let mut sum = CodeLineCounts::default();
        sum.add(metrics[n].counts);
        let fresh = DayTotal { day, kind, counts: sum };
        let mut p: usize = 0;
        while p < totals.len() && (totals[p].day < day || (totals[p].day == day
            && totals[p].kind.rank() < kind.rank()))
            invariant
                p <= totals.len(),
                fresh.day == day && fresh.kind == kind,
                forall|i: int| 0 <= i < p ==> total_lt(#[trigger] totals@[i], fresh),
            decreases totals.len() - p,
        {
            p = p + 1;
        }
        if p < totals.len() && totals[p].day == day && totals[p].kind == kind {
            proof {
                lemma_totals_add(totals@, metrics@, n as int, p as int);
            }
            let mut counts = totals[p].counts;
            counts.add(metrics[n].counts);
            totals[p] = DayTotal { day, kind, counts };
        } else {
            proof {
                if p < totals@.len() {
                    if totals@[p as int].kind.rank_spec() == kind.rank_spec() {
                        lemma_rank_injective(totals@[p as int].kind, kind);
                    }
                    assert(total_lt(fresh, totals@[p as int]));
                }
                lemma_totals_insert(totals@, metrics@, n as int, p as int, fresh);
            }
            totals.insert(p, fresh);
        }
        n = n + 1;
    }
    totals
}

// ---------------------------------------------------------------------------
// What holds of every build
// ---------------------------------------------------------------------------

/// No two published metrics share an identifier.
pub proof fn published_identifiers_are_distinct(
    out: Seq<MetricModel>,
    all: Seq<MetricModel>,
    i: int,
    j: int,
)
    requires
        published(out, all),
        0 <= i < j < out.len(),
    ensures
        out[i].metric_id != out[j].metric_id,
{
    lemma_text_lt_irreflexive(out[i].metric_id);
}

proof fn lemma_matched_days(x: MetricInputs, n: int)
    ensures
        forall|k: int|
            0 <= k < matched_metrics(x, n).len() ==> (#[trigger] matched_metrics(x, n)[k]).day
                <= x.last_day,
    decreases n,
{
    if n > 0 {
        lemma_matched_days(x, n - 1);
    }
}

proof fn lemma_committed_kinds(x: MetricInputs, n: int)
    ensures
        forall|k: int|
            0 <= k < scans_metrics(x, n).len() ==> (#[trigger] scans_metrics(x, n)[k]).kind
                == CodeChangeMetricKind::Committed,
    decreases n,
{
    if n > 0 {
        lemma_committed_kinds(x, n - 1);
    }
}

/// A published metric of an agent edit or of a match never names a day beyond
/// the last reportable one.
pub proof fn published_edits_are_never_ahead(
    x: MetricInputs,
    groups: Seq<(DayKey, CodeLineCounts)>,
    out: Seq<MetricModel>,
    i: int,
)
    requires
        are_groups(groups, x.traces, x.scans, x.known, x.last_day, x.traces.len() as int),
        published(out, collected(x, groups)),
        0 <= i < out.len(),
        out[i].kind != CodeChangeMetricKind::Committed,
    ensures
        out[i].day <= x.last_day,
{
    let all = collected(x, groups);
    assert(is_first(all, out[i]));
    let k = choose|k: int| #[trigger] first_with_id(all, k) && all[k] == out[i];
    let a = agent_metrics(x, groups);
    let s = scans_metrics(x, x.scans.len() as int);
    let m = matched_metrics(x, x.matches.len() as int);
    lemma_matched_days(x, x.matches.len() as int);
    lemma_committed_kinds(x, x.scans.len() as int);
    if k < a.len() {
        assert(all[k] == a[k]);
        assert(key_occurs(groups[k].0, x.traces, x.scans, x.known, x.last_day, x.traces.len() as int));
    } else if k < a.len() + s.len() {
        assert(all[k] == s[k - a.len()]);
    } else {
        assert(all[k] == m[k - a.len() - s.len()]);
    }
}

} // verus!
