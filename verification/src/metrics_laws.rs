//! What published metrics say of the edits and commits.
use crate::code_types::{
    CodeChangeMatch, CodeChangeMetric, CodeChangeMetricKind, CodeLineCounts, CoverageStatus,
    GitCommitChange, GitFileChange, GitScan, TraceEdit,
};
use crate::matching::{ResolvedPath, known_place, owner_hash, owner_upto, part_count};
use crate::metrics::{
    DayKey, DayTotal, MetricInputs, MetricModel, agent_metrics, all_persisted, are_groups,
    are_totals, collected, counts_under, coverage_upto, day_counts, day_key_of, effective_coverage,
    files_counts, key_occurs, lemma_day_key_lt, matched_metrics, persisted_id, project_of_edit,
    scans_coverage, scans_metrics, skewed, total_right,
};
use crate::text::opt_text;
use crate::usage_laws::{held, lemma_summed_natural, lemma_summed_push, lemma_summed_same, summed};
use vstd::prelude::*;

verus! {

/// Whether line counts are the sums of the picked items' line counts.
pub open spec fn lines_are_sums<T>(
    c: CodeLineCounts,
    s: Seq<T>,
    pick: spec_fn(T) -> bool,
    counts: spec_fn(T) -> CodeLineCounts,
) -> bool {
    &&& c.source_additions == held(summed(s, pick, |x: T| counts(x).source_additions as int))
    &&& c.source_deletions == held(summed(s, pick, |x: T| counts(x).source_deletions as int))
    &&& c.test_additions == held(summed(s, pick, |x: T| counts(x).test_additions as int))
    &&& c.test_deletions == held(summed(s, pick, |x: T| counts(x).test_deletions as int))
    &&& c.unclassified_lines_written == held(
        summed(s, pick, |x: T| counts(x).unclassified_lines_written as int),
    )
}

proof fn lemma_lines_step<T>(
    c: CodeLineCounts,
    s: Seq<T>,
    x: T,
    pick: spec_fn(T) -> bool,
    counts: spec_fn(T) -> CodeLineCounts,
)
    requires
        lines_are_sums(c, s, pick, counts),
    ensures
        lines_are_sums(
            if pick(x) {
                c.plus(counts(x))
            } else {
                c
            },
            s.push(x),
            pick,
            counts,
        ),
{
    let f1 = |x: T| counts(x).source_additions as int;
    let f2 = |x: T| counts(x).source_deletions as int;
    let f3 = |x: T| counts(x).test_additions as int;
    let f4 = |x: T| counts(x).test_deletions as int;
    let f5 = |x: T| counts(x).unclassified_lines_written as int;
    lemma_summed_push(s, x, pick, f1);
    lemma_summed_push(s, x, pick, f2);
    lemma_summed_push(s, x, pick, f3);
    lemma_summed_push(s, x, pick, f4);
    lemma_summed_push(s, x, pick, f5);
    lemma_summed_natural(s, pick, f1);
    lemma_summed_natural(s, pick, f2);
    lemma_summed_natural(s, pick, f3);
    lemma_summed_natural(s, pick, f4);
    lemma_summed_natural(s, pick, f5);
}

proof fn lemma_same_lines<T>(
    c: CodeLineCounts,
    s: Seq<T>,
    p: spec_fn(T) -> bool,
    q: spec_fn(T) -> bool,
    counts: spec_fn(T) -> CodeLineCounts,
)
    requires
        lines_are_sums(c, s, p, counts),
        forall|x: T| #[trigger] p(x) == q(x),
    ensures
        lines_are_sums(c, s, q, counts),
{
    let f1 = |x: T| counts(x).source_additions as int;
    let f2 = |x: T| counts(x).source_deletions as int;
    let f3 = |x: T| counts(x).test_additions as int;
    let f4 = |x: T| counts(x).test_deletions as int;
    let f5 = |x: T| counts(x).unclassified_lines_written as int;
    lemma_summed_same(s, p, q, f1, f1);
    lemma_summed_same(s, p, q, f2, f2);
    lemma_summed_same(s, p, q, f3, f3);
    lemma_summed_same(s, p, q, f4, f4);
    lemma_summed_same(s, p, q, f5, f5);
}

// ---------------------------------------------------------------------------
// Agent edits
// ---------------------------------------------------------------------------

/// Whether an edit is published under a day, project and repository.
pub open spec fn edited_on(
    t: TraceEdit,
    day: int,
    project: Option<Seq<char>>,
    repository: Option<Seq<char>>,
    scans: Seq<GitScan>,
    known: Seq<ResolvedPath>,
    last_day: int,
) -> bool {
    &&& t.occurred_at is Some
    &&& t.occurred_at->0.secs as int / 86_400 == day
    &&& day <= last_day
    &&& match t.project_id {
        Some(p) => project == Some(p@),
        None => project is None,
    }
    &&& owner_hash(t, scans, known) == repository
}

proof fn lemma_counts_under(
    key: DayKey,
    traces: Seq<TraceEdit>,
    scans: Seq<GitScan>,
    known: Seq<ResolvedPath>,
    last_day: int,
    n: int,
)
    requires
        0 <= n <= traces.len(),
    ensures
        lines_are_sums(
            counts_under(key, traces, scans, known, last_day, n),
            traces.take(n),
            |t: TraceEdit| day_key_of(t, scans, known, last_day) == Some(key),
            |t: TraceEdit| t.counts,
        ),
    decreases n,
{
    let pick = |t: TraceEdit| day_key_of(t, scans, known, last_day) == Some(key);
    let counts = |t: TraceEdit| t.counts;
    if n > 0 {
        lemma_counts_under(key, traces, scans, known, last_day, n - 1);
        assert(traces.take(n) =~= traces.take(n - 1).push(traces[n - 1]));
        lemma_lines_step(
            counts_under(key, traces, scans, known, last_day, n - 1),
            traces.take(n - 1),
            traces[n - 1],
            pick,
            counts,
        );
    } else {
        assert(traces.take(0) =~= Seq::empty());
    }
}

/// A published day of agent edits has the lines of the edits of that day, project
/// and repository.
pub proof fn a_day_of_edits_has_their_lines(
    groups: Seq<(DayKey, CodeLineCounts)>,
    x: MetricInputs,
    g: int,
)
    requires
        are_groups(groups, x.traces, x.scans, x.known, x.last_day, x.traces.len() as int),
        0 <= g < groups.len(),
    ensures
        ({
            let m = agent_metrics(x, groups)[g];
            &&& m.kind == CodeChangeMetricKind::AgentEdit
            &&& m.device_id == x.device
            &&& m.commit_hash is None
            &&& m.confidence is None
            &&& m.day <= x.last_day
            &&& lines_are_sums(
                m.counts,
                x.traces,
                |t: TraceEdit|
                    edited_on(
                        t,
                        m.day,
                        m.project_id,
                        m.repository_hash,
                        x.scans,
                        x.known,
                        x.last_day,
                    ),
                |t: TraceEdit| t.counts,
            )
        }),
{
    let key = groups[g].0;
    let n = x.traces.len() as int;
    lemma_counts_under(key, x.traces, x.scans, x.known, x.last_day, n);
    assert(x.traces.take(n) =~= x.traces);
    let p = |t: TraceEdit| day_key_of(t, x.scans, x.known, x.last_day) == Some(key);
    let q = |t: TraceEdit|
        edited_on(t, key.day, key.project, key.repository, x.scans, x.known, x.last_day);
    assert forall|t: TraceEdit| #[trigger] p(t) == q(t) by {
        if q(t) {
            assert(day_key_of(t, x.scans, x.known, x.last_day)->0 =~= key);
        }
    }
    assert(key_occurs(key, x.traces, x.scans, x.known, x.last_day, n));
    lemma_same_lines(groups[g].1, x.traces, p, q, |t: TraceEdit| t.counts);
}

/// Every edit with a time that is not too far ahead counts in exactly one day,
/// project and repository.
pub proof fn every_edit_has_its_day(
    groups: Seq<(DayKey, CodeLineCounts)>,
    x: MetricInputs,
    n: int,
)
    requires
        are_groups(groups, x.traces, x.scans, x.known, x.last_day, x.traces.len() as int),
        0 <= n < x.traces.len(),
        x.traces[n].occurred_at is Some,
        x.traces[n].occurred_at->0.secs as int / 86_400 <= x.last_day,
    ensures
        exists|g: int|
            0 <= g < groups.len() && edited_on(
                x.traces[n],
                (#[trigger] groups[g]).0.day,
                groups[g].0.project,
                groups[g].0.repository,
                x.scans,
                x.known,
                x.last_day,
            ),
        forall|g: int, h: int|
            0 <= g < h < groups.len() ==> (#[trigger] groups[g]).0 != (#[trigger] groups[h]).0,
{
    let t = x.traces[n];
    let key = day_key_of(t, x.scans, x.known, x.last_day)->0;
    assert(key_occurs(key, x.traces, x.scans, x.known, x.last_day, x.traces.len() as int));
    let g = choose|g: int| 0 <= g < groups.len() && (#[trigger] groups[g]).0 == key;
    assert(edited_on(
        t,
        groups[g].0.day,
        groups[g].0.project,
        groups[g].0.repository,
        x.scans,
        x.known,
        x.last_day,
    ));
    assert forall|g: int, h: int| 0 <= g < h < groups.len() implies (#[trigger] groups[g]).0 != (
    #[trigger] groups[h]).0 by {
        lemma_day_key_lt(groups[g].0, groups[g].0, groups[g].0);
    }
}

/// An edit belongs to the deepest repository that holds its file; of repositories
/// as deep, to the last.
pub proof fn an_edit_belongs_to_the_deepest_repository(
    trace: TraceEdit,
    scans: Seq<GitScan>,
    known: Seq<ResolvedPath>,
    n: int,
)
    requires
        0 <= n <= scans.len(),
    ensures
        ({
            let k = owner_upto(trace, scans, known, n);
            &&& k is None ==> forall|i: int|
                0 <= i < n ==> known_place(trace, #[trigger] scans[i], known) is None
            &&& k is Some ==> 0 <= k->0 < n && known_place(trace, scans[k->0], known) is Some
            &&& k is Some ==> forall|i: int|
                0 <= i < n && known_place(trace, #[trigger] scans[i], known) is Some ==> part_count(
                    scans[i].repository_root@,
                ) <= part_count(scans[k->0].repository_root@)
            &&& k is Some ==> forall|i: int|
                k->0 < i < n && known_place(trace, #[trigger] scans[i], known) is Some
                    ==> part_count(scans[i].repository_root@) < part_count(
                    scans[k->0].repository_root@,
                )
        }),
        n == scans.len() ==> owner_hash(trace, scans, known) is Some == owner_upto(
            trace,
            scans,
            known,
            n,
        ) is Some,
        n == scans.len() && owner_upto(trace, scans, known, n) is Some ==> owner_hash(
            trace,
            scans,
            known,
        )->0 == scans[owner_upto(trace, scans, known, n)->0].repository_hash@,
    decreases n,
{
    if n > 0 {
        an_edit_belongs_to_the_deepest_repository(trace, scans, known, n - 1);
    }
}

// ---------------------------------------------------------------------------
// Commits and matches
// ---------------------------------------------------------------------------

proof fn lemma_files_counts(files: Seq<GitFileChange>, n: int)
    requires
        0 <= n <= files.len(),
    ensures
        lines_are_sums(
            files_counts(files, n),
            files.take(n),
            |f: GitFileChange| true,
            |f: GitFileChange| f.counts,
        ),
    decreases n,
{
    if n > 0 {
        lemma_files_counts(files, n - 1);
        assert(files.take(n) =~= files.take(n - 1).push(files[n - 1]));
        lemma_lines_step(
            files_counts(files, n - 1),
            files.take(n - 1),
            files[n - 1],
            |f: GitFileChange| true,
            |f: GitFileChange| f.counts,
        );
    } else {
        assert(files.take(0) =~= Seq::empty());
    }
}

/// Whether a metric is of a commit: the day it was committed, its repository and
/// hash, and the lines of all its files.
pub open spec fn of_commit(m: MetricModel, x: MetricInputs, c: GitCommitChange) -> bool {
    &&& m.kind == CodeChangeMetricKind::Committed
    &&& m.device_id == x.device
    &&& m.day == c.committed_at.secs as int / 86_400
    &&& m.repository_hash == Some(c.repository_hash@)
    &&& m.commit_hash == Some(c.commit_hash@)
    &&& m.project_id == opt_text(c.project_id)
    &&& m.confidence is None
    &&& Some(m.metric_id) == persisted_id(x.ids, c.deduplication_id@)
    &&& m.trace_coverage == x.trace_coverage
    &&& m.git_coverage == x.git_coverage
    &&& lines_are_sums(
        m.counts,
        c.files@,
        |f: GitFileChange| true,
        |f: GitFileChange| f.counts,
    )
}

/// Whether a metric is of a match: the day and hash of the commit, the edit's
/// lines, and how sure it is.
pub open spec fn of_match(m: MetricModel, x: MetricInputs, a: CodeChangeMatch) -> bool {
    &&& m.kind == CodeChangeMetricKind::TraceMatchedCommitted
    &&& m.device_id == x.device
    &&& m.metric_id == a.match_id@
    &&& m.day == a.committed_at.secs as int / 86_400
    &&& m.repository_hash == Some(a.repository_hash@)
    &&& m.commit_hash == Some(a.commit_hash@)
    &&& m.project_id == project_of_edit(x.traces, a.trace_edit_id@, x.traces.len() as int)
    &&& m.counts == a.counts
    &&& m.confidence == Some(a.confidence)
    &&& m.trace_coverage == x.trace_coverage
    &&& m.git_coverage == x.git_coverage
}

proof fn lemma_commit_collected(x: MetricInputs, n: int, s: int, i: int) -> (k: int)
    requires
        0 <= s < n <= x.scans.len(),
        0 <= i < x.scans[s].commits@.len(),
        all_persisted(x.scans, x.ids),
    ensures
        0 <= k < scans_metrics(x, n).len(),
        of_commit(scans_metrics(x, n)[k], x, x.scans[s].commits@[i]),
    decreases n,
{
    let before = scans_metrics(x, n - 1);
    if s < n - 1 {
        lemma_commit_collected(x, n - 1, s, i)
    } else {
        let c = x.scans[s].commits@[i];
        lemma_files_counts(c.files@, c.files@.len() as int);
        assert(c.files@.take(c.files@.len() as int) =~= c.files@);
        assert(persisted_id(x.ids, x.scans[s].commits@[i].deduplication_id@) is Some);
        before.len() + i
    }
}

proof fn lemma_match_collected(x: MetricInputs, n: int, i: int) -> (k: int)
    requires
        0 <= i < n <= x.matches.len(),
        x.matches[i].committed_at.secs as int / 86_400 <= x.last_day,
    ensures
        0 <= k < matched_metrics(x, n).len(),
        of_match(matched_metrics(x, n)[k], x, x.matches[i]),
    decreases n,
{
    let before = matched_metrics(x, n - 1);
    if i < n - 1 {
        lemma_match_collected(x, n - 1, i)
    } else {
        before.len() as int
    }
}

/// Every commit, and every match that is not too far ahead, has its metric among
/// those that are published, unless another with the same identifier goes before
/// it.
pub proof fn every_commit_and_match_is_measured(
    x: MetricInputs,
    groups: Seq<(DayKey, CodeLineCounts)>,
    s: int,
    i: int,
    j: int,
)
    requires
        all_persisted(x.scans, x.ids),
    ensures
        0 <= s < x.scans.len() && 0 <= i < x.scans[s].commits@.len() ==> exists|k: int|
            0 <= k < collected(x, groups).len() && of_commit(
                #[trigger] collected(x, groups)[k],
                x,
                x.scans[s].commits@[i],
            ),
        0 <= j < x.matches.len() && x.matches[j].committed_at.secs as int / 86_400 <= x.last_day
            ==> exists|k: int|
            0 <= k < collected(x, groups).len() && of_match(
                #[trigger] collected(x, groups)[k],
                x,
                x.matches[j],
            ),
{
    let a = agent_metrics(x, groups);
    let b = scans_metrics(x, x.scans.len() as int);
    let all = collected(x, groups);
    if 0 <= s < x.scans.len() && 0 <= i < x.scans[s].commits@.len() {
        let k = lemma_commit_collected(x, x.scans.len() as int, s, i);
        assert(all[a.len() + k] == b[k]);
        assert(of_commit(all[a.len() + k], x, x.scans[s].commits@[i]));
    }
    if 0 <= j < x.matches.len() && x.matches[j].committed_at.secs as int / 86_400 <= x.last_day {
        let k = lemma_match_collected(x, x.matches.len() as int, j);
        assert(all[a.len() + b.len() + k] == matched_metrics(x, x.matches.len() as int)[k]);
        assert(of_match(all[a.len() + b.len() + k], x, x.matches[j]));
    }
}

// ---------------------------------------------------------------------------
// Totals by day, and coverage
// ---------------------------------------------------------------------------

proof fn lemma_day_counts(
    metrics: Seq<CodeChangeMetric>,
    day: i64,
    kind: CodeChangeMetricKind,
    n: int,
)
    requires
        0 <= n <= metrics.len(),
    ensures
        lines_are_sums(
            day_counts(metrics, day, kind, n),
            metrics.take(n),
            |m: CodeChangeMetric| m.day == day && m.kind == kind,
            |m: CodeChangeMetric| m.counts,
        ),
    decreases n,
{
    if n > 0 {
        lemma_day_counts(metrics, day, kind, n - 1);
        assert(metrics.take(n) =~= metrics.take(n - 1).push(metrics[n - 1]));
        lemma_lines_step(
            day_counts(metrics, day, kind, n - 1),
            metrics.take(n - 1),
            metrics[n - 1],
            |m: CodeChangeMetric| m.day == day && m.kind == kind,
            |m: CodeChangeMetric| m.counts,
        );
    } else {
        assert(metrics.take(0) =~= Seq::empty());
    }
}

/// A day's total of a kind has the lines of the day's metrics of that kind.
pub proof fn a_total_has_the_lines_of_its_metrics(
    totals: Seq<DayTotal>,
    metrics: Seq<CodeChangeMetric>,
    i: int,
)
    requires
        are_totals(totals, metrics, metrics.len() as int),
        0 <= i < totals.len(),
    ensures
        lines_are_sums(
            totals[i].counts,
            metrics,
            |m: CodeChangeMetric| m.day == totals[i].day && m.kind == totals[i].kind,
            |m: CodeChangeMetric| m.counts,
        ),
{
    let n = metrics.len() as int;
    lemma_day_counts(metrics, totals[i].day, totals[i].kind, n);
    assert(metrics.take(n) =~= metrics);
    assert(total_right(totals[i], metrics, n));
}

/// Scans together are complete exactly where each is and there is one, unavailable
/// exactly where each is, and partial otherwise.
pub proof fn scans_are_complete_where_each_is(scans: Seq<GitScan>, n: int)
    requires
        0 < n <= scans.len(),
    ensures
        (coverage_upto(scans, n) == CoverageStatus::Complete) == (forall|i: int|
            0 <= i < n ==> (#[trigger] scans[i]).coverage == CoverageStatus::Complete),
        (coverage_upto(scans, n) == CoverageStatus::Unavailable) == (forall|i: int|
            0 <= i < n ==> (#[trigger] scans[i]).coverage == CoverageStatus::Unavailable),
        scans_coverage(Seq::empty()) == CoverageStatus::Unavailable,
    decreases n,
{
    if n > 1 {
        scans_are_complete_where_each_is(scans, n - 1);
        let last = scans[n - 1].coverage;
        if coverage_upto(scans, n) == CoverageStatus::Complete {
            assert(last == CoverageStatus::Complete);
        }
        if coverage_upto(scans, n) == CoverageStatus::Unavailable {
            assert(last == CoverageStatus::Unavailable);
        }
    } else {
        assert(scans[0].coverage == coverage_upto(scans, 1));
    }
}

/// Where an edit is left out for its day, the edits are never complete; where none
/// is, their coverage is as given.
pub proof fn edits_left_out_make_the_coverage_partial(
    traces: Seq<TraceEdit>,
    last_day: int,
    given: CoverageStatus,
    i: int,
)
    ensures
        0 <= i < traces.len() && traces[i].occurred_at is Some && traces[i].occurred_at->0.secs as int
            / 86_400 > last_day ==> effective_coverage(traces, last_day, given)
            == CoverageStatus::Partial,
        (forall|j: int|
            0 <= j < traces.len() ==> (#[trigger] traces[j]).occurred_at is None
                || traces[j].occurred_at->0.secs as int / 86_400 <= last_day)
            ==> effective_coverage(traces, last_day, given) == given,
{
    if 0 <= i < traces.len() && traces[i].occurred_at is Some && traces[i].occurred_at->0.secs as int
        / 86_400 > last_day {
        assert(skewed(traces[i], last_day));
    }
}

} // verus!
