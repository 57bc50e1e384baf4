//! Which commits an edit is attributed to, and that none is passed over.
use crate::binary64::{below, four_fifths};
use crate::code_types::{
    AttributionConfidence, CodeChangeMatch, GitCommitChange, GitFileChange, GitScan, TraceEdit,
};
use crate::matching::{
    Candidate, ResolvedPath, added_matches, are_matches, attribution, attributions,
    commit_candidates, delay_spec, deleted_matches, file_candidates, first_strongest, has_edit,
    has_rival, is_match, known_place, lemma_strongest_exists, line_overlap, scan_candidates,
    strength_spec, weaker,
};
use crate::overlap::{
    a_full_overlap_holds_every_line_in_order, a_share_of_four_fifths_is_of_as_many_lines,
    a_whole_share_is_of_every_line, more_than_four_fifths_of_the_lines_are_a_share_of_as_much,
    ordered_overlap, stands_in,
};
use crate::paths::same_path;
use crate::text::texts;
use crate::time::Timestamp;
use vstd::prelude::*;

verus! {

/// How many of an edit's changed lines a file holds in order.
pub open spec fn matched_lines(trace: TraceEdit, file: GitFileChange) -> int {
    ordered_overlap(
        texts(trace.added_line_fingerprints@),
        texts(file.added_line_fingerprints@),
    ) + ordered_overlap(
        texts(trace.deleted_line_fingerprints@),
        texts(file.deleted_line_fingerprints@),
    )
}

/// Whether a file holds all the edit's changed lines in order.
pub open spec fn holds_every_line(trace: TraceEdit, file: GitFileChange) -> bool {
    &&& stands_in(
        texts(trace.added_line_fingerprints@),
        texts(file.added_line_fingerprints@),
    )
    &&& stands_in(
        texts(trace.deleted_line_fingerprints@),
        texts(file.deleted_line_fingerprints@),
    )
}

/// Whether an edit's lines can be counted: fewer than 2^48.
pub open spec fn lines_countable(trace: TraceEdit) -> bool {
    &&& trace.added_line_fingerprints@.len() + trace.deleted_line_fingerprints@.len()
        < 0x1_0000_0000_0000
    &&& trace.added_line_fingerprints@.len() + trace.deleted_line_fingerprints@.len() <= usize::MAX
}

/// Whether a commit was written within `days` days after the edit.
pub open spec fn within_days(commit: GitCommitChange, edited: Timestamp, days: int) -> bool {
    delay_spec(commit, edited) is Some && delay_spec(commit, edited)->0 <= days * 86_400
}

/// A file that holds all of an edit's lines, or more than four fifths of them,
/// bears the edit out where its commit came within thirty days; with high
/// confidence exactly where it holds all of them and came within seven. One that
/// holds fewer than four fifths, or came too late or too early, does not.
pub proof fn lines_and_time_decide(
    trace: TraceEdit,
    edited: Timestamp,
    commit: GitCommitChange,
    file: GitFileChange,
)
    requires
        lines_countable(trace),
        trace.added_line_fingerprints@.len() + trace.deleted_line_fingerprints@.len() > 0,
    ensures
        ({
            let s = strength_spec(trace, edited, commit, file);
            let total = trace.added_line_fingerprints@.len()
                + trace.deleted_line_fingerprints@.len();
            &&& within_days(commit, edited, 30) && 5 * matched_lines(trace, file) > 4 * total
                ==> s is Some
            &&& within_days(commit, edited, 30) && holds_every_line(trace, file) ==> s is Some
            &&& s is Some ==> within_days(commit, edited, 30)
            &&& s is Some ==> 5 * matched_lines(trace, file) >= 4 * total
            &&& s matches Some((high, _)) ==> high == (within_days(commit, edited, 7)
                && holds_every_line(trace, file))
        }),
{
    let added = texts(trace.added_line_fingerprints@);
    let deleted = texts(trace.deleted_line_fingerprints@);
    let a = added_matches(trace, file);
    let d = deleted_matches(trace, file);
    assert(added.len() == trace.added_line_fingerprints@.len());
    assert(deleted.len() == trace.deleted_line_fingerprints@.len());
    a_full_overlap_holds_every_line_in_order(added, texts(file.added_line_fingerprints@));
    a_full_overlap_holds_every_line_in_order(deleted, texts(file.deleted_line_fingerprints@));
    a_whole_share_is_of_every_line(a, added.len() as int);
    a_whole_share_is_of_every_line(d, deleted.len() as int);
    if 5 * (a + d) > 4 * (added.len() + deleted.len()) {
        more_than_four_fifths_of_the_lines_are_a_share_of_as_much(
            a,
            added.len() as int,
            d,
            deleted.len() as int,
        );
    }
    if !below(line_overlap(trace, file), four_fifths()) {
        a_share_of_four_fifths_is_of_as_many_lines(
            a,
            added.len() as int,
            d,
            deleted.len() as int,
        );
    }
}

/// Whether a candidate is this file of this commit.
pub open spec fn is_candidate_of(c: Candidate, commit: GitCommitChange, file: GitFileChange) -> bool {
    c.commit == commit && c.file == file
}

proof fn lemma_file_found(
    trace: TraceEdit,
    edited: Timestamp,
    place: Seq<char>,
    commit: GitCommitChange,
    n: int,
    j: int,
) -> (k: int)
    requires
        0 <= j < n <= commit.files@.len(),
        same_path(commit.files@[j].relative_path@, place),
        strength_spec(trace, edited, commit, commit.files@[j]) is Some,
    ensures
        0 <= k < file_candidates(trace, edited, place, commit, n).len(),
        is_candidate_of(
            file_candidates(trace, edited, place, commit, n)[k],
            commit,
            commit.files@[j],
        ),
        Some(
            (
                file_candidates(trace, edited, place, commit, n)[k].high,
                file_candidates(trace, edited, place, commit, n)[k].overlap,
            ),
        ) == strength_spec(trace, edited, commit, commit.files@[j]),
    decreases n,
{
    let before = file_candidates(trace, edited, place, commit, n - 1);
    if j < n - 1 {
        lemma_file_found(trace, edited, place, commit, n - 1, j)
    } else {
        before.len() as int
    }
}

proof fn lemma_commit_found(
    trace: TraceEdit,
    edited: Timestamp,
    place: Seq<char>,
    commits: Seq<GitCommitChange>,
    n: int,
    i: int,
    j: int,
) -> (k: int)
    requires
        0 <= i < n <= commits.len(),
        commits[i].parent_count <= 1,
        0 <= j < commits[i].files@.len(),
        same_path(commits[i].files@[j].relative_path@, place),
        strength_spec(trace, edited, commits[i], commits[i].files@[j]) is Some,
    ensures
        0 <= k < commit_candidates(trace, edited, place, commits, n).len(),
        is_candidate_of(
            commit_candidates(trace, edited, place, commits, n)[k],
            commits[i],
            commits[i].files@[j],
        ),
        Some(
            (
                commit_candidates(trace, edited, place, commits, n)[k].high,
                commit_candidates(trace, edited, place, commits, n)[k].overlap,
            ),
        ) == strength_spec(trace, edited, commits[i], commits[i].files@[j]),
    decreases n,
{
    let before = commit_candidates(trace, edited, place, commits, n - 1);
    if i < n - 1 {
        lemma_commit_found(trace, edited, place, commits, n - 1, i, j)
    } else {
        let k = lemma_file_found(
            trace,
            edited,
            place,
            commits[i],
            commits[i].files@.len() as int,
            j,
        );
        before.len() + k
    }
}

proof fn lemma_scan_found(
    trace: TraceEdit,
    edited: Timestamp,
    scans: Seq<GitScan>,
    known: Seq<ResolvedPath>,
    n: int,
    s: int,
    i: int,
    j: int,
) -> (k: int)
    requires
        0 <= s < n <= scans.len(),
        fits(trace, edited, scans, known, s, i, j),
    ensures
        0 <= k < scan_candidates(trace, edited, scans, known, n).len(),
        is_candidate_of(
            scan_candidates(trace, edited, scans, known, n)[k],
            scans[s].commits@[i],
            scans[s].commits@[i].files@[j],
        ),
        Some(
            (
                scan_candidates(trace, edited, scans, known, n)[k].high,
                scan_candidates(trace, edited, scans, known, n)[k].overlap,
            ),
        ) == strength_spec(
            trace,
            edited,
            scans[s].commits@[i],
            scans[s].commits@[i].files@[j],
        ),
    decreases n,
{
    let before = scan_candidates(trace, edited, scans, known, n - 1);
    if s < n - 1 {
        lemma_scan_found(trace, edited, scans, known, n - 1, s, i, j)
    } else {
        let place = known_place(trace, scans[s], known)->0;
        let k = lemma_commit_found(
            trace,
            edited,
            place,
            scans[s].commits@,
            scans[s].commits@.len() as int,
            i,
            j,
        );
        before.len() + k
    }
}

/// Whether file `j` of commit `i` of scan `s` bears an edit out: the scan places
/// the edit at the file's path, the commit is no merge, and its lines and time
/// are right.
pub open spec fn fits(
    trace: TraceEdit,
    edited: Timestamp,
    scans: Seq<GitScan>,
    known: Seq<ResolvedPath>,
    s: int,
    i: int,
    j: int,
) -> bool {
    &&& 0 <= s < scans.len()
    &&& 0 <= i < scans[s].commits@.len()
    &&& 0 <= j < scans[s].commits@[i].files@.len()
    &&& scans[s].commits@[i].parent_count <= 1
    &&& known_place(trace, scans[s], known) is Some
    &&& same_path(
        scans[s].commits@[i].files@[j].relative_path@,
        known_place(trace, scans[s], known)->0,
    )
    &&& strength_spec(trace, edited, scans[s].commits@[i], scans[s].commits@[i].files@[j]) is Some
}

/// No file is passed over: whichever scan, commit and place in the commit it has,
/// a file that bears the edit out is a candidate, as strong as its lines and time
/// make it.
pub proof fn every_fitting_file_is_a_candidate(
    trace: TraceEdit,
    edited: Timestamp,
    scans: Seq<GitScan>,
    known: Seq<ResolvedPath>,
    s: int,
    i: int,
    j: int,
)
    requires
        fits(trace, edited, scans, known, s, i, j),
    ensures
        exists|k: int|
            0 <= k < scan_candidates(trace, edited, scans, known, scans.len() as int).len()
                && is_candidate_of(
                #[trigger] scan_candidates(trace, edited, scans, known, scans.len() as int)[k],
                scans[s].commits@[i],
                scans[s].commits@[i].files@[j],
            ),
{
    let k = lemma_scan_found(trace, edited, scans, known, scans.len() as int, s, i, j);
    assert(is_candidate_of(
        scan_candidates(trace, edited, scans, known, scans.len() as int)[k],
        scans[s].commits@[i],
        scans[s].commits@[i].files@[j],
    ));
}

proof fn lemma_file_origin(
    trace: TraceEdit,
    edited: Timestamp,
    place: Seq<char>,
    commit: GitCommitChange,
    n: int,
    k: int,
) -> (j: int)
    requires
        0 <= n <= commit.files@.len(),
        0 <= k < file_candidates(trace, edited, place, commit, n).len(),
    ensures
        0 <= j < n,
        same_path(commit.files@[j].relative_path@, place),
        strength_spec(trace, edited, commit, commit.files@[j]) == Some(
            (
                file_candidates(trace, edited, place, commit, n)[k].high,
                file_candidates(trace, edited, place, commit, n)[k].overlap,
            ),
        ),
        is_candidate_of(
            file_candidates(trace, edited, place, commit, n)[k],
            commit,
            commit.files@[j],
        ),
    decreases n,
{
    let before = file_candidates(trace, edited, place, commit, n - 1);
    if k < before.len() {
        lemma_file_origin(trace, edited, place, commit, n - 1, k)
    } else {
        n - 1
    }
}

proof fn lemma_commit_origin(
    trace: TraceEdit,
    edited: Timestamp,
    place: Seq<char>,
    commits: Seq<GitCommitChange>,
    n: int,
    k: int,
) -> (r: (int, int))
    requires
        0 <= n <= commits.len(),
        0 <= k < commit_candidates(trace, edited, place, commits, n).len(),
    ensures
        0 <= r.0 < n,
        commits[r.0].parent_count <= 1,
        0 <= r.1 < commits[r.0].files@.len(),
        same_path(commits[r.0].files@[r.1].relative_path@, place),
        strength_spec(trace, edited, commits[r.0], commits[r.0].files@[r.1]) == Some(
            (
                commit_candidates(trace, edited, place, commits, n)[k].high,
                commit_candidates(trace, edited, place, commits, n)[k].overlap,
            ),
        ),
        is_candidate_of(
            commit_candidates(trace, edited, place, commits, n)[k],
            commits[r.0],
            commits[r.0].files@[r.1],
        ),
    decreases n,
{
    let before = commit_candidates(trace, edited, place, commits, n - 1);
    if k < before.len() {
        lemma_commit_origin(trace, edited, place, commits, n - 1, k)
    } else {
        let commit = commits[n - 1];
        let j = lemma_file_origin(
            trace,
            edited,
            place,
            commit,
            commit.files@.len() as int,
            k - before.len(),
        );
        (n - 1, j)
    }
}

proof fn lemma_scan_origin(
    trace: TraceEdit,
    edited: Timestamp,
    scans: Seq<GitScan>,
    known: Seq<ResolvedPath>,
    n: int,
    k: int,
) -> (r: (int, int, int))
    requires
        0 <= n <= scans.len(),
        0 <= k < scan_candidates(trace, edited, scans, known, n).len(),
    ensures
        r.0 < n,
        fits(trace, edited, scans, known, r.0, r.1, r.2),
        is_candidate_of(
            scan_candidates(trace, edited, scans, known, n)[k],
            scans[r.0].commits@[r.1],
            scans[r.0].commits@[r.1].files@[r.2],
        ),
        strength_spec(
            trace,
            edited,
            scans[r.0].commits@[r.1],
            scans[r.0].commits@[r.1].files@[r.2],
        ) == Some(
            (
                scan_candidates(trace, edited, scans, known, n)[k].high,
                scan_candidates(trace, edited, scans, known, n)[k].overlap,
            ),
        ),
    decreases n,
{
    let before = scan_candidates(trace, edited, scans, known, n - 1);
    if k < before.len() {
        lemma_scan_origin(trace, edited, scans, known, n - 1, k)
    } else {
        let place = known_place(trace, scans[n - 1], known)->0;
        let r = lemma_commit_origin(
            trace,
            edited,
            place,
            scans[n - 1].commits@,
            scans[n - 1].commits@.len() as int,
            k - before.len(),
        );
        (n - 1, r.0, r.1)
    }
}

/// An edit's distinct changed lines.
pub open spec fn distinct_lines(trace: TraceEdit) -> nat {
    (texts(trace.added_line_fingerprints@) + texts(
        trace.deleted_line_fingerprints@,
    )).to_set().len()
}

/// An edit with a time and three distinct lines that files of one commit bear
/// out, and files of no other, is attributed to that commit: with high confidence
/// where one of the files makes it high.
pub proof fn an_edit_goes_to_the_only_fitting_commit(
    trace: TraceEdit,
    scans: Seq<GitScan>,
    known: Seq<ResolvedPath>,
    s: int,
    i: int,
    j: int,
)
    requires
        trace.occurred_at is Some,
        distinct_lines(trace) >= 3,
        fits(trace, trace.occurred_at->0, scans, known, s, i, j),
        forall|x: int, y: int, z: int| #[trigger]
            fits(trace, trace.occurred_at->0, scans, known, x, y, z)
                ==> scans[x].commits@[y].deduplication_id@
                == scans[s].commits@[i].deduplication_id@,
    ensures
        attribution(trace, scans, known) is Some,
        attribution(trace, scans, known)->0.commit.deduplication_id@
            == scans[s].commits@[i].deduplication_id@,
        strength_spec(
            trace,
            trace.occurred_at->0,
            scans[s].commits@[i],
            scans[s].commits@[i].files@[j],
        ) matches Some((true, _)) ==> attribution(trace, scans, known)->0.high,
{
    let edited = trace.occurred_at->0;
    let n = scans.len() as int;
    let c = scan_candidates(trace, edited, scans, known, n);
    let k = lemma_scan_found(trace, edited, scans, known, n, s, i, j);
    lemma_strongest_exists(c);
    let b = choose|b: int| first_strongest(c, b);
    assert forall|x: int| 0 <= x < c.len() implies (#[trigger] c[x]).commit.deduplication_id@
        == scans[s].commits@[i].deduplication_id@ by {
        let r = lemma_scan_origin(trace, edited, scans, known, n, x);
        assert(fits(trace, edited, scans, known, r.0, r.1, r.2));
    }
    assert(!has_rival(c, b));
    assert(!weaker(c[b], c[k]));
}

/// An attribution is to a file that bears the edit out, of which none is
/// stronger: high confidence goes before medium, then the greater share. Every
/// other file that is as strong is of the same commit.
pub proof fn an_attribution_is_the_strongest(
    trace: TraceEdit,
    scans: Seq<GitScan>,
    known: Seq<ResolvedPath>,
)
    requires
        attribution(trace, scans, known) is Some,
    ensures
        trace.occurred_at is Some,
        distinct_lines(trace) >= 3,
        ({
            let edited = trace.occurred_at->0;
            let best = attribution(trace, scans, known)->0;
            &&& exists|s: int, i: int, j: int| #[trigger]
                fits(trace, edited, scans, known, s, i, j) && is_candidate_of(
                    best,
                    scans[s].commits@[i],
                    scans[s].commits@[i].files@[j],
                )
            &&& forall|s: int, i: int, j: int| #[trigger]
                fits(trace, edited, scans, known, s, i, j) ==> ({
                    let commit = scans[s].commits@[i];
                    let other = strength_spec(trace, edited, commit, commit.files@[j])->0;
                    &&& other.0 ==> best.high
                    &&& other.0 == best.high ==> !below(best.overlap, other.1)
                    &&& other.0 == best.high && !below(other.1, best.overlap)
                        ==> commit.deduplication_id@ == best.commit.deduplication_id@
                })
        }),
{
    let edited = trace.occurred_at->0;
    let n = scans.len() as int;
    let c = scan_candidates(trace, edited, scans, known, n);
    lemma_strongest_exists(c);
    let b = choose|b: int| first_strongest(c, b);
    let best = c[b];
    let r = lemma_scan_origin(trace, edited, scans, known, n, b);
    assert(fits(trace, edited, scans, known, r.0, r.1, r.2));
    assert forall|s: int, i: int, j: int| #[trigger]
        fits(trace, edited, scans, known, s, i, j) implies ({
        let commit = scans[s].commits@[i];
        let other = strength_spec(trace, edited, commit, commit.files@[j])->0;
        &&& other.0 ==> best.high
        &&& other.0 == best.high ==> !below(best.overlap, other.1)
        &&& other.0 == best.high && !below(other.1, best.overlap) ==> commit.deduplication_id@
            == best.commit.deduplication_id@
    }) by {
        let k = lemma_scan_found(trace, edited, scans, known, n, s, i, j);
        assert(!weaker(c[b], c[k]));
        if weaker(c[k], c[b]) {
        } else {
            assert(!has_rival(c, b));
        }
    }
}

/// Every edit that is attributed, and whose identifier no earlier edit has, gives
/// a match with its commit, its file and its confidence; and every match is of an
/// edit that is attributed.
pub proof fn every_attributed_edit_is_matched(
    traces: Seq<TraceEdit>,
    scans: Seq<GitScan>,
    known: Seq<ResolvedPath>,
    matches: Seq<CodeChangeMatch>,
    n: int,
)
    requires
        are_matches(matches, attributions(traces, scans, known, traces.len() as int)),
        0 <= n < traces.len(),
        attribution(traces[n], scans, known) is Some,
        forall|i: int| 0 <= i < n ==> (#[trigger] traces[i]).trace_edit_id@ != traces[n].trace_edit_id@,
    ensures
        exists|k: int|
            0 <= k < matches.len() && says(
                #[trigger] matches[k],
                traces[n],
                attribution(traces[n], scans, known)->0,
            ),
{
    let c = attribution(traces[n], scans, known)->0;
    let k = lemma_attributed(traces, scans, known, traces.len() as int, n);
    let pairs = attributions(traces, scans, known, traces.len() as int);
    assert(is_match(matches[k], pairs[k].0, pairs[k].1));
    assert(says(matches[k], traces[n], c));
}

/// Whether a match says that the edit became this file of this commit.
pub open spec fn says(m: CodeChangeMatch, trace: TraceEdit, c: Candidate) -> bool {
    &&& m.trace_edit_id@ == trace.trace_edit_id@
    &&& m.commit_hash@ == c.commit.commit_hash@
    &&& m.commit_deduplication_id@ == c.commit.deduplication_id@
    &&& m.repository_hash@ == c.commit.repository_hash@
    &&& m.relative_path@ == c.file.relative_path@
    &&& m.committed_at == c.commit.committed_at
    &&& m.counts == trace.counts
    &&& m.ordered_line_overlap@ == c.overlap
    &&& m.confidence == if c.high {
        AttributionConfidence::High
    } else {
        AttributionConfidence::Medium
    }
}

proof fn lemma_attributed(
    traces: Seq<TraceEdit>,
    scans: Seq<GitScan>,
    known: Seq<ResolvedPath>,
    m: int,
    n: int,
) -> (k: int)
    requires
        0 <= n < m <= traces.len(),
        attribution(traces[n], scans, known) is Some,
        forall|i: int| 0 <= i < n ==> (#[trigger] traces[i]).trace_edit_id@ != traces[n].trace_edit_id@,
    ensures
        0 <= k < attributions(traces, scans, known, m).len(),
        attributions(traces, scans, known, m)[k] == (
            traces[n],
            attribution(traces[n], scans, known)->0,
        ),
    decreases m,
{
    let before = attributions(traces, scans, known, m - 1);
    if n < m - 1 {
        lemma_attributed(traces, scans, known, m - 1, n)
    } else {
        if has_edit(before, traces[n].trace_edit_id@) {
            let k = choose|k: int|
                0 <= k < before.len() && (#[trigger] before[k]).0.trace_edit_id@
                    == traces[n].trace_edit_id@;
            let i = lemma_attributed_origin(traces, scans, known, m - 1, k);
            assert(traces[i].trace_edit_id@ != traces[n].trace_edit_id@);
        }
        before.len() as int
    }
}

proof fn lemma_attributed_origin(
    traces: Seq<TraceEdit>,
    scans: Seq<GitScan>,
    known: Seq<ResolvedPath>,
    m: int,
    k: int,
) -> (i: int)
    requires
        0 <= m <= traces.len(),
        0 <= k < attributions(traces, scans, known, m).len(),
    ensures
        0 <= i < m,
        attributions(traces, scans, known, m)[k].0 == traces[i],
        attribution(traces[i], scans, known) == Some(attributions(traces, scans, known, m)[k].1),
    decreases m,
{
    let before = attributions(traces, scans, known, m - 1);
    if k < before.len() {
        lemma_attributed_origin(traces, scans, known, m - 1, k)
    } else {
        m - 1
    }
}

/// Every match is of an edit that is attributed, and says so.
pub proof fn every_match_is_of_an_attributed_edit(
    traces: Seq<TraceEdit>,
    scans: Seq<GitScan>,
    known: Seq<ResolvedPath>,
    matches: Seq<CodeChangeMatch>,
    k: int,
)
    requires
        are_matches(matches, attributions(traces, scans, known, traces.len() as int)),
        0 <= k < matches.len(),
    ensures
        exists|n: int|
            0 <= n < traces.len() && attribution(#[trigger] traces[n], scans, known) is Some && says(
                matches[k],
                traces[n],
                attribution(traces[n], scans, known)->0,
            ),
{
    let pairs = attributions(traces, scans, known, traces.len() as int);
    let n = lemma_attributed_origin(traces, scans, known, traces.len() as int, k);
    assert(is_match(matches[k], pairs[k].0, pairs[k].1));
    assert(attribution(traces[n], scans, known) is Some);
}

/// A commit's delay is measured in whole seconds, rounded down, from the edit to
/// the earlier of its dates that is not before the edit. Without leap seconds the
/// time between is the difference of the instants.
pub proof fn the_delay_is_to_the_earlier_date_after_the_edit(
    commit: GitCommitChange,
    edited: Timestamp,
)
    requires
        edited.nanos < 1_000_000_000,
        commit.committed_at.nanos < 1_000_000_000,
        commit.authored_at is Some ==> commit.authored_at->0.nanos < 1_000_000_000,
    ensures
        ({
            let d = delay_spec(commit, edited);
            let from = edited.secs * 1_000_000_000 + edited.nanos;
            let committed = commit.committed_at.secs * 1_000_000_000 + commit.committed_at.nanos;
            let authored = commit.authored_at->0.secs * 1_000_000_000
                + commit.authored_at->0.nanos;
            let wrote = commit.authored_at is Some && authored >= from;
            &&& d is Some == (committed >= from || wrote)
            &&& committed >= from ==> d->0 * 1_000_000_000 <= committed - from
            &&& wrote ==> d->0 * 1_000_000_000 <= authored - from
            &&& d is Some ==> (committed >= from && committed - from < (d->0 + 1) * 1_000_000_000)
                || (wrote && authored - from < (d->0 + 1) * 1_000_000_000)
        }),
{
}

} // verus!
