//! Decides, conservatively, which commit an agent edit became.
use crate::binary64::{Binary64, LEAST_MANTISSA, below, four_fifths, less, one};
use crate::code_types::{
    AttributionConfidence, CodeChangeMatch, GitCommitChange, GitFileChange, GitScan, TraceEdit,
};
use crate::hashing::{hash_of, hash_text};
use crate::ids::{key_of, key_text, strs};
use crate::overlap::{
    a_full_overlap_holds_every_line_in_order, a_share_of_four_fifths_is_of_as_many_lines,
    a_whole_share_is_of_every_line, ordered_overlap, ordered_overlap_ratio, overlap_ratio,
    stands_in, weighted_overlap, weighted_share,
};
use crate::paths::{
    components, contained, file_name, file_name_of, is_rooted, join_path, lemma_spans, parent_of,
    parent_path, path_components, path_join, paths_equal, rooted, same_path, separator_from, spans,
    stays_inside, strip_base, without_base,
};
use crate::text::{opt_text, same_text, texts};
use crate::time::Timestamp;
use vstd::prelude::*;

verus! {

/// Distinct changed lines that an edit must have to be attributed at all.
pub const MIN_ATTRIBUTION_DISTINCT_FINGERPRINTS: usize = 3;

/// A commit older than this, counted from the edit, is no candidate.
pub const MAX_DELAY_SECONDS: i64 = 2_592_000;

/// Up to this delay a full overlap is of high confidence.
pub const HIGH_DELAY_SECONDS: i64 = 604_800;

// ---------------------------------------------------------------------------
// Resolved paths
// ---------------------------------------------------------------------------

/// A path that exists, and where it really lies.
#[derive(Debug, Clone, PartialEq, Eq)]
pub struct ResolvedPath {
    pub path: String,
    pub canonical: String,
}

/// Where a path really lies, as far as that is known.
pub open spec fn known_as(known: Seq<ResolvedPath>, path: Seq<char>) -> Option<Seq<char>>
    decreases known.len(),
{
    if known.len() == 0 {
        None
    } else if known[0].path@ == path {
        Some(known[0].canonical@)
    } else {
        known_as(known.skip(1), path)
    }
}

pub fn look_up(known: &[ResolvedPath], path: &str) -> (r: Option<String>)
    ensures
        opt_text(r) == known_as(known@, path@),
{
    let mut i: usize = 0;
    proof {
        assert(known@.skip(0) =~= known@);
    }
    while i < known.len()
        invariant
            i <= known.len(),
            known_as(known@, path@) == known_as(known@.skip(i as int), path@),
        decreases known.len() - i,
    {
        if same_text(known[i].path.as_str(), path) {
            return Some(known[i].canonical.clone());
        }
        proof {
            assert(known@.skip(i as int).skip(1) =~= known@.skip(i + 1));
        }
        i = i + 1;
    }
    None
}

/// `base` with the names below it, the last name first in `names`.
pub open spec fn with_names(base: Seq<char>, names: Seq<Seq<char>>) -> Seq<char>
    decreases names.len(),
{
    if names.len() == 0 {
        base
    } else {
        with_names(path_join(base, names.last()), names.drop_last())
    }
}

/// Where `whole` really lies, found from the ancestors of `current`; `names` are
/// the names below `current`, the last one first.
pub open spec fn resolved_above(
    known: Seq<ResolvedPath>,
    whole: Seq<char>,
    current: Seq<char>,
    names: Seq<Seq<char>>,
) -> Seq<char>
    decreases current.len(),
{
    match (parent_of(current), file_name_of(current)) {
        (Some(parent), Some(name)) => match known_as(known, parent) {
            Some(canonical) => with_names(canonical, names.push(name)),
            None => if parent.len() < current.len() {
                resolved_above(known, whole, parent, names.push(name))
            } else {
                whole
            },
        },
        _ => whole,
    }
}

/// Where a path really lies: where it exists, its own resolution; otherwise that
/// of the nearest directory above it that exists, with the rest below it; the
/// path itself where nothing above it exists.
pub open spec fn canonical_spec(known: Seq<ResolvedPath>, path: Seq<char>) -> Seq<char> {
    match known_as(known, path) {
        Some(c) => c,
        None => resolved_above(known, path, path, Seq::empty()),
    }
}

proof fn lemma_parent_shorter(s: Seq<char>)
    ensures
        parent_of(s) matches Some(p) ==> p.len() < s.len(),
{
    let sp = spans(s, 0);
    lemma_spans(s, 0);
    if sp.len() > 0 {
        let k = sp.len() - 1;
        assert(sp[k].0 < sp[k].1 <= s.len());
        if k > 0 {
            assert(sp[k - 1].1 < sp[k].0);
        } else if rooted(s) {
            assert(separator_from(s, 0) == 0);
            assert(spans(s, 0) == spans(s, 1));
            lemma_spans(s, 1);
        }
    }
}

fn append_names(base: String, names: &[String]) -> (r: String)
    ensures
        r@ == with_names(base@, texts(names@)),
{
    let mut out = base;
    let mut n: usize = names.len();
    let ghost all = texts(names@);
    proof {
        assert(all.take(n as int) =~= all);
    }
    while n > 0
        invariant
            all == texts(names@),
            n <= names.len(),
            with_names(base@, all) == with_names(out@, all.take(n as int)),
        decreases n,
    {
        n = n - 1;
        proof {
            assert(all.take(n + 1).last() == names@[n as int]@);
            assert(all.take(n + 1).drop_last() =~= all.take(n as int));
        }
        out = join_path(out.as_str(), names[n].as_str());
    }
    out
}

/// Where a path really lies, given what is known to exist.
pub fn canonical_path(path: &str, known: &[ResolvedPath]) -> (r: String)
    ensures
        r@ == canonical_spec(known@, path@),
        known_as(known@, path@) matches Some(c) ==> r@ == c,
{
    match look_up(known, path) {
        Some(c) => return c,
        None => {},
    }
    let mut names: Vec<String> = Vec::new();
    let mut current: String = path.to_owned();
    proof {
        assert(texts(names@) =~= Seq::empty());
    }
    loop
        invariant
            known_as(known@, path@) is None,
            canonical_spec(known@, path@) == resolved_above(
                known@,
                path@,
                current@,
                texts(names@),
            ),
        decreases current@.len(),
    {
        proof {
            lemma_parent_shorter(current@);
        }
        match (parent_path(current.as_str()), file_name(current.as_str())) {
            (Some(parent), Some(name)) => {
                let ghost before = texts(names@);
                names.push(name);
                proof {
                    assert(texts(names@) =~= before.push(name@));
                }
                match look_up(known, parent.as_str()) {
                    Some(c) => {
                        return append_names(c, &names);
                    },
                    None => {
                        current = parent;
                    },
                }
            },
            _ => {
                return path.to_owned();
            },
        }
    }
}

/// The paths whose resolution [`canonical_path`] may ask for, in order.
pub open spec fn candidates_from(current: Seq<char>) -> Seq<Seq<char>>
    decreases current.len(),
{
    match (parent_of(current), file_name_of(current)) {
        (Some(parent), Some(_)) => if parent.len() < current.len() {
            seq![parent] + candidates_from(parent)
        } else {
            Seq::empty()
        },
        _ => Seq::empty(),
    }
}

/// The path and the directories above it, nearest first.
pub fn canonical_candidates(path: &str) -> (r: Vec<String>)
    ensures
        texts(r@) == seq![path@] + candidates_from(path@),
{
    let mut out: Vec<String> = Vec::new();
    out.push(path.to_owned());
    let mut current: String = path.to_owned();
    proof {
        assert(texts(out@) =~= seq![path@]);
    }
    loop
        invariant
            seq![path@] + candidates_from(path@) == texts(out@) + candidates_from(current@),
        decreases current@.len(),
    {
        proof {
            lemma_parent_shorter(current@);
        }
        match (parent_path(current.as_str()), file_name(current.as_str())) {
            (Some(parent), Some(_)) => {
                let ghost before = texts(out@);
                out.push(parent.clone());
                proof {
                    assert(texts(out@) =~= before.push(parent@));
                    assert(before + candidates_from(current@) =~= texts(out@) + candidates_from(
                        parent@,
                    ));
                }
                current = parent;
            },
            _ => {
                proof {
                    assert(texts(out@) + candidates_from(current@) =~= texts(out@));
                }
                return out;
            },
        }
    }
}

/// Whether two sets of resolutions agree on a path.
pub open spec fn agree_on(a: Seq<ResolvedPath>, b: Seq<ResolvedPath>, path: Seq<char>) -> bool {
    known_as(a, path) == known_as(b, path)
}

proof fn lemma_resolved_above_depends(
    a: Seq<ResolvedPath>,
    b: Seq<ResolvedPath>,
    whole: Seq<char>,
    current: Seq<char>,
    names: Seq<Seq<char>>,
)
    requires
        forall|i: int|
            0 <= i < candidates_from(current).len() ==> agree_on(
                a,
                b,
                #[trigger] candidates_from(current)[i],
            ),
    ensures
        resolved_above(a, whole, current, names) == resolved_above(b, whole, current, names),
    decreases current.len(),
{
    lemma_parent_shorter(current);
    match (parent_of(current), file_name_of(current)) {
        (Some(parent), Some(name)) => {
            let c = candidates_from(current);
            assert(c == seq![parent] + candidates_from(parent));
            assert(agree_on(a, b, c[0]));
            assert forall|i: int| 0 <= i < candidates_from(parent).len() implies agree_on(
                a,
                b,
                #[trigger] candidates_from(parent)[i],
            ) by {
                assert(c[i + 1] == candidates_from(parent)[i]);
            }
            lemma_resolved_above_depends(a, b, whole, parent, names.push(name));
        },
        _ => {},
    }
}

/// Where a path really lies depends only on the resolutions of the path itself
/// and of the directories above it.
pub proof fn resolution_asks_only_for_candidates(
    a: Seq<ResolvedPath>,
    b: Seq<ResolvedPath>,
    path: Seq<char>,
)
    requires
        agree_on(a, b, path),
        forall|i: int|
            0 <= i < candidates_from(path).len() ==> agree_on(
                a,
                b,
                #[trigger] candidates_from(path)[i],
            ),
    ensures
        canonical_spec(a, path) == canonical_spec(b, path),
{
    lemma_resolved_above_depends(a, b, path, path, Seq::empty());
}

// ---------------------------------------------------------------------------
// Placing an edit in a repository
// ---------------------------------------------------------------------------

pub open spec fn first_some(a: Option<Seq<char>>, b: Option<Seq<char>>) -> Option<Seq<char>> {
    match a {
        Some(x) => Some(x),
        None => b,
    }
}

/// The path, where it stays inside the repository.
pub open spec fn contained_path(p: Seq<char>) -> Option<Seq<char>> {
    if contained(p) {
        Some(p)
    } else {
        None
    }
}

/// Where in the repository at `root` the file `file` of the project at `project`
/// lies. The project may be the repository, lie inside it, or hold it;
/// `real_project` and `real_root` are where the two really lie.
pub open spec fn place_spec(
    project: Seq<char>,
    file: Seq<char>,
    root: Seq<char>,
    real_project: Seq<char>,
    real_root: Seq<char>,
) -> Option<Seq<char>> {
    if same_path(project, root) || same_path(real_project, real_root) {
        contained_path(file)
    } else {
        match first_some(without_base(project, root), without_base(real_project, real_root)) {
            Some(offset) => contained_path(path_join(offset, file)),
            None => match first_some(
                without_base(root, project),
                without_base(real_root, real_project),
            ) {
                Some(offset) => match without_base(file, offset) {
                    Some(p) => contained_path(p),
                    None => None,
                },
                None => None,
            },
        }
    }
}

fn repository_contained_path(path: String) -> (r: Option<String>)
    ensures
        opt_text(r) == contained_path(path@),
{
    if stays_inside(path.as_str()) {
        Some(path)
    } else {
        None
    }
}

/// Where in a scanned repository an edit's file lies.
pub open spec fn trace_place(
    trace: TraceEdit,
    scan: GitScan,
    real_project: Seq<char>,
    real_root: Seq<char>,
) -> Option<Seq<char>> {
    match trace.repository_path {
        Some(project) => place_spec(
            project@,
            trace.relative_path@,
            scan.repository_root@,
            real_project,
            real_root,
        ),
        None => None,
    }
}

pub fn trace_path_in_scan(
    trace: &TraceEdit,
    scan: &GitScan,
    canonical_repository_path: &str,
    canonical_scan_root: &str,
) -> (r: Option<String>)
    ensures
        opt_text(r) == trace_place(*trace, *scan, canonical_repository_path@, canonical_scan_root@),
{
    let project = match &trace.repository_path {
        Some(p) => p.as_str(),
        None => return None,
    };
    let root = scan.repository_root.as_str();
    let file = trace.relative_path.as_str();
    if paths_equal(project, root) || paths_equal(canonical_repository_path, canonical_scan_root) {
        return repository_contained_path(file.to_owned());
    }
    let inside = match strip_base(project, root) {
        Some(o) => Some(o),
        None => strip_base(canonical_repository_path, canonical_scan_root),
    };
    match inside {
        Some(offset) => return repository_contained_path(join_path(offset.as_str(), file)),
        None => {},
    }
    let around = match strip_base(root, project) {
        Some(o) => Some(o),
        None => strip_base(canonical_scan_root, canonical_repository_path),
    };
    match around {
        Some(offset) => match strip_base(file, offset.as_str()) {
            Some(p) => repository_contained_path(p),
            None => None,
        },
        None => None,
    }
}

// ---------------------------------------------------------------------------
// Delay
// ---------------------------------------------------------------------------

pub open spec fn second_of_day(t: Timestamp) -> int {
    t.secs as int % 86_400
}

/// A leap second that lies between two instants' times of day and in neither's
/// count of seconds.
pub open spec fn leap_adjustment(a: Timestamp, b: Timestamp) -> int {
    if second_of_day(a) > second_of_day(b) {
        if b.nanos >= 1_000_000_000 {
            1
        } else {
            0
        }
    } else if second_of_day(a) < second_of_day(b) {
        if a.nanos >= 1_000_000_000 {
            -1
        } else {
            0
        }
    } else {
        0
    }
}

/// Nanoseconds from `b` to `a`.
pub open spec fn gap_nanos(a: Timestamp, b: Timestamp) -> int {
    (a.secs - b.secs + leap_adjustment(a, b)) * 1_000_000_000 + (a.nanos - b.nanos)
}

fn time_of_day(t: &Timestamp) -> (r: i64)
    requires
        t.wf(),
    ensures
        r == second_of_day(*t),
{
    let shifted: i64 = t.secs + 100_000_000 * 86_400;
    proof {
        let s = t.secs as int;
        assert((s + 100_000_000 * 86_400) % 86_400 == s % 86_400) by (nonlinear_arith);
    }
    shifted % 86_400
}

fn nanos_between(a: &Timestamp, b: &Timestamp) -> (r: i128)
    requires
        a.wf(),
        b.wf(),
    ensures
        r == gap_nanos(*a, *b),
        -20_000_000_000_000 * 1_000_000_000 <= r <= 20_000_000_000_000 * 1_000_000_000,
{
    let x: i64 = time_of_day(a);
    let y: i64 = time_of_day(b);
    let adjust: i64 = if x > y {
        if b.nanos >= 1_000_000_000 {
            1
        } else {
            0
        }
    } else if x < y {
        if a.nanos >= 1_000_000_000 {
            -1
        } else {
            0
        }
    } else {
        0
    };
    let secs: i64 = a.secs - b.secs + adjust;
    secs as i128 * 1_000_000_000 + (a.nanos as i128 - b.nanos as i128)
}

pub open spec fn min_delay(a: Option<int>, b: Option<int>) -> Option<int> {
    match (a, b) {
        (Some(x), Some(y)) => Some(if x <= y {
            x
        } else {
            y
        }),
        (Some(x), None) => Some(x),
        (None, y) => y,
    }
}

/// The delay in whole seconds from an edit to an instant, where the instant is
/// not before it, not even by a fraction of a second.
pub open spec fn delay_to(written: Timestamp, edited: Timestamp) -> Option<int> {
    if gap_nanos(written, edited) >= 0 {
        Some(gap_nanos(written, edited) / 1_000_000_000)
    } else {
        None
    }
}

fn delay_between(written: &Timestamp, edited: &Timestamp) -> (r: Option<i64>)
    requires
        written.wf(),
        edited.wf(),
    ensures
        match r {
            Some(d) => delay_to(*written, *edited) == Some(d as int),
            None => delay_to(*written, *edited) is None,
        },
{
    let gap: i128 = nanos_between(written, edited);
    if gap >= 0 {
        Some((gap / 1_000_000_000) as i64)
    } else {
        None
    }
}

/// How long after an edit the commit was written: the shorter delay of its
/// author date and its committer date that is not negative. Nothing where the
/// commit is older than the edit.
pub open spec fn delay_spec(commit: GitCommitChange, edited: Timestamp) -> Option<int> {
    min_delay(
        match commit.authored_at {
            Some(t) => delay_to(t, edited),
            None => None,
        },
        delay_to(commit.committed_at, edited),
    )
}

pub open spec fn commit_times_wf(c: GitCommitChange) -> bool {
    c.committed_at.wf() && (c.authored_at matches Some(t) ==> t.wf())
}

pub fn commit_delay_since_trace(commit: &GitCommitChange, trace_time: Timestamp) -> (r: Option<i64>)
    requires
        commit_times_wf(*commit),
        trace_time.wf(),
    ensures
        match r {
            Some(d) => delay_spec(*commit, trace_time) == Some(d as int),
            None => delay_spec(*commit, trace_time) is None,
        },
{
    let committed: Option<i64> = delay_between(&commit.committed_at, &trace_time);
    let authored: Option<i64> = match &commit.authored_at {
        Some(t) => delay_between(t, &trace_time),
        None => None,
    };
    match (authored, committed) {
        (Some(a), Some(c)) => if c < a {
            Some(c)
        } else {
            Some(a)
        },
        (Some(a), None) => Some(a),
        (None, c) => c,
    }
}

// ---------------------------------------------------------------------------
// Distinct lines
// ---------------------------------------------------------------------------

/// All changed lines of an edit, the added ones first.
pub open spec fn changed_fingerprints(trace: TraceEdit) -> Seq<Seq<char>> {
    texts(trace.added_line_fingerprints@) + texts(trace.deleted_line_fingerprints@)
}

/// Whether an edit has enough distinct changed lines to single out a commit.
pub open spec fn distinctive(trace: TraceEdit) -> bool {
    changed_fingerprints(trace).to_set().len() >= MIN_ATTRIBUTION_DISTINCT_FINGERPRINTS
}

fn holds_text(v: &[String], t: &str) -> (r: bool)
    ensures
        r == texts(v@).contains(t@),
{
    let mut i: usize = 0;
    while i < v.len()
        invariant
            i <= v.len(),
            forall|k: int| 0 <= k < i ==> (#[trigger] v@[k])@ != t@,
        decreases v.len() - i,
    {
        if same_text(v[i].as_str(), t) {
            proof {
                assert(texts(v@)[i as int] == t@);
            }
            return true;
        }
        i = i + 1;
    }
    proof {
        assert forall|k: int| 0 <= k < texts(v@).len() implies texts(v@)[k] != t@ by {
            assert(texts(v@)[k] == v@[k]@);
        }
    }
    false
}

fn add_distinct(seen: &mut Vec<String>, items: &[String], Ghost(before): Ghost<Seq<Seq<char>>>)
    requires
        texts(old(seen)@).no_duplicates(),
        texts(old(seen)@).to_set() =~= before.to_set(),
    ensures
        texts(final(seen)@).no_duplicates(),
        texts(final(seen)@).to_set() =~= (before + texts(items@)).to_set(),
{
    let ghost all = texts(items@);
    let mut i: usize = 0;
    proof {
        assert(before + all.take(0) =~= before);
    }
    while i < items.len()
        invariant
            all == texts(items@),
            i <= items.len(),
            texts(seen@).no_duplicates(),
            texts(seen@).to_set() =~= (before + all.take(i as int)).to_set(),
        decreases items.len() - i,
    {
        let ghost now = texts(seen@);
        let ghost wide = before + all.take(i as int);
        let ghost wider = before + all.take(i + 1);
        proof {
            assert(wider =~= wide.push(items@[i as int]@));
            assert forall|x: Seq<char>| wider.to_set().contains(x) == (wide.to_set().contains(x)
                || x == items@[i as int]@) by {
                if wide.contains(x) {
                    let k = choose|k: int| 0 <= k < wide.len() && wide[k] == x;
                    assert(wider[k] == x);
                }
                if x == items@[i as int]@ {
                    assert(wider[wide.len() as int] == x);
                }
                if wider.contains(x) {
                    let k = choose|k: int| 0 <= k < wider.len() && wider[k] == x;
                    if k < wide.len() {
                        assert(wide[k] == x);
                    }
                }
            }
        }
        if !holds_text(seen, items[i].as_str()) {
            seen.push(items[i].clone());
            proof {
                let then = texts(seen@);
                assert(then =~= now.push(items@[i as int]@));
                assert forall|x: Seq<char>| then.to_set().contains(x) == (now.to_set().contains(x)
                    || x == items@[i as int]@) by {
                    if now.contains(x) {
                        let k = choose|k: int| 0 <= k < now.len() && now[k] == x;
                        assert(then[k] == x);
                    }
                    if x == items@[i as int]@ {
                        assert(then[now.len() as int] == x);
                    }
                    if then.contains(x) {
                        let k = choose|k: int| 0 <= k < then.len() && then[k] == x;
                        if k < now.len() {
                            assert(now[k] == x);
                        }
                    }
                }
            }
        }
        i = i + 1;
    }
    proof {
        assert(all.take(i as int) =~= all);
    }
}

fn is_distinctive(trace: &TraceEdit) -> (r: bool)
    ensures
        r == distinctive(*trace),
{
    let mut seen: Vec<String> = Vec::new();
    proof {
        assert(texts(seen@) =~= Seq::empty());
        assert(texts(seen@).to_set() =~= Seq::<Seq<char>>::empty().to_set());
    }
    add_distinct(&mut seen, &trace.added_line_fingerprints, Ghost(Seq::empty()));
    proof {
        assert(Seq::<Seq<char>>::empty() + texts(trace.added_line_fingerprints@) =~= texts(
            trace.added_line_fingerprints@,
        ));
    }
    add_distinct(
        &mut seen,
        &trace.deleted_line_fingerprints,
        Ghost(texts(trace.added_line_fingerprints@)),
    );
    proof {
        texts(seen@).unique_seq_to_set();
        assert(texts(seen@).to_set() =~= changed_fingerprints(*trace).to_set());
        assert(texts(seen@).len() == seen@.len());
    }
    seen.len() >= MIN_ATTRIBUTION_DISTINCT_FINGERPRINTS
}

// ---------------------------------------------------------------------------
// Candidates
// ---------------------------------------------------------------------------

/// A file of a commit that an edit may have become.
#[verifier::ext_equal]
pub struct Candidate {
    /// Whether the confidence is high rather than medium.
    pub high: bool,
    /// The share of the edit's changed lines that the file holds in order.
    pub overlap: (int, int),
    pub commit: GitCommitChange,
    pub file: GitFileChange,
}

pub open spec fn added_matches(trace: TraceEdit, file: GitFileChange) -> int {
    ordered_overlap(
        texts(trace.added_line_fingerprints@),
        texts(file.added_line_fingerprints@),
    )
}

pub open spec fn deleted_matches(trace: TraceEdit, file: GitFileChange) -> int {
    ordered_overlap(
        texts(trace.deleted_line_fingerprints@),
        texts(file.deleted_line_fingerprints@),
    )
}

/// How many changed lines an edit has.
pub open spec fn line_total(trace: TraceEdit) -> int {
    (trace.added_line_fingerprints@.len() + trace.deleted_line_fingerprints@.len()) as int
}

/// The share of an edit's added lines that a file holds in order.
pub open spec fn added_overlap(trace: TraceEdit, file: GitFileChange) -> (int, int) {
    overlap_ratio(added_matches(trace, file), trace.added_line_fingerprints@.len() as int)
}

/// The share of an edit's deleted lines that a file holds in order.
pub open spec fn deleted_overlap(trace: TraceEdit, file: GitFileChange) -> (int, int) {
    overlap_ratio(deleted_matches(trace, file), trace.deleted_line_fingerprints@.len() as int)
}

/// The share of all an edit's changed lines that a file holds in order.
pub open spec fn line_overlap(trace: TraceEdit, file: GitFileChange) -> (int, int) {
    weighted_share(
        added_overlap(trace, file),
        trace.added_line_fingerprints@.len() as int,
        deleted_overlap(trace, file),
        trace.deleted_line_fingerprints@.len() as int,
    )
}

/// How strongly a file of a commit bears out an edit: with high confidence where
/// the commit came within a week and holds every changed line in order, with
/// medium confidence where it came within thirty days and holds at least four
/// fifths of them, otherwise not at all. The shares are rounded as `binary64`
/// rounds.
pub open spec fn strength_spec(
    trace: TraceEdit,
    edited: Timestamp,
    commit: GitCommitChange,
    file: GitFileChange,
) -> Option<(bool, (int, int))> {
    match delay_spec(commit, edited) {
        None => None,
        Some(delay) => {
            let overlap = line_overlap(trace, file);
            if delay > MAX_DELAY_SECONDS {
                None
            } else if delay <= HIGH_DELAY_SECONDS && added_overlap(trace, file) == one()
                && deleted_overlap(trace, file) == one() {
                Some((true, overlap))
            } else if !below(overlap, four_fifths()) {
                Some((false, overlap))
            } else {
                None
            }
        },
    }
}

/// The candidates among the first `n` files of a commit, for an edit that lies
/// at `place` in the repository.
pub open spec fn file_candidates(
    trace: TraceEdit,
    edited: Timestamp,
    place: Seq<char>,
    commit: GitCommitChange,
    n: int,
) -> Seq<Candidate>
    decreases n,
{
    if n <= 0 {
        Seq::empty()
    } else {
        let before = file_candidates(trace, edited, place, commit, n - 1);
        let file = commit.files@[n - 1];
        if same_path(file.relative_path@, place) {
            match strength_spec(trace, edited, commit, file) {
                Some(s) => before.push(Candidate { high: s.0, overlap: s.1, commit, file }),
                None => before,
            }
        } else {
            before
        }
    }
}

/// The candidates among the first `n` commits. A merge replays what its parents
/// already hold and is no candidate.
pub open spec fn commit_candidates(
    trace: TraceEdit,
    edited: Timestamp,
    place: Seq<char>,
    commits: Seq<GitCommitChange>,
    n: int,
) -> Seq<Candidate>
    decreases n,
{
    if n <= 0 {
        Seq::empty()
    } else {
        let before = commit_candidates(trace, edited, place, commits, n - 1);
        let commit = commits[n - 1];
        if commit.parent_count > 1 {
            before
        } else {
            before + file_candidates(trace, edited, place, commit, commit.files@.len() as int)
        }
    }
}

/// Where a scan places an edit, by what is known of where paths really lie.
pub open spec fn known_place(trace: TraceEdit, scan: GitScan, known: Seq<ResolvedPath>) -> Option<
    Seq<char>,
> {
    match trace.repository_path {
        Some(project) => trace_place(
            trace,
            scan,
            canonical_spec(known, project@),
            canonical_spec(known, scan.repository_root@),
        ),
        None => None,
    }
}

/// The candidates in the first `n` scans.
pub open spec fn scan_candidates(
    trace: TraceEdit,
    edited: Timestamp,
    scans: Seq<GitScan>,
    known: Seq<ResolvedPath>,
    n: int,
) -> Seq<Candidate>
    decreases n,
{
    if n <= 0 {
        Seq::empty()
    } else {
        let before = scan_candidates(trace, edited, scans, known, n - 1);
        match known_place(trace, scans[n - 1], known) {
            Some(place) => before + commit_candidates(
                trace,
                edited,
                place,
                scans[n - 1].commits@,
                scans[n - 1].commits@.len() as int,
            ),
            None => before,
        }
    }
}

pub open spec fn weaker(a: Candidate, b: Candidate) -> bool {
    (!a.high && b.high) || (a.high == b.high && below(a.overlap, b.overlap))
}

/// Whether candidate `b` is the first of the strongest ones.
pub open spec fn first_strongest(c: Seq<Candidate>, b: int) -> bool {
    &&& 0 <= b < c.len()
    &&& forall|k: int| 0 <= k < c.len() ==> !weaker(c[b], #[trigger] c[k])
    &&& forall|k: int| 0 <= k < b ==> weaker(#[trigger] c[k], c[b])
}

/// Whether a candidate as strong as `b` is of another commit.
pub open spec fn has_rival(c: Seq<Candidate>, b: int) -> bool {
    exists|k: int|
        0 <= k < c.len() && !weaker(#[trigger] c[k], c[b])
            && c[k].commit.deduplication_id@ != c[b].commit.deduplication_id@
}

/// The candidate that an edit is attributed to: the first of the strongest ones,
/// where all of them are of one commit.
pub open spec fn chosen(c: Seq<Candidate>) -> Option<Candidate> {
    if c.len() == 0 {
        None
    } else {
        let b = choose|b: int| first_strongest(c, b);
        if has_rival(c, b) {
            None
        } else {
            Some(c[b])
        }
    }
}

/// The candidate that an edit is attributed to, if any.
pub open spec fn attribution(
    trace: TraceEdit,
    scans: Seq<GitScan>,
    known: Seq<ResolvedPath>,
) -> Option<Candidate> {
    match trace.occurred_at {
        Some(edited) => if distinctive(trace) {
            chosen(scan_candidates(trace, edited, scans, known, scans.len() as int))
        } else {
            None
        },
        None => None,
    }
}

/// Whether one of the pairs is of the edit `id`.
pub open spec fn has_edit(pairs: Seq<(TraceEdit, Candidate)>, id: Seq<char>) -> bool {
    exists|k: int| 0 <= k < pairs.len() && (#[trigger] pairs[k]).0.trace_edit_id@ == id
}

/// The attributed edits among the first `n`, each identifier once.
pub open spec fn attributions(
    traces: Seq<TraceEdit>,
    scans: Seq<GitScan>,
    known: Seq<ResolvedPath>,
    n: int,
) -> Seq<(TraceEdit, Candidate)>
    decreases n,
{
    if n <= 0 {
        Seq::empty()
    } else {
        let before = attributions(traces, scans, known, n - 1);
        let trace = traces[n - 1];
        match attribution(trace, scans, known) {
            Some(c) => if has_edit(before, trace.trace_edit_id@) {
                before
            } else {
                before.push((trace, c))
            },
            None => before,
        }
    }
}

pub open spec fn match_id_spec(trace: TraceEdit, c: Candidate) -> Seq<char> {
    hash_of(
        key_of(
            seq![
                "code-match.v1"@,
                trace.trace_edit_id@,
                c.commit.deduplication_id@,
                c.file.relative_path@,
            ],
        ),
    )
}

/// Whether `m` records that the edit became the candidate.
pub open spec fn is_match(m: CodeChangeMatch, trace: TraceEdit, c: Candidate) -> bool {
    &&& m.match_id@ == match_id_spec(trace, c)
    &&& m.trace_edit_id@ == trace.trace_edit_id@
    &&& m.commit_deduplication_id@ == c.commit.deduplication_id@
    &&& m.commit_hash@ == c.commit.commit_hash@
    &&& m.repository_hash@ == c.commit.repository_hash@
    &&& m.relative_path@ == c.file.relative_path@
    &&& m.committed_at == c.commit.committed_at
    &&& m.confidence == if c.high {
        AttributionConfidence::High
    } else {
        AttributionConfidence::Medium
    }
    &&& m.ordered_line_overlap@ == c.overlap
    &&& m.counts == trace.counts
}

pub open spec fn are_matches(m: Seq<CodeChangeMatch>, pairs: Seq<(TraceEdit, Candidate)>) -> bool {
    &&& m.len() == pairs.len()
    &&& forall|i: int| 0 <= i < m.len() ==> is_match(#[trigger] m[i], pairs[i].0, pairs[i].1)
}

/// Whether all times of the scans are instants.
pub open spec fn scans_wf(scans: Seq<GitScan>) -> bool {
    forall|i: int, j: int|
        0 <= i < scans.len() && 0 <= j < scans[i].commits@.len() ==> commit_times_wf(
            #[trigger] scans[i].commits@[j],
        )
}

pub open spec fn traces_wf(traces: Seq<TraceEdit>) -> bool {
    forall|i: int|
        0 <= i < traces.len() ==> ((#[trigger] traces[i]).occurred_at matches Some(t) ==> t.wf())
}

proof fn lemma_first_strongest_unique(c: Seq<Candidate>, a: int, b: int)
    requires
        first_strongest(c, a),
        first_strongest(c, b),
    ensures
        a == b,
{
    if a < b {
        assert(weaker(c[a], c[b]));
    }
    if b < a {
        assert(weaker(c[b], c[a]));
    }
}

/// Whether `best` and `ambiguous` say which of the candidates read so far is
/// chosen.
spec fn tracks(c: Seq<Candidate>, best: Option<Candidate>, ambiguous: bool) -> bool {
    match best {
        None => c.len() == 0 && !ambiguous,
        Some(x) => exists|b: int| #[trigger]
            first_strongest(c, b) && c[b] == x && ambiguous == has_rival(c, b),
    }
}

spec fn better(best: Option<Candidate>, y: Candidate) -> bool {
    match best {
        None => true,
        Some(x) => weaker(x, y),
    }
}

spec fn rivals(best: Option<Candidate>, y: Candidate) -> bool {
    match best {
        None => false,
        Some(x) => !weaker(y, x) && y.commit.deduplication_id@ != x.commit.deduplication_id@,
    }
}

proof fn lemma_tracks_step(c: Seq<Candidate>, best: Option<Candidate>, ambiguous: bool, y: Candidate)
    requires
        tracks(c, best, ambiguous),
    ensures
        tracks(
            c.push(y),
            if better(best, y) {
                Some(y)
            } else {
                best
            },
            if better(best, y) {
                false
            } else {
                ambiguous || rivals(best, y)
            },
        ),
{
    let d = c.push(y);
    match best {
        None => {
            assert(first_strongest(d, 0));
            assert(!has_rival(d, 0));
        },
        Some(x) => {
            let b = choose|b: int| #[trigger]
                first_strongest(c, b) && c[b] == x && ambiguous == has_rival(c, b);
            assert(d[b] == c[b]);
            if weaker(x, y) {
                let n = c.len() as int;
                assert forall|k: int| 0 <= k < n implies weaker(#[trigger] d[k], d[n]) by {
                    assert(!weaker(c[b], c[k]));
                }
                assert(first_strongest(d, n));
                assert(!has_rival(d, n));
            } else {
                assert forall|k: int| 0 <= k < d.len() implies !weaker(d[b], #[trigger] d[k]) by {
                    if k < c.len() {
                        assert(d[k] == c[k]);
                    }
                }
                assert forall|k: int| 0 <= k < b implies weaker(#[trigger] d[k], d[b]) by {
                    assert(d[k] == c[k]);
                }
                assert(first_strongest(d, b));
                if has_rival(c, b) {
                    let k = choose|k: int|
                        0 <= k < c.len() && !weaker(#[trigger] c[k], c[b])
                            && c[k].commit.deduplication_id@ != c[b].commit.deduplication_id@;
                    assert(d[k] == c[k]);
                    assert(has_rival(d, b));
                }
                if rivals(best, y) {
                    assert(d[c.len() as int] == y);
                    assert(has_rival(d, b));
                }
                if has_rival(d, b) && !has_rival(c, b) {
                    let k = choose|k: int|
                        0 <= k < d.len() && !weaker(#[trigger] d[k], d[b])
                            && d[k].commit.deduplication_id@ != d[b].commit.deduplication_id@;
                    if k < c.len() {
                        assert(d[k] == c[k]);
                    }
                    assert(rivals(best, y));
                }
            }
        },
    }
}

proof fn lemma_tracks_chosen(c: Seq<Candidate>, best: Option<Candidate>, ambiguous: bool)
    requires
        tracks(c, best, ambiguous),
    ensures
        chosen(c) == if ambiguous {
            None
        } else {
            best
        },
{
    match best {
        None => {},
        Some(x) => {
            let b = choose|b: int| #[trigger]
                first_strongest(c, b) && c[b] == x && ambiguous == has_rival(c, b);
            let d = choose|d: int| first_strongest(c, d);
            lemma_first_strongest_unique(c, b, d);
        },
    }
}

/// The strongest candidate read so far.
struct Best<'a> {
    found: Option<(bool, Binary64, &'a GitCommitChange, &'a GitFileChange)>,
    ambiguous: bool,
}

impl<'a> Best<'a> {
    spec fn candidate(self) -> Option<Candidate> {
        match self.found {
            Some(f) => Some(
                Candidate { high: f.0, overlap: f.1@, commit: *f.2, file: *f.3 },
            ),
            None => None,
        }
    }

    spec fn of(self, c: Seq<Candidate>) -> bool {
        tracks(c, self.candidate(), self.ambiguous)
    }

    fn consider(
        self,
        high: bool,
        overlap: Binary64,
        commit: &'a GitCommitChange,
        file: &'a GitFileChange,
        Ghost(c): Ghost<Seq<Candidate>>,
    ) -> (r: Best<'a>)
        requires
            self.of(c),
        ensures
            r.of(
                c.push(Candidate { high, overlap: overlap@, commit: *commit, file: *file }),
            ),
    {
        proof {
            lemma_tracks_step(
                c,
                self.candidate(),
                self.ambiguous,
                Candidate { high, overlap: overlap@, commit: *commit, file: *file },
            );
        }
        match self.found {
            None => Best { found: Some((high, overlap, commit, file)), ambiguous: false },
            Some(f) => {
                if (!f.0 && high) || (f.0 == high && less(f.1, overlap)) {
                    Best { found: Some((high, overlap, commit, file)), ambiguous: false }
                } else {
                    let as_strong = f.0 == high && !less(overlap, f.1);
                    let rival = as_strong && !same_text(
                        commit.deduplication_id.as_str(),
                        f.2.deduplication_id.as_str(),
                    );
                    Best { found: Some(f), ambiguous: self.ambiguous || rival }
                }
            },
        }
    }
}

fn candidate_strength(
    trace: &TraceEdit,
    edited: Timestamp,
    commit: &GitCommitChange,
    file: &GitFileChange,
) -> (r: Option<(bool, Binary64)>)
    requires
        edited.wf(),
        commit_times_wf(*commit),
    ensures
        match r {
            Some(s) => strength_spec(*trace, edited, *commit, *file) == Some((s.0, s.1@)),
            None => strength_spec(*trace, edited, *commit, *file) is None,
        },
{
    let delay: i64 = match commit_delay_since_trace(commit, edited) {
        Some(d) => d,
        None => return None,
    };
    if delay > MAX_DELAY_SECONDS {
        return None;
    }
    let added = ordered_overlap_ratio(
        &trace.added_line_fingerprints,
        &file.added_line_fingerprints,
    );
    let deleted = ordered_overlap_ratio(
        &trace.deleted_line_fingerprints,
        &file.deleted_line_fingerprints,
    );
    let overlap = weighted_overlap(
        added,
        trace.added_line_fingerprints.len(),
        deleted,
        trace.deleted_line_fingerprints.len(),
    );
    let whole = Binary64 { mantissa: LEAST_MANTISSA, exponent: -52 };
    let enough = Binary64 { mantissa: 0x19_9999_9999_999A, exponent: -53 };
    proof {
        assert(whole@ == one());
        assert(added@ == one() <==> added == whole);
        assert(deleted@ == one() <==> deleted == whole);
    }
    if delay <= HIGH_DELAY_SECONDS && added == whole && deleted == whole {
        Some((true, overlap))
    } else if !less(overlap, enough) {
        Some((false, overlap))
    } else {
        None
    }
}

fn consider_commit<'a>(
    best: Best<'a>,
    trace: &TraceEdit,
    edited: Timestamp,
    place: &str,
    commit: &'a GitCommitChange,
    Ghost(c): Ghost<Seq<Candidate>>,
) -> (r: Best<'a>)
    requires
        best.of(c),
        edited.wf(),
        commit_times_wf(*commit),
    ensures
        r.of(c + file_candidates(*trace, edited, place@, *commit, commit.files@.len() as int)),
{
    let mut out = best;
    let mut i: usize = 0;
    proof {
        assert(c + file_candidates(*trace, edited, place@, *commit, 0) =~= c);
    }
    while i < commit.files.len()
        invariant
            edited.wf(),
            commit_times_wf(*commit),
            i <= commit.files.len(),
            out.of(c + file_candidates(*trace, edited, place@, *commit, i as int)),
        decreases commit.files.len() - i,
    {
        let file = &commit.files[i];
        let ghost before = c + file_candidates(*trace, edited, place@, *commit, i as int);
        let ghost after = c + file_candidates(*trace, edited, place@, *commit, i + 1);
        if paths_equal(file.relative_path.as_str(), place) {
            match candidate_strength(trace, edited, commit, file) {
                Some((high, overlap)) => {
                    out = out.consider(high, overlap, commit, file, Ghost(before));
                    proof {
                        assert(after =~= before.push(
                            Candidate {
                                high,
                                overlap: overlap@,
                                commit: *commit,
                                file: *file,
                            },
                        ));
                    }
                },
                None => {},
            }
        }
        i = i + 1;
    }
    out
}

fn consider_scan<'a>(
    best: Best<'a>,
    trace: &TraceEdit,
    edited: Timestamp,
    place: &str,
    commits: &'a [GitCommitChange],
    Ghost(c): Ghost<Seq<Candidate>>,
) -> (r: Best<'a>)
    requires
        best.of(c),
        edited.wf(),
        forall|j: int| 0 <= j < commits@.len() ==> commit_times_wf(#[trigger] commits@[j]),
    ensures
        r.of(c + commit_candidates(*trace, edited, place@, commits@, commits@.len() as int)),
{
    let mut out = best;
    let mut i: usize = 0;
    proof {
        assert(c + commit_candidates(*trace, edited, place@, commits@, 0) =~= c);
    }
    while i < commits.len()
        invariant
            edited.wf(),
            forall|j: int| 0 <= j < commits@.len() ==> commit_times_wf(#[trigger] commits@[j]),
            i <= commits.len(),
            out.of(c + commit_candidates(*trace, edited, place@, commits@, i as int)),
        decreases commits.len() - i,
    {
        let commit = &commits[i];
        let ghost before = c + commit_candidates(*trace, edited, place@, commits@, i as int);
        if commit.parent_count <= 1 {
            out = consider_commit(out, trace, edited, place, commit, Ghost(before));
            proof {
                let files = file_candidates(
                    *trace,
                    edited,
                    place@,
                    *commit,
                    commit.files@.len() as int,
                );
                assert(c + commit_candidates(*trace, edited, place@, commits@, i + 1) =~= before
                    + files);
            }
        }
        i = i + 1;
    }
    out
}

/// Where the roots of the scans really lie, in order.
pub fn canonical_scan_roots(git_scans: &[GitScan], known: &[ResolvedPath]) -> (r: Vec<String>)
    ensures
        r@.len() == git_scans@.len(),
        forall|i: int|
            0 <= i < r@.len() ==> (#[trigger] r@[i])@ == canonical_spec(
                known@,
                git_scans@[i].repository_root@,
            ),
{
    let mut out: Vec<String> = Vec::new();
    let mut i: usize = 0;
    while i < git_scans.len()
        invariant
            i <= git_scans.len(),
            out.len() == i,
            forall|k: int|
                0 <= k < i ==> (#[trigger] out@[k])@ == canonical_spec(
                    known@,
                    git_scans@[k].repository_root@,
                ),
        decreases git_scans.len() - i,
    {
        out.push(canonical_path(git_scans[i].repository_root.as_str(), known));
        i = i + 1;
    }
    out
}

fn best_candidate<'a>(
    trace: &TraceEdit,
    edited: Timestamp,
    git_scans: &'a [GitScan],
    scan_roots: &[String],
    known: &[ResolvedPath],
) -> (r: Best<'a>)
    requires
        edited.wf(),
        scans_wf(git_scans@),
        scan_roots@.len() == git_scans@.len(),
        forall|i: int|
            0 <= i < scan_roots@.len() ==> (#[trigger] scan_roots@[i])@ == canonical_spec(
                known@,
                git_scans@[i].repository_root@,
            ),
    ensures
        r.of(scan_candidates(*trace, edited, git_scans@, known@, git_scans@.len() as int)),
{
    let mut best = Best { found: None, ambiguous: false };
    let project = match &trace.repository_path {
        Some(p) => p.as_str(),
        None => {
            proof {
                lemma_no_project_no_candidates(
                    *trace,
                    edited,
                    git_scans@,
                    known@,
                    git_scans@.len() as int,
                );
            }
            return best;
        },
    };
    let real_project = canonical_path(project, known);
    let mut i: usize = 0;
    while i < git_scans.len()
        invariant
            edited.wf(),
            scans_wf(git_scans@),
            scan_roots@.len() == git_scans@.len(),
            forall|k: int|
                0 <= k < scan_roots@.len() ==> (#[trigger] scan_roots@[k])@ == canonical_spec(
                    known@,
                    git_scans@[k].repository_root@,
                ),
            trace.repository_path matches Some(p) && real_project@ == canonical_spec(known@, p@),
            i <= git_scans.len(),
            best.of(scan_candidates(*trace, edited, git_scans@, known@, i as int)),
        decreases git_scans.len() - i,
    {
        let ghost before = scan_candidates(*trace, edited, git_scans@, known@, i as int);
        let scan = &git_scans[i];
        match trace_path_in_scan(trace, scan, real_project.as_str(), scan_roots[i].as_str()) {
            Some(place) => {
                proof {
                    assert forall|j: int| 0 <= j < scan.commits@.len() implies commit_times_wf(
                        #[trigger] scan.commits@[j],
                    ) by {
                        assert(commit_times_wf(git_scans@[i as int].commits@[j]));
                    }
                }
                best =
                consider_scan(
                    best,
                    trace,
                    edited,
                    place.as_str(),
                    &scan.commits,
                    Ghost(before),
                );
            },
            None => {},
        }
        i = i + 1;
    }
    best
}

proof fn lemma_no_project_no_candidates(
    trace: TraceEdit,
    edited: Timestamp,
    scans: Seq<GitScan>,
    known: Seq<ResolvedPath>,
    n: int,
)
    requires
        trace.repository_path is None,
    ensures
        scan_candidates(trace, edited, scans, known, n).len() == 0,
    decreases n,
{
    if n > 0 {
        lemma_no_project_no_candidates(trace, edited, scans, known, n - 1);
    }
}

fn build_match(
    trace: &TraceEdit,
    high: bool,
    overlap: Binary64,
    commit: &GitCommitChange,
    file: &GitFileChange,
) -> (r: CodeChangeMatch)
    requires
    ensures
        is_match(
            r,
            *trace,
            Candidate { high, overlap: overlap@, commit: *commit, file: *file },
        ),
{
    let parts: [&str; 4] = [
        "code-match.v1",
        trace.trace_edit_id.as_str(),
        commit.deduplication_id.as_str(),
        file.relative_path.as_str(),
    ];
    proof {
        assert(strs(parts@) =~= seq![
            "code-match.v1"@,
            trace.trace_edit_id@,
            commit.deduplication_id@,
            file.relative_path@,
        ]);
    }
    let key = key_text(&parts);
    CodeChangeMatch {
        match_id: hash_text(key.as_str()),
        trace_edit_id: trace.trace_edit_id.clone(),
        commit_deduplication_id: commit.deduplication_id.clone(),
        commit_hash: commit.commit_hash.clone(),
        repository_hash: commit.repository_hash.clone(),
        relative_path: file.relative_path.clone(),
        committed_at: commit.committed_at,
        confidence: if high {
            AttributionConfidence::High
        } else {
            AttributionConfidence::Medium
        },
        ordered_line_overlap: overlap,
        counts: trace.counts,
    }
}

fn already_matched(
    matches: &[CodeChangeMatch],
    id: &str,
    Ghost(pairs): Ghost<Seq<(TraceEdit, Candidate)>>,
) -> (r: bool)
    requires
        are_matches(matches@, pairs),
    ensures
        r == has_edit(pairs, id@),
{
    let mut i: usize = 0;
    while i < matches.len()
        invariant
            are_matches(matches@, pairs),
            i <= matches.len(),
            forall|k: int| 0 <= k < i ==> (#[trigger] pairs[k]).0.trace_edit_id@ != id@,
        decreases matches.len() - i,
    {
        proof {
            assert(is_match(matches@[i as int], pairs[i as int].0, pairs[i as int].1));
        }
        if same_text(matches[i].trace_edit_id.as_str(), id) {
            return true;
        }
        i = i + 1;
    }
    false
}

/// The edits that became part of a commit, with the commit each became. `known`
/// says where the projects and the repositories really lie.
pub fn match_trace_edits_to_commits(
    trace_edits: &[TraceEdit],
    git_scans: &[GitScan],
    known: &[ResolvedPath],
) -> (r: Vec<CodeChangeMatch>)
    requires
        traces_wf(trace_edits@),
        scans_wf(git_scans@),
    ensures
        are_matches(
            r@,
            attributions(trace_edits@, git_scans@, known@, trace_edits@.len() as int),
        ),
{
    let scan_roots = canonical_scan_roots(git_scans, known);
    let mut matches: Vec<CodeChangeMatch> = Vec::new();
    let mut i: usize = 0;
    while i < trace_edits.len()
        invariant
            traces_wf(trace_edits@),
            scans_wf(git_scans@),
            scan_roots@.len() == git_scans@.len(),
            forall|k: int|
                0 <= k < scan_roots@.len() ==> (#[trigger] scan_roots@[k])@ == canonical_spec(
                    known@,
                    git_scans@[k].repository_root@,
                ),
            i <= trace_edits.len(),
            are_matches(
                matches@,
                attributions(trace_edits@, git_scans@, known@, i as int),
            ),
        decreases trace_edits.len() - i,
    {
        let trace = &trace_edits[i];
        let ghost before = attributions(trace_edits@, git_scans@, known@, i as int);
        proof {
        }
        match trace.occurred_at {
            Some(edited) => {
                if is_distinctive(trace) {
                    let best = best_candidate(trace, edited, git_scans, &scan_roots, known);
                    proof {
                        lemma_tracks_chosen(
                            scan_candidates(
                                *trace,
                                edited,
                                git_scans@,
                                known@,
                                git_scans@.len() as int,
                            ),
                            best.candidate(),
                            best.ambiguous,
                        );
                    }
                    match best.found {
                        Some(f) => {
                            if !best.ambiguous && !already_matched(
                                &matches,
                                trace.trace_edit_id.as_str(),
                                Ghost(before),
                            ) {
                                let m = build_match(trace, f.0, f.1, f.2, f.3);
                                matches.push(m);
                            }
                        },
                        None => {},
                    }
                }
            },
            None => {},
        }
        i = i + 1;
    }
    matches
}

// ---------------------------------------------------------------------------
// The repository of an edit
// ---------------------------------------------------------------------------

/// How many parts a path has, the root counted.
pub open spec fn part_count(path: Seq<char>) -> int {
    components(path).len() + if rooted(path) {
        1int
    } else {
        0int
    }
}

/// The last of the deepest repositories among the first `n` scans that hold the
/// edit's file.
pub open spec fn owner_upto(
    trace: TraceEdit,
    scans: Seq<GitScan>,
    known: Seq<ResolvedPath>,
    n: int,
) -> Option<int>
    decreases n,
{
    if n <= 0 {
        None
    } else {
        let before = owner_upto(trace, scans, known, n - 1);
        if known_place(trace, scans[n - 1], known) is None {
            before
        } else {
            match before {
                Some(k) => if part_count(scans[n - 1].repository_root@) >= part_count(
                    scans[k].repository_root@,
                ) {
                    Some(n - 1)
                } else {
                    before
                },
                None => Some(n - 1),
            }
        }
    }
}

/// The hash of the deepest repository that holds an edit's file.
pub open spec fn owner_hash(trace: TraceEdit, scans: Seq<GitScan>, known: Seq<ResolvedPath>) -> Option<
    Seq<char>,
> {
    match owner_upto(trace, scans, known, scans.len() as int) {
        Some(k) => Some(scans[k].repository_hash@),
        None => None,
    }
}

fn count_parts(path: &str) -> (r: u128)
    ensures
        r == part_count(path@),
{
    let parts = path_components(path);
    proof {
        assert(components(path@).len() == parts@.len());
    }
    let n: u128 = parts.len() as u128;
    if is_rooted(path) {
        n + 1
    } else {
        n
    }
}

pub fn repository_hash_for_trace(
    edit: &TraceEdit,
    scans: &[GitScan],
    scan_roots: &[String],
    known: &[ResolvedPath],
) -> (r: Option<String>)
    requires
        scan_roots@.len() == scans@.len(),
        forall|i: int|
            0 <= i < scan_roots@.len() ==> (#[trigger] scan_roots@[i])@ == canonical_spec(
                known@,
                scans@[i].repository_root@,
            ),
    ensures
        opt_text(r) == owner_hash(*edit, scans@, known@),
{
    let project = match &edit.repository_path {
        Some(p) => p.as_str(),
        None => {
            proof {
                lemma_no_project_no_owner(*edit, scans@, known@, scans@.len() as int);
            }
            return None;
        },
    };
    let real_project = canonical_path(project, known);
    let mut owner: Option<usize> = None;
    let mut i: usize = 0;
    while i < scans.len()
        invariant
            scan_roots@.len() == scans@.len(),
            forall|k: int|
                0 <= k < scan_roots@.len() ==> (#[trigger] scan_roots@[k])@ == canonical_spec(
                    known@,
                    scans@[k].repository_root@,
                ),
            edit.repository_path matches Some(p) && real_project@ == canonical_spec(known@, p@),
            i <= scans.len(),
            match owner {
                Some(k) => k < i && owner_upto(*edit, scans@, known@, i as int) == Some(k as int),
                None => owner_upto(*edit, scans@, known@, i as int) is None,
            },
        decreases scans.len() - i,
    {
        match trace_path_in_scan(
            edit,
            &scans[i],
            real_project.as_str(),
            scan_roots[i].as_str(),
        ) {
            Some(_) => {
                match owner {
                    Some(k) => {
                        if count_parts(scans[i].repository_root.as_str()) >= count_parts(
                            scans[k].repository_root.as_str(),
                        ) {
                            owner = Some(i);
                        }
                    },
                    None => {
                        owner = Some(i);
                    },
                }
            },
            None => {},
        }
        i = i + 1;
    }
    match owner {
        Some(k) => Some(scans[k].repository_hash.clone()),
        None => None,
    }
}

proof fn lemma_no_project_no_owner(
    trace: TraceEdit,
    scans: Seq<GitScan>,
    known: Seq<ResolvedPath>,
    n: int,
)
    requires
        trace.repository_path is None,
    ensures
        owner_upto(trace, scans, known, n) is None,
    decreases n,
{
    if n > 0 {
        lemma_no_project_no_owner(trace, scans, known, n - 1);
    }
}

// ---------------------------------------------------------------------------
// What holds of every attribution
// ---------------------------------------------------------------------------

proof fn lemma_attributed_once(
    traces: Seq<TraceEdit>,
    scans: Seq<GitScan>,
    known: Seq<ResolvedPath>,
    n: int,
)
    ensures
        forall|i: int, j: int|
            0 <= i < j < attributions(traces, scans, known, n).len() ==> (
            #[trigger] attributions(traces, scans, known, n)[i]).0.trace_edit_id@ != (
            #[trigger] attributions(traces, scans, known, n)[j]).0.trace_edit_id@,
    decreases n,
{
    if n > 0 {
        lemma_attributed_once(traces, scans, known, n - 1);
    }
}

/// No edit is attributed twice.
pub proof fn an_edit_is_matched_at_most_once(
    traces: Seq<TraceEdit>,
    scans: Seq<GitScan>,
    known: Seq<ResolvedPath>,
    matches: Seq<CodeChangeMatch>,
    i: int,
    j: int,
)
    requires
        are_matches(matches, attributions(traces, scans, known, traces.len() as int)),
        0 <= i < j < matches.len(),
    ensures
        matches[i].trace_edit_id@ != matches[j].trace_edit_id@,
{
    lemma_attributed_once(traces, scans, known, traces.len() as int);
    let pairs = attributions(traces, scans, known, traces.len() as int);
    assert(is_match(matches[i], pairs[i].0, pairs[i].1));
    assert(is_match(matches[j], pairs[j].0, pairs[j].1));
}

/// Whether a candidate bears out an edit: a commit with at most one parent that
/// came at most thirty days after the edit and holds at least four fifths of its
/// changed lines in order. The confidence is high exactly where it holds all of
/// them and came within a week.
pub open spec fn bears_out(trace: TraceEdit, edited: Timestamp, c: Candidate) -> bool {
    &&& c.commit.parent_count <= 1
    &&& c.overlap == line_overlap(trace, c.file)
    &&& delay_spec(c.commit, edited) matches Some(d) && 0 <= d <= MAX_DELAY_SECONDS && c.high == (d
        <= HIGH_DELAY_SECONDS && added_overlap(trace, c.file) == one() && deleted_overlap(
        trace,
        c.file,
    ) == one())
    &&& c.high || !below(c.overlap, four_fifths())
}

pub open spec fn all_bear_out(trace: TraceEdit, edited: Timestamp, c: Seq<Candidate>) -> bool {
    forall|k: int| 0 <= k < c.len() ==> bears_out(trace, edited, #[trigger] c[k])
}

proof fn lemma_file_candidates(
    trace: TraceEdit,
    edited: Timestamp,
    place: Seq<char>,
    commit: GitCommitChange,
    n: int,
)
    requires
        commit.parent_count <= 1,
    ensures
        all_bear_out(trace, edited, file_candidates(trace, edited, place, commit, n)),
    decreases n,
{
    if n > 0 {
        lemma_file_candidates(trace, edited, place, commit, n - 1);
    }
}

proof fn lemma_commit_candidates(
    trace: TraceEdit,
    edited: Timestamp,
    place: Seq<char>,
    commits: Seq<GitCommitChange>,
    n: int,
)
    ensures
        all_bear_out(trace, edited, commit_candidates(trace, edited, place, commits, n)),
    decreases n,
{
    if n > 0 {
        lemma_commit_candidates(trace, edited, place, commits, n - 1);
        let commit = commits[n - 1];
        if commit.parent_count <= 1 {
            lemma_file_candidates(trace, edited, place, commit, commit.files@.len() as int);
        }
    }
}

proof fn lemma_scan_candidates(
    trace: TraceEdit,
    edited: Timestamp,
    scans: Seq<GitScan>,
    known: Seq<ResolvedPath>,
    n: int,
)
    ensures
        all_bear_out(trace, edited, scan_candidates(trace, edited, scans, known, n)),
    decreases n,
{
    if n > 0 {
        lemma_scan_candidates(trace, edited, scans, known, n - 1);
        match known_place(trace, scans[n - 1], known) {
            Some(place) => {
                lemma_commit_candidates(
                    trace,
                    edited,
                    place,
                    scans[n - 1].commits@,
                    scans[n - 1].commits@.len() as int,
                );
            },
            None => {},
        }
    }
}

pub proof fn lemma_strongest_exists(c: Seq<Candidate>)
    requires
        c.len() > 0,
    ensures
        exists|b: int| first_strongest(c, b),
    decreases c.len(),
{
    let n = c.len() - 1;
    if n == 0 {
        assert(first_strongest(c, 0));
    } else {
        let front = c.drop_last();
        lemma_strongest_exists(front);
        let b = choose|b: int| first_strongest(front, b);
        if weaker(front[b], c[n]) {
            assert forall|k: int| 0 <= k < n implies weaker(#[trigger] c[k], c[n]) by {
                assert(!weaker(front[b], front[k]));
            }
            assert(first_strongest(c, n));
        } else {
            assert forall|k: int| 0 <= k < c.len() implies !weaker(c[b], #[trigger] c[k]) by {
                if k < n {
                    assert(front[k] == c[k]);
                }
            }
            assert forall|k: int| 0 <= k < b implies weaker(#[trigger] c[k], c[b]) by {
                assert(front[k] == c[k]);
            }
            assert(first_strongest(c, b));
        }
    }
}

/// An attributed edit has at least three distinct changed lines and a time, and
/// its commit bears it out.
pub proof fn an_attribution_is_borne_out(
    trace: TraceEdit,
    scans: Seq<GitScan>,
    known: Seq<ResolvedPath>,
)
    requires
        attribution(trace, scans, known) is Some,
    ensures
        distinctive(trace),
        trace.occurred_at matches Some(edited) && bears_out(
            trace,
            edited,
            attribution(trace, scans, known)->0,
        ),
{
    let edited = trace.occurred_at->0;
    let c = scan_candidates(trace, edited, scans, known, scans.len() as int);
    lemma_scan_candidates(trace, edited, scans, known, scans.len() as int);
    lemma_strongest_exists(c);
}

/// What it means for the lines of an edit, of which there are fewer than 2^48,
/// that a candidate bears it out: at least four fifths of them are matched; and
/// the confidence is high exactly where the commit came within a week and both
/// the added and the deleted lines stand in it in order.
pub proof fn a_candidate_that_bears_out_holds_the_lines(
    trace: TraceEdit,
    edited: Timestamp,
    c: Candidate,
)
    requires
        bears_out(trace, edited, c),
        line_total(trace) < 0x1_0000_0000_0000,
        line_total(trace) <= usize::MAX,
    ensures
        5 * (added_matches(trace, c.file) + deleted_matches(trace, c.file)) >= 4 * line_total(
            trace,
        ),
        c.high == (delay_spec(c.commit, edited)->0 <= HIGH_DELAY_SECONDS && stands_in(
            texts(trace.added_line_fingerprints@),
            texts(c.file.added_line_fingerprints@),
        ) && stands_in(
            texts(trace.deleted_line_fingerprints@),
            texts(c.file.deleted_line_fingerprints@),
        )),
{
    let added = texts(trace.added_line_fingerprints@);
    let deleted = texts(trace.deleted_line_fingerprints@);
    a_full_overlap_holds_every_line_in_order(added, texts(c.file.added_line_fingerprints@));
    a_full_overlap_holds_every_line_in_order(deleted, texts(c.file.deleted_line_fingerprints@));
    a_whole_share_is_of_every_line(added_matches(trace, c.file), added.len() as int);
    a_whole_share_is_of_every_line(deleted_matches(trace, c.file), deleted.len() as int);
    if !c.high {
        a_share_of_four_fifths_is_of_as_many_lines(
            added_matches(trace, c.file),
            added.len() as int,
            deleted_matches(trace, c.file),
            deleted.len() as int,
        );
    }
}

/// An edit that two commits bear out equally well, and none better, is left
/// without an attribution.
pub proof fn equally_strong_commits_leave_an_edit_unattributed(c: Seq<Candidate>, a: int, b: int)
    requires
        0 <= a < c.len(),
        0 <= b < c.len(),
        forall|k: int| 0 <= k < c.len() ==> !weaker(c[a], #[trigger] c[k]),
        !weaker(c[b], c[a]),
        c[a].commit.deduplication_id@ != c[b].commit.deduplication_id@,
    ensures
        chosen(c) is None,
{
    lemma_strongest_exists(c);
    let s = choose|s: int| first_strongest(c, s);
    assert(!weaker(c[s], c[a]) && !weaker(c[a], c[s]));
    assert(!weaker(c[s], c[b]) && !weaker(c[a], c[b]));
    if c[s].commit.deduplication_id@ == c[a].commit.deduplication_id@ {
        assert(has_rival(c, s)) by {
            assert(!weaker(c[b], c[s]));
        }
    } else {
        assert(has_rival(c, s)) by {
            assert(!weaker(c[a], c[s]));
        }
    }
}

/// A path that exists resolves to where it really lies, whatever is known of the
/// directories above it.
pub proof fn an_existing_path_resolves_directly(
    known: Seq<ResolvedPath>,
    path: Seq<char>,
    canonical: Seq<char>,
)
    requires
        known_as(known, path) == Some(canonical),
    ensures
        canonical_spec(known, path) == canonical,
{
}

/// An edit that is placed in a scanned repository lies inside it: its path is
/// relative and never leaves the repository on the way.
pub proof fn a_placed_edit_lies_inside_the_repository(
    trace: TraceEdit,
    scan: GitScan,
    real_project: Seq<char>,
    real_root: Seq<char>,
)
    ensures
        trace_place(trace, scan, real_project, real_root) matches Some(p) ==> contained(p),
{
}

/// A delay is never negative, and a commit that was written before the edit,
/// however little, has none.
pub proof fn a_commit_before_the_edit_has_no_delay(commit: GitCommitChange, edited: Timestamp)
    ensures
        delay_spec(commit, edited) matches Some(d) ==> d >= 0,
        gap_nanos(commit.committed_at, edited) < 0 && (commit.authored_at matches Some(t)
            ==> gap_nanos(t, edited) < 0) ==> delay_spec(commit, edited) is None,
{
}

} // verus!
