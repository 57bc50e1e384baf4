//! Which lines a change adds and which it deletes.
use crate::text::texts;
use vstd::prelude::*;

verus! {

/// Beyond this many pairs of lines only what both texts share at their start and
/// end is kept apart.
pub const MAX_COMPARED_PAIRS: usize = 4_000_000;

/// The most lines that the rest of both texts have in common, in order.
pub open spec fn common_length(old: Seq<Seq<char>>, new: Seq<Seq<char>>, i: int, j: int) -> nat
    decreases old.len() - i, new.len() - j,
{
    if i < 0 || j < 0 || i >= old.len() || j >= new.len() {
        0
    } else if old[i] == new[j] {
        1 + common_length(old, new, i + 1, j + 1)
    } else {
        let skip_old = common_length(old, new, i + 1, j);
        let skip_new = common_length(old, new, i, j + 1);
        if skip_old >= skip_new {
            skip_old
        } else {
            skip_new
        }
    }
}

/// The lines added and the lines deleted from line `i` of the old and line `j`
/// of the new text on. Equal lines are kept; where lines differ, the one is
/// given up that leaves more in common, the old one where it makes no difference.
pub open spec fn diff_from(old: Seq<Seq<char>>, new: Seq<Seq<char>>, i: int, j: int) -> (
    Seq<Seq<char>>,
    Seq<Seq<char>>,
)
    decreases old.len() - i, new.len() - j,
{
    if i < 0 || j < 0 || i >= old.len() || j >= new.len() {
        (new.skip(j), old.skip(i))
    } else if old[i] == new[j] {
        diff_from(old, new, i + 1, j + 1)
    } else if common_length(old, new, i + 1, j) >= common_length(old, new, i, j + 1) {
        let rest = diff_from(old, new, i + 1, j);
        (rest.0, seq![old[i]] + rest.1)
    } else {
        let rest = diff_from(old, new, i, j + 1);
        (seq![new[j]] + rest.0, rest.1)
    }
}

/// How many lines two texts share from `i` on.
pub open spec fn shared_front(old: Seq<Seq<char>>, new: Seq<Seq<char>>, i: int) -> int
    decreases old.len() - i,
{
    if 0 <= i < old.len() && i < new.len() && old[i] == new[i] {
        shared_front(old, new, i + 1)
    } else {
        i
    }
}

/// How many lines two texts share at their end, with the first `from` lines of
/// each left out.
pub open spec fn shared_back(old: Seq<Seq<char>>, new: Seq<Seq<char>>, from: int, k: int) -> int
    decreases old.len() - k,
{
    if 0 <= k && 0 <= from < old.len() - k && from < new.len() - k && old[old.len() - 1 - k]
        == new[new.len() - 1 - k] {
        shared_back(old, new, from, k + 1)
    } else {
        k
    }
}

/// The lines added and the lines deleted between what both texts share at their
/// start and end.
pub open spec fn coarse_diff(old: Seq<Seq<char>>, new: Seq<Seq<char>>) -> (
    Seq<Seq<char>>,
    Seq<Seq<char>>,
) {
    let p = shared_front(old, new, 0);
    let q = shared_back(old, new, p, 0);
    (new.subrange(p, new.len() - q), old.subrange(p, old.len() - q))
}

/// The lines added and the lines deleted.
pub open spec fn diff(old: Seq<Seq<char>>, new: Seq<Seq<char>>) -> (Seq<Seq<char>>, Seq<Seq<char>>) {
    if old.len() * new.len() > MAX_COMPARED_PAIRS {
        coarse_diff(old, new)
    } else {
        diff_from(old, new, 0, 0)
    }
}

proof fn lemma_shared_front(old: Seq<Seq<char>>, new: Seq<Seq<char>>, i: int)
    requires
        0 <= i <= old.len(),
        i <= new.len(),
    ensures
        i <= shared_front(old, new, i) <= old.len(),
        shared_front(old, new, i) <= new.len(),
        forall|k: int| i <= k < shared_front(old, new, i) ==> old[k] == new[k],
    decreases old.len() - i,
{
    if i < old.len() && i < new.len() && old[i] == new[i] {
        lemma_shared_front(old, new, i + 1);
    }
}

proof fn lemma_shared_back(old: Seq<Seq<char>>, new: Seq<Seq<char>>, from: int, k: int)
    requires
        0 <= k,
        0 <= from,
        from + k <= old.len(),
        from + k <= new.len(),
    ensures
        k <= shared_back(old, new, from, k),
        from + shared_back(old, new, from, k) <= old.len(),
        from + shared_back(old, new, from, k) <= new.len(),
        forall|x: int|
            old.len() - shared_back(old, new, from, k) <= x < old.len() - k ==> #[trigger] old[x]
                == new[x + (new.len() - old.len())],
    decreases old.len() - k,
{
    if from < old.len() - k && from < new.len() - k && old[old.len() - 1 - k] == new[new.len() - 1
        - k] {
        lemma_shared_back(old, new, from, k + 1);
    }
}

proof fn lemma_common_length_bound(old: Seq<Seq<char>>, new: Seq<Seq<char>>, i: int, j: int)
    requires
        0 <= i,
        0 <= j,
    ensures
        i <= old.len() ==> common_length(old, new, i, j) <= old.len() - i,
        j <= new.len() ==> common_length(old, new, i, j) <= new.len() - j,
    decreases old.len() - i, new.len() - j,
{
    if i < old.len() && j < new.len() {
        if old[i] == new[j] {
            lemma_common_length_bound(old, new, i + 1, j + 1);
        } else {
            lemma_common_length_bound(old, new, i + 1, j);
            lemma_common_length_bound(old, new, i, j + 1);
        }
    }
}

/// One row of the table: entry `j` is how much the texts have in common from
/// line `i` and line `j` on.
spec fn is_row(row: Seq<u32>, old: Seq<Seq<char>>, new: Seq<Seq<char>>, i: int) -> bool {
    &&& row.len() == new.len() + 1
    &&& forall|j: int|
        0 <= j <= new.len() ==> #[trigger] row[j] == common_length(old, new, i, j)
}

fn common_row(old: &[String], new: &[String], i: usize, below: &[u32]) -> (row: Vec<u32>)
    requires
        i < old@.len() <= MAX_COMPARED_PAIRS,
        new@.len() <= MAX_COMPARED_PAIRS,
        is_row(below@, texts(old@), texts(new@), i + 1),
    ensures
        is_row(row@, texts(old@), texts(new@), i as int),
{
    let ghost o = texts(old@);
    let ghost n = texts(new@);
    let mut row: Vec<u32> = vec![0u32; new.len() + 1];
    let mut j: usize = new.len();
    while j > 0
        invariant
            o == texts(old@),
            n == texts(new@),
            i < old@.len() <= MAX_COMPARED_PAIRS,
            new@.len() <= MAX_COMPARED_PAIRS,
            is_row(below@, o, n, i + 1),
            j <= new.len(),
            row.len() == new.len() + 1,
            forall|k: int| j <= k <= new.len() ==> #[trigger] row@[k] == common_length(o, n, i as int, k),
        decreases j,
    {
        j = j - 1;
        proof {
            lemma_common_length_bound(o, n, i + 1, j + 1);
            assert(below@[j + 1] == common_length(o, n, i + 1, j + 1));
            assert(below@[j as int] == common_length(o, n, i + 1, j as int));
            assert(row@[j + 1] == common_length(o, n, i as int, j + 1));
            assert(o[i as int] == old@[i as int]@);
            assert(n[j as int] == new@[j as int]@);
        }
        let value: u32 = if old[i] == new[j] {
            1 + below[j + 1]
        } else if below[j] >= row[j + 1] {
            below[j]
        } else {
            row[j + 1]
        };
        row[j] = value;
    }
    row
}

fn prefix_suffix(old: &[String], new: &[String]) -> (r: (usize, usize))
    ensures
        r.0 == shared_front(texts(old@), texts(new@), 0),
        r.1 == shared_back(texts(old@), texts(new@), r.0 as int, 0),
        r.0 + r.1 <= old@.len(),
        r.0 + r.1 <= new@.len(),
{
    let ghost o = texts(old@);
    let ghost n = texts(new@);
    let mut p: usize = 0;
    while p < old.len() && p < new.len() && old[p] == new[p]
        invariant
            o == texts(old@),
            n == texts(new@),
            p <= old.len(),
            p <= new.len(),
            shared_front(o, n, 0) == shared_front(o, n, p as int),
        decreases old.len() - p,
    {
        proof {
            assert(o[p as int] == old@[p as int]@ && n[p as int] == new@[p as int]@);
        }
        p = p + 1;
    }
    proof {
        if p < old.len() && p < new.len() {
            assert(o[p as int] == old@[p as int]@ && n[p as int] == new@[p as int]@);
        }
    }
    let mut q: usize = 0;
    while p < old.len() - q && p < new.len() - q && old[old.len() - 1 - q] == new[new.len() - 1 - q]
        invariant
            o == texts(old@),
            n == texts(new@),
            p + q <= old.len(),
            p + q <= new.len(),
            shared_back(o, n, p as int, 0) == shared_back(o, n, p as int, q as int),
        decreases old.len() - q,
    {
        proof {
            assert(o[o.len() - 1 - q] == old@[old.len() - 1 - q]@);
            assert(n[n.len() - 1 - q] == new@[new.len() - 1 - q]@);
        }
        q = q + 1;
    }
    proof {
        if p < old.len() - q && p < new.len() - q {
            assert(o[o.len() - 1 - q] == old@[old.len() - 1 - q]@);
            assert(n[n.len() - 1 - q] == new@[new.len() - 1 - q]@);
        }
    }
    (p, q)
}

fn copy_range(v: &[String], lo: usize, hi: usize) -> (r: Vec<String>)
    requires
        lo <= hi <= v@.len(),
    ensures
        texts(r@) == texts(v@).subrange(lo as int, hi as int),
{
    let mut out: Vec<String> = Vec::new();
    let mut i: usize = lo;
    while i < hi
        invariant
            lo <= i <= hi <= v@.len(),
            out.len() == i - lo,
            forall|k: int| 0 <= k < i - lo ==> (#[trigger] out@[k])@ == v@[lo + k]@,
        decreases hi - i,
    {
        out.push(v[i].clone());
        i = i + 1;
    }
    proof {
        assert(texts(out@) =~= texts(v@).subrange(lo as int, hi as int));
    }
    out
}

fn append_range(out: &mut Vec<String>, v: &[String], lo: usize)
    requires
        lo <= v@.len(),
    ensures
        texts(final(out)@) == texts(old(out)@) + texts(v@).skip(lo as int),
{
    let ghost start = out@;
    let mut i: usize = lo;
    while i < v.len()
        invariant
            lo <= i <= v@.len(),
            out@.len() == start.len() + (i - lo),
            forall|k: int| 0 <= k < start.len() ==> out@[k] == start[k],
            forall|k: int| 0 <= k < i - lo ==> (#[trigger] out@[start.len() + k])@ == v@[lo + k]@,
        decreases v.len() - i,
    {
        out.push(v[i].clone());
        i = i + 1;
    }
    proof {
        let want = texts(start) + texts(v@).skip(lo as int);
        assert forall|k: int| 0 <= k < out@.len() implies #[trigger] texts(out@)[k] == want[k] by {
            if k >= start.len() {
                assert(out@[start.len() + (k - start.len())]@ == v@[lo + (k - start.len())]@);
            }
        }
        assert(texts(out@) =~= want);
    }
}

/// The lines that a change adds and the lines that it deletes.
pub fn changed_lines(old: &[String], new: &[String]) -> (r: (Vec<String>, Vec<String>))
    ensures
        (texts(r.0@), texts(r.1@)) == diff(texts(old@), texts(new@)),
{
    let ghost o = texts(old@);
    let ghost n = texts(new@);
    proof {
        lemma_shared_front(o, n, 0);
        lemma_shared_back(o, n, shared_front(o, n, 0), 0);
        assert(o.len() == old@.len() && n.len() == new@.len());
    }
    if old.len() == 0 || new.len() == 0 {
        proof {
            assert(o.len() * n.len() == 0) by (nonlinear_arith)
                requires
                    o.len() == 0 || n.len() == 0,
            ;
            assert(o.skip(0) =~= o.subrange(0, o.len() as int));
            assert(n.skip(0) =~= n.subrange(0, n.len() as int));
        }
        return (copy_range(new, 0, new.len()), copy_range(old, 0, old.len()));
    }
    let large: bool = match old.len().checked_mul(new.len()) {
        Some(pairs) => pairs > MAX_COMPARED_PAIRS,
        None => true,
    };
    if large {
        let (p, q) = prefix_suffix(old, new);
        return (copy_range(new, p, new.len() - q), copy_range(old, p, old.len() - q));
    }
    proof {
        assert(o.len() <= MAX_COMPARED_PAIRS && n.len() <= MAX_COMPARED_PAIRS) by (nonlinear_arith)
            requires
                o.len() * n.len() <= MAX_COMPARED_PAIRS,
                o.len() >= 1,
                n.len() >= 1,
        ;
    }
    // rows[k] belongs to the old line `old.len() - k`.
    let mut rows: Vec<Vec<u32>> = Vec::new();
    rows.push(vec![0u32; new.len() + 1]);
    let mut i: usize = old.len();
    while i > 0
        invariant
            o == texts(old@),
            n == texts(new@),
            o.len() == old@.len() <= MAX_COMPARED_PAIRS,
            n.len() == new@.len() <= MAX_COMPARED_PAIRS,
            i <= old.len(),
            rows.len() == old.len() - i + 1,
            forall|k: int|
                0 <= k < rows@.len() ==> is_row((#[trigger] rows@[k])@, o, n, old.len() - k),
        decreases i,
    {
        i = i - 1;
        proof {
            assert(is_row(rows@[rows@.len() - 1]@, o, n, i + 1));
        }
        let row = common_row(old, new, i, &rows[rows.len() - 1]);
        rows.push(row);
    }
    let mut additions: Vec<String> = Vec::new();
    let mut deletions: Vec<String> = Vec::new();
    let mut a: usize = 0;
    let mut b: usize = 0;
    let ghost all = diff_from(o, n, 0, 0);
    proof {
        assert(texts(additions@) + diff_from(o, n, 0, 0).0 =~= all.0);
        assert(texts(deletions@) + diff_from(o, n, 0, 0).1 =~= all.1);
    }
    while a < old.len() && b < new.len()
        invariant
            o == texts(old@),
            n == texts(new@),
            o.len() == old@.len() <= MAX_COMPARED_PAIRS,
            n.len() == new@.len() <= MAX_COMPARED_PAIRS,
            rows.len() == old.len() + 1,
            forall|k: int|
                0 <= k < rows@.len() ==> is_row((#[trigger] rows@[k])@, o, n, old.len() - k),
            a <= old.len(),
            b <= new.len(),
            texts(additions@) + diff_from(o, n, a as int, b as int).0 == all.0,
            texts(deletions@) + diff_from(o, n, a as int, b as int).1 == all.1,
        decreases (old.len() - a) + (new.len() - b),
    {
        proof {
            assert(o[a as int] == old@[a as int]@ && n[b as int] == new@[b as int]@);
            assert(is_row(rows@[old.len() - a - 1]@, o, n, a + 1));
            assert(is_row(rows@[old.len() - a]@, o, n, a as int));
            assert(rows@[old.len() - a - 1]@[b as int] == common_length(o, n, a + 1, b as int));
            assert(rows@[old.len() - a]@[b + 1] == common_length(o, n, a as int, b + 1));
        }
        if old[a] == new[b] {
            a = a + 1;
            b = b + 1;
        } else if rows[old.len() - a - 1][b] >= rows[old.len() - a][b + 1] {
            let ghost before = texts(deletions@);
            deletions.push(old[a].clone());
            proof {
                assert(texts(deletions@) =~= before.push(o[a as int]));
                assert(texts(deletions@) + diff_from(o, n, a + 1, b as int).1 =~= all.1);
            }
            a = a + 1;
        } else {
            let ghost before = texts(additions@);
            additions.push(new[b].clone());
            proof {
                assert(texts(additions@) =~= before.push(n[b as int]));
                assert(texts(additions@) + diff_from(o, n, a as int, b + 1).0 =~= all.0);
            }
            b = b + 1;
        }
    }
    append_range(&mut deletions, old, a);
    append_range(&mut additions, new, b);
    (additions, deletions)
}

// ---------------------------------------------------------------------------
// What every diff keeps
// ---------------------------------------------------------------------------

/// Whether `whole` holds exactly the lines of `a` and of `b`, each in order.
pub open spec fn interleaves(whole: Seq<Seq<char>>, a: Seq<Seq<char>>, b: Seq<Seq<char>>) -> bool
    decreases whole.len(),
{
    if whole.len() == 0 {
        a.len() == 0 && b.len() == 0
    } else {
        ||| (a.len() > 0 && a[0] == whole[0] && interleaves(whole.skip(1), a.skip(1), b))
        ||| (b.len() > 0 && b[0] == whole[0] && interleaves(whole.skip(1), a, b.skip(1)))
    }
}

/// The lines that the fine diff keeps.
pub open spec fn kept_from(old: Seq<Seq<char>>, new: Seq<Seq<char>>, i: int, j: int) -> Seq<
    Seq<char>,
>
    decreases old.len() - i, new.len() - j,
{
    if i < 0 || j < 0 || i >= old.len() || j >= new.len() {
        Seq::empty()
    } else if old[i] == new[j] {
        seq![old[i]] + kept_from(old, new, i + 1, j + 1)
    } else if common_length(old, new, i + 1, j) >= common_length(old, new, i, j + 1) {
        kept_from(old, new, i + 1, j)
    } else {
        kept_from(old, new, i, j + 1)
    }
}

proof fn lemma_interleaves_all(whole: Seq<Seq<char>>)
    ensures
        interleaves(whole, whole, Seq::empty()),
        interleaves(whole, Seq::empty(), whole),
    decreases whole.len(),
{
    if whole.len() > 0 {
        lemma_interleaves_all(whole.skip(1));
    }
}

proof fn lemma_fine_diff(old: Seq<Seq<char>>, new: Seq<Seq<char>>, i: int, j: int)
    requires
        0 <= i <= old.len(),
        0 <= j <= new.len(),
    ensures
        interleaves(old.skip(i), diff_from(old, new, i, j).1, kept_from(old, new, i, j)),
        interleaves(new.skip(j), diff_from(old, new, i, j).0, kept_from(old, new, i, j)),
        kept_from(old, new, i, j).len() == common_length(old, new, i, j),
    decreases old.len() - i, new.len() - j,
{
    if i >= old.len() || j >= new.len() {
        lemma_interleaves_all(old.skip(i));
        lemma_interleaves_all(new.skip(j));
    } else {
        let kept = kept_from(old, new, i, j);
        let d = diff_from(old, new, i, j);
        assert(old.skip(i).skip(1) =~= old.skip(i + 1));
        assert(new.skip(j).skip(1) =~= new.skip(j + 1));
        if old[i] == new[j] {
            lemma_fine_diff(old, new, i + 1, j + 1);
            assert(kept.skip(1) =~= kept_from(old, new, i + 1, j + 1));
        } else if common_length(old, new, i + 1, j) >= common_length(old, new, i, j + 1) {
            lemma_fine_diff(old, new, i + 1, j);
            assert(d.1.skip(1) =~= diff_from(old, new, i + 1, j).1);
        } else {
            lemma_fine_diff(old, new, i, j + 1);
            assert(d.0.skip(1) =~= diff_from(old, new, i, j + 1).0);
        }
    }
}

proof fn lemma_interleaves_front(
    front: Seq<Seq<char>>,
    whole: Seq<Seq<char>>,
    a: Seq<Seq<char>>,
    b: Seq<Seq<char>>,
)
    requires
        interleaves(whole, a, b),
    ensures
        interleaves(front + whole, a, front + b),
    decreases front.len(),
{
    if front.len() == 0 {
        assert(front + whole =~= whole);
        assert(front + b =~= b);
    } else {
        lemma_interleaves_front(front.skip(1), whole, a, b);
        assert((front + whole).skip(1) =~= front.skip(1) + whole);
        assert((front + b).skip(1) =~= front.skip(1) + b);
    }
}

proof fn lemma_interleaves_append(a: Seq<Seq<char>>, b: Seq<Seq<char>>)
    ensures
        interleaves(a + b, a, b),
    decreases a.len(),
{
    if a.len() == 0 {
        assert(a + b =~= b);
        assert(a =~= Seq::empty());
        lemma_interleaves_all(b);
    } else {
        lemma_interleaves_append(a.skip(1), b);
        assert((a + b).skip(1) =~= a.skip(1) + b);
    }
}

/// The lines that both texts keep.
pub open spec fn kept(old: Seq<Seq<char>>, new: Seq<Seq<char>>) -> Seq<Seq<char>> {
    if old.len() * new.len() > MAX_COMPARED_PAIRS {
        let p = shared_front(old, new, 0);
        let q = shared_back(old, new, p, 0);
        old.take(p) + old.skip(old.len() - q)
    } else {
        kept_from(old, new, 0, 0)
    }
}

/// The old text is the deleted lines and the kept lines, each in order, and the
/// new text is the added lines and the same kept lines.
pub proof fn diff_splits_both_texts(old: Seq<Seq<char>>, new: Seq<Seq<char>>)
    ensures
        interleaves(old, diff(old, new).1, kept(old, new)),
        interleaves(new, diff(old, new).0, kept(old, new)),
        diff(old, new).0.len() + kept(old, new).len() == new.len(),
        diff(old, new).1.len() + kept(old, new).len() == old.len(),
{
    if old.len() * new.len() > MAX_COMPARED_PAIRS {
        let p = shared_front(old, new, 0);
        let q = shared_back(old, new, p, 0);
        lemma_shared_front(old, new, 0);
        lemma_shared_back(old, new, p, 0);
        let front = old.take(p);
        let back = old.skip(old.len() - q);
        assert(front =~= new.take(p));
        assert forall|m: int| 0 <= m < q implies back[m] == new.skip(new.len() - q)[m] by {
            assert(back[m] == old[old.len() - q + m]);
        }
        assert(back =~= new.skip(new.len() - q));
        let deleted = old.subrange(p, old.len() - q);
        let added = new.subrange(p, new.len() - q);
        lemma_interleaves_append(deleted, back);
        lemma_interleaves_append(added, back);
        lemma_interleaves_front(front, deleted + back, deleted, back);
        lemma_interleaves_front(front, added + back, added, back);
        assert(front + (deleted + back) =~= old);
        assert(front + (added + back) =~= new);
    } else {
        lemma_fine_diff(old, new, 0, 0);
        assert(old.skip(0) =~= old);
        assert(new.skip(0) =~= new);
    }
    lemma_interleaves_length(old, diff(old, new).1, kept(old, new));
    lemma_interleaves_length(new, diff(old, new).0, kept(old, new));
}

proof fn lemma_interleaves_length(whole: Seq<Seq<char>>, a: Seq<Seq<char>>, b: Seq<Seq<char>>)
    requires
        interleaves(whole, a, b),
    ensures
        whole.len() == a.len() + b.len(),
    decreases whole.len(),
{
    if whole.len() > 0 {
        if a.len() > 0 && a[0] == whole[0] && interleaves(whole.skip(1), a.skip(1), b) {
            lemma_interleaves_length(whole.skip(1), a.skip(1), b);
        } else {
            lemma_interleaves_length(whole.skip(1), a, b.skip(1));
        }
    }
}

/// Whether `part` is what is left of `whole` when lines are taken out.
pub open spec fn subsequence(part: Seq<Seq<char>>, whole: Seq<Seq<char>>) -> bool
    decreases whole.len(),
{
    if part.len() == 0 {
        true
    } else if whole.len() == 0 {
        false
    } else {
        ||| (part[0] == whole[0] && subsequence(part.skip(1), whole.skip(1)))
        ||| subsequence(part, whole.skip(1))
    }
}

proof fn lemma_subsequence_shorter(part: Seq<Seq<char>>, whole: Seq<Seq<char>>)
    requires
        part.len() > 0,
        subsequence(part, whole),
    ensures
        subsequence(part.skip(1), whole),
        whole.len() > 0,
        subsequence(part.skip(1), whole.skip(1)),
    decreases whole.len(),
{
    if part[0] == whole[0] && subsequence(part.skip(1), whole.skip(1)) {
    } else {
        lemma_subsequence_shorter(part, whole.skip(1));
    }
}

proof fn lemma_no_longer_common(
    part: Seq<Seq<char>>,
    old: Seq<Seq<char>>,
    new: Seq<Seq<char>>,
    i: int,
    j: int,
)
    requires
        0 <= i <= old.len(),
        0 <= j <= new.len(),
        subsequence(part, old.skip(i)),
        subsequence(part, new.skip(j)),
    ensures
        part.len() <= common_length(old, new, i, j),
    decreases old.len() - i, new.len() - j,
{
    if part.len() > 0 {
        assert(old.skip(i).len() > 0 && new.skip(j).len() > 0);
        assert(old.skip(i).skip(1) =~= old.skip(i + 1));
        assert(new.skip(j).skip(1) =~= new.skip(j + 1));
        if old[i] == new[j] {
            lemma_subsequence_shorter(part, old.skip(i));
            lemma_subsequence_shorter(part, new.skip(j));
            lemma_no_longer_common(part.skip(1), old, new, i + 1, j + 1);
        } else if part[0] == old[i] {
            lemma_no_longer_common(part, old, new, i, j + 1);
        } else {
            lemma_no_longer_common(part, old, new, i + 1, j);
        }
    }
}

/// Where the texts are compared line by line, no common subsequence is longer
/// than the lines kept: the diff is as small as can be.
pub proof fn fine_diff_is_smallest(part: Seq<Seq<char>>, old: Seq<Seq<char>>, new: Seq<Seq<char>>)
    requires
        old.len() * new.len() <= MAX_COMPARED_PAIRS,
        subsequence(part, old),
        subsequence(part, new),
    ensures
        part.len() <= kept(old, new).len(),
{
    assert(old.skip(0) =~= old);
    assert(new.skip(0) =~= new);
    lemma_no_longer_common(part, old, new, 0, 0);
    lemma_fine_diff(old, new, 0, 0);
}

proof fn lemma_same_text_common(s: Seq<Seq<char>>, i: int)
    requires
        0 <= i <= s.len(),
    ensures
        diff_from(s, s, i, i).0.len() == 0,
        diff_from(s, s, i, i).1.len() == 0,
    decreases s.len() - i,
{
    if i < s.len() {
        lemma_same_text_common(s, i + 1);
    }
}

proof fn lemma_shared_front_all(s: Seq<Seq<char>>, i: int)
    requires
        0 <= i <= s.len(),
    ensures
        shared_front(s, s, i) == s.len(),
    decreases s.len() - i,
{
    if i < s.len() {
        lemma_shared_front_all(s, i + 1);
    }
}

/// A text that does not change adds and deletes nothing.
pub proof fn unchanged_text_has_no_diff(s: Seq<Seq<char>>)
    ensures
        diff(s, s).0.len() == 0,
        diff(s, s).1.len() == 0,
{
    lemma_same_text_common(s, 0);
    lemma_shared_front_all(s, 0);
}

} // verus!
