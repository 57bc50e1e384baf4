//! Lists kept in order: by a key that occurs once, or by a stable sort.
use crate::paths::same_texts;
use crate::text::{
    lemma_text_lt_irreflexive, lemma_text_lt_total, lemma_text_lt_transitive, less_text, same_text,
    text_lt, texts,
};
use vstd::prelude::*;

verus! {

// ---------------------------------------------------------------------------
// Keys
// ---------------------------------------------------------------------------

/// The order of keys: by the first part that differs.
pub open spec fn key_lt(a: Seq<Seq<char>>, b: Seq<Seq<char>>) -> bool
    decreases a.len(),
{
    if b.len() == 0 {
        false
    } else if a.len() == 0 {
        true
    } else if a[0] != b[0] {
        text_lt(a[0], b[0])
    } else {
        key_lt(a.skip(1), b.skip(1))
    }
}

pub proof fn lemma_key_lt_irreflexive(a: Seq<Seq<char>>)
    ensures
        !key_lt(a, a),
    decreases a.len(),
{
    if a.len() > 0 {
        lemma_key_lt_irreflexive(a.skip(1));
    }
}

pub proof fn lemma_key_lt_transitive(a: Seq<Seq<char>>, b: Seq<Seq<char>>, c: Seq<Seq<char>>)
    requires
        key_lt(a, b),
        key_lt(b, c),
    ensures
        key_lt(a, c),
    decreases a.len(),
{
    if a.len() > 0 && b.len() > 0 && c.len() > 0 {
        if a[0] == b[0] && b[0] == c[0] {
            lemma_key_lt_transitive(a.skip(1), b.skip(1), c.skip(1));
        } else if a[0] != b[0] && b[0] != c[0] {
            lemma_text_lt_transitive(a[0], b[0], c[0]);
            if a[0] == c[0] {
                lemma_text_lt_irreflexive(a[0]);
            }
        }
    }
}

pub proof fn lemma_key_lt_total(a: Seq<Seq<char>>, b: Seq<Seq<char>>)
    ensures
        key_lt(a, b) || a == b || key_lt(b, a),
    decreases a.len(),
{
    if a.len() == 0 || b.len() == 0 {
        if a.len() == b.len() {
            assert(a =~= b);
        }
    } else if a[0] == b[0] {
        lemma_key_lt_total(a.skip(1), b.skip(1));
        if a.skip(1) == b.skip(1) {
            assert(a =~= seq![a[0]] + a.skip(1));
            assert(b =~= seq![b[0]] + b.skip(1));
        }
    } else {
        lemma_text_lt_total(a[0], b[0]);
    }
}

pub fn less_key(a: &[String], b: &[String]) -> (r: bool)
    ensures
        r == key_lt(texts(a@), texts(b@)),
{
    let ghost x = texts(a@);
    let ghost y = texts(b@);
    let mut i: usize = 0;
    proof {
        assert(x.skip(0) =~= x);
        assert(y.skip(0) =~= y);
    }
    while i < a.len() && i < b.len()
        invariant
            x == texts(a@),
            y == texts(b@),
            i <= a.len(),
            i <= b.len(),
            key_lt(x, y) == key_lt(x.skip(i as int), y.skip(i as int)),
        decreases a.len() - i,
    {
        proof {
            assert(x.skip(i as int)[0] == a@[i as int]@);
            assert(y.skip(i as int)[0] == b@[i as int]@);
            assert(x.skip(i as int).skip(1) =~= x.skip(i + 1));
            assert(y.skip(i as int).skip(1) =~= y.skip(i + 1));
        }
        if !same_text(a[i].as_str(), b[i].as_str()) {
            return less_text(a[i].as_str(), b[i].as_str());
        }
        i = i + 1;
    }
    i < b.len()
}

/// A record that is found by a key.
pub trait Keyed: Sized {
    spec fn key(&self) -> Seq<Seq<char>>;

    fn key_texts(&self) -> (r: Vec<String>)
        ensures
            texts(r@) == self.key(),
    ;
}

/// Whether the keys increase: they are in order and none occurs twice.
pub open spec fn keys_increase<T: Keyed>(v: Seq<T>) -> bool {
    forall|i: int, j: int|
        0 <= i < j < v.len() ==> key_lt((#[trigger] v[i]).key(), (#[trigger] v[j]).key())
}

/// Whether a record has this key.
pub open spec fn has_key<T: Keyed>(v: Seq<T>, key: Seq<Seq<char>>) -> bool {
    exists|i: int| 0 <= i < v.len() && (#[trigger] v[i]).key() == key
}

/// Where in a list with increasing keys the key stands, or would stand.
pub fn key_place<T: Keyed>(v: &[T], key: &[String]) -> (r: usize)
    requires
        keys_increase(v@),
    ensures
        r <= v@.len(),
        forall|k: int| 0 <= k < r ==> key_lt((#[trigger] v@[k]).key(), texts(key@)),
        forall|k: int| r <= k < v@.len() ==> !key_lt((#[trigger] v@[k]).key(), texts(key@)),
{
    let mut lo: usize = 0;
    let mut hi: usize = v.len();
    while lo < hi
        invariant
            keys_increase(v@),
            lo <= hi <= v@.len(),
            forall|k: int| 0 <= k < lo ==> key_lt((#[trigger] v@[k]).key(), texts(key@)),
            forall|k: int| hi <= k < v@.len() ==> !key_lt((#[trigger] v@[k]).key(), texts(key@)),
        decreases hi - lo,
    {
        let mid: usize = lo + (hi - lo) / 2;
        let mid_key = v[mid].key_texts();
        if less_key(&mid_key, key) {
            proof {
                assert forall|k: int| 0 <= k < mid + 1 implies key_lt(
                    (#[trigger] v@[k]).key(),
                    texts(key@),
                ) by {
                    if k < mid {
                        assert(key_lt(v@[k].key(), v@[mid as int].key()));
                        lemma_key_lt_transitive(v@[k].key(), v@[mid as int].key(), texts(key@));
                    }
                }
            }
            lo = mid + 1;
        } else {
            proof {
                assert forall|k: int| mid <= k < v@.len() implies !key_lt(
                    (#[trigger] v@[k]).key(),
                    texts(key@),
                ) by {
                    if k > mid && key_lt(v@[k].key(), texts(key@)) {
                        assert(key_lt(v@[mid as int].key(), v@[k].key()));
                        lemma_key_lt_transitive(v@[mid as int].key(), v@[k].key(), texts(key@));
                    }
                }
            }
            hi = mid;
        }
    }
    lo
}

/// Whether the record at a place found by [`key_place`] has the key.
pub fn key_at<T: Keyed>(v: &[T], key: &[String], place: usize) -> (r: bool)
    ensures
        r == (place < v@.len() && v@[place as int].key() == texts(key@)),
{
    if place >= v.len() {
        return false;
    }
    let k = v[place].key_texts();
    same_texts(&k, key)
}

/// The place of a key that a list with increasing keys holds.
pub proof fn lemma_key_found<T: Keyed>(v: Seq<T>, key: Seq<Seq<char>>, place: int)
    requires
        keys_increase(v),
        0 <= place <= v.len(),
        forall|k: int| 0 <= k < place ==> key_lt((#[trigger] v[k]).key(), key),
        forall|k: int| place <= k < v.len() ==> !key_lt((#[trigger] v[k]).key(), key),
    ensures
        has_key(v, key) == (place < v.len() && v[place].key() == key),
{
    if has_key(v, key) {
        let i = choose|i: int| 0 <= i < v.len() && (#[trigger] v[i]).key() == key;
        lemma_key_lt_irreflexive(key);
        if i > place {
            assert(key_lt(v[place].key(), v[i].key()));
        }
    }
}

/// Putting a new key at its place keeps the keys increasing.
pub proof fn lemma_insert_keeps_order<T: Keyed>(v: Seq<T>, x: T, place: int)
    requires
        keys_increase(v),
        0 <= place <= v.len(),
        forall|k: int| 0 <= k < place ==> key_lt((#[trigger] v[k]).key(), x.key()),
        forall|k: int| place <= k < v.len() ==> !key_lt((#[trigger] v[k]).key(), x.key()),
        !has_key(v, x.key()),
    ensures
        keys_increase(v.insert(place, x)),
        forall|key: Seq<Seq<char>>|
            has_key(v.insert(place, x), key) == (has_key(v, key) || key == x.key()),
{
    let w = v.insert(place, x);
    assert forall|i: int, j: int| 0 <= i < j < w.len() implies key_lt(
        (#[trigger] w[i]).key(),
        (#[trigger] w[j]).key(),
    ) by {
        if j == place {
            assert(w[i] == v[i]);
        } else if i == place {
            assert(w[j] == v[j - 1]);
            lemma_key_lt_total(x.key(), v[j - 1].key());
        } else {
            let a = if i < place { i } else { i - 1 };
            let b = if j < place { j } else { j - 1 };
            assert(w[i] == v[a] && w[j] == v[b]);
        }
    }
    assert forall|key: Seq<Seq<char>>| has_key(w, key) == (has_key(v, key) || key == x.key()) by {
        if has_key(v, key) {
            let i = choose|i: int| 0 <= i < v.len() && (#[trigger] v[i]).key() == key;
            let a = if i < place { i } else { i + 1 };
            assert(w[a] == v[i]);
        }
        if key == x.key() {
            assert(w[place].key() == key);
        }
        if has_key(w, key) && key != x.key() {
            let i = choose|i: int| 0 <= i < w.len() && (#[trigger] w[i]).key() == key;
            let a = if i < place { i } else { i - 1 };
            assert(w[i] == v[a]);
        }
    }
}

// ---------------------------------------------------------------------------
// Sets of texts
// ---------------------------------------------------------------------------

/// Whether the texts increase: they are in order and none occurs twice.
pub open spec fn texts_increase(v: Seq<Seq<char>>) -> bool {
    forall|i: int, j: int| 0 <= i < j < v.len() ==> text_lt(#[trigger] v[i], #[trigger] v[j])
}

/// Adds a text to a list of increasing texts, unless it is there.
pub fn insert_text(v: &mut Vec<String>, s: &str)
    requires
        texts_increase(texts(old(v)@)),
    ensures
        texts_increase(texts(final(v)@)),
        forall|x: Seq<char>|
            texts(final(v)@).contains(x) == (texts(old(v)@).contains(x) || x == s@),
{
    let ghost before = texts(v@);
    let mut i: usize = 0;
    while i < v.len() && less_text(v[i].as_str(), s)
        invariant
            texts_increase(before),
            before == texts(v@),
            i <= v.len(),
            forall|k: int| 0 <= k < i ==> text_lt(#[trigger] before[k], s@),
        decreases v.len() - i,
    {
        proof {
            assert(before[i as int] == v@[i as int]@);
        }
        i = i + 1;
    }
    if i < v.len() && same_text(v[i].as_str(), s) {
        proof {
            assert(before[i as int] == s@);
        }
        return;
    }
    proof {
        if i < v.len() {
            assert(before[i as int] == v@[i as int]@);
            lemma_text_lt_total(before[i as int], s@);
        }
    }
    v.insert(i, s.to_owned());
    proof {
        let after = texts(v@);
        assert(after =~= before.insert(i as int, s@));
        assert forall|a: int, b: int| 0 <= a < b < after.len() implies text_lt(
            #[trigger] after[a],
            #[trigger] after[b],
        ) by {
            if b == i {
                assert(after[a] == before[a]);
            } else if a == i {
                assert(after[b] == before[b - 1]);
                if b - 1 > i {
                    assert(text_lt(before[i as int], before[b - 1]));
                    lemma_text_lt_transitive(s@, before[i as int], before[b - 1]);
                }
            } else {
                let x = if a < i { a } else { a - 1 };
                let y = if b < i { b } else { b - 1 };
                assert(after[a] == before[x] && after[b] == before[y]);
            }
        }
        assert forall|x: Seq<char>| after.contains(x) == (before.contains(x) || x == s@) by {
            if before.contains(x) {
                let k = choose|k: int| 0 <= k < before.len() && before[k] == x;
                let m = if k < i { k } else { k + 1 };
                assert(after[m] == x);
            }
            if x == s@ {
                assert(after[i as int] == x);
            }
            if after.contains(x) && x != s@ {
                let k = choose|k: int| 0 <= k < after.len() && after[k] == x;
                let m = if k < i { k } else { k - 1 };
                assert(before[m] == x);
            }
        }
    }
}

// ---------------------------------------------------------------------------
// Stable sorting
// ---------------------------------------------------------------------------

/// A record with a place in an order that may rank two records alike.
pub trait Ranked: Sized {
    spec fn goes_before(&self, other: &Self) -> bool;

    fn ranks_before(&self, other: &Self) -> (r: bool)
        ensures
            r == self.goes_before(other),
    ;

    /// No record goes before itself, and where one goes before another, each
    /// third record goes after the one or before the other.
    proof fn lemma_rank(&self, b: &Self, c: &Self)
        ensures
            !self.goes_before(self),
            self.goes_before(b) && b.goes_before(c) ==> self.goes_before(c),
            self.goes_before(c) ==> self.goes_before(b) || b.goes_before(c),
    ;
}

/// The first place in `s` that `x` goes before.
pub open spec fn rank_place<T: Ranked>(s: Seq<T>, x: T) -> int
    decreases s.len(),
{
    if s.len() == 0 {
        0
    } else if x.goes_before(&s[0]) {
        0
    } else {
        1 + rank_place(s.skip(1), x)
    }
}

/// The records in order; records that rank alike keep their order.
pub open spec fn ranked<T: Ranked>(s: Seq<T>) -> Seq<T>
    decreases s.len(),
{
    if s.len() == 0 {
        s
    } else {
        let front = ranked(s.drop_last());
        front.insert(rank_place(front, s.last()), s.last())
    }
}

pub proof fn lemma_rank_place<T: Ranked>(s: Seq<T>, x: T)
    ensures
        0 <= rank_place(s, x) <= s.len(),
        forall|k: int| 0 <= k < rank_place(s, x) ==> !x.goes_before(#[trigger] &s[k]),
        rank_place(s, x) < s.len() ==> x.goes_before(&s[rank_place(s, x)]),
    decreases s.len(),
{
    if s.len() > 0 && !x.goes_before(&s[0]) {
        lemma_rank_place(s.skip(1), x);
        let n = rank_place(s.skip(1), x);
        assert forall|k: int| 0 <= k < 1 + n implies !x.goes_before(#[trigger] &s[k]) by {
            if k > 0 {
                assert(s.skip(1)[k - 1] == s[k]);
            }
        }
        if 1 + n < s.len() {
            assert(s.skip(1)[n] == s[1 + n]);
        }
    }
}

proof fn lemma_rank_place_is<T: Ranked>(s: Seq<T>, x: T, i: int)
    requires
        0 <= i <= s.len(),
        forall|k: int| 0 <= k < i ==> !x.goes_before(#[trigger] &s[k]),
        i < s.len() ==> x.goes_before(&s[i]),
    ensures
        rank_place(s, x) == i,
{
    lemma_rank_place(s, x);
    let n = rank_place(s, x);
    if n < i {
        assert(!x.goes_before(&s[n]));
    }
    if i < n {
        assert(!x.goes_before(&s[i]));
    }
}

/// Sorts a list; records that rank alike keep their order.
pub fn sort_ranked<T: Ranked>(v: Vec<T>) -> (r: Vec<T>)
    ensures
        r@ == ranked(v@),
{
    let ghost all = v@;
    let mut rest: Vec<T> = Vec::new();
    let mut from = v;
    while from.len() > 0
        invariant
            from@.len() + rest@.len() == all.len(),
            from@ == all.take(from@.len() as int),
            forall|k: int| 0 <= k < rest@.len() ==> rest@[k] == all[all.len() - 1 - k],
        decreases from.len(),
    {
        let ghost n = from@.len();
        match from.pop() {
            Some(x) => {
                rest.push(x);
                proof {
                    assert(from@ =~= all.take(from@.len() as int));
                }
            },
            None => {},
        }
    }
    let mut out: Vec<T> = Vec::new();
    proof {
        assert(all.take(0) =~= Seq::empty());
    }
    while rest.len() > 0
        invariant
            out@.len() + rest@.len() == all.len(),
            forall|k: int| 0 <= k < rest@.len() ==> rest@[k] == all[all.len() - 1 - k],
            out@ == ranked(all.take(out@.len() as int)),
        decreases rest.len(),
    {
        let ghost n = out@.len() as int;
        match rest.pop() {
            Some(x) => {
                proof {
                    assert(x == all[n]);
                    assert(all.take(n + 1).drop_last() =~= all.take(n));
                    assert(all.take(n + 1).last() == x);
                }
                let mut i: usize = 0;
                while i < out.len() && !x.ranks_before(&out[i])
                    invariant
                        i <= out.len(),
                        forall|k: int| 0 <= k < i ==> !x.goes_before(#[trigger] &out@[k]),
                    decreases out.len() - i,
                {
                    i = i + 1;
                }
                proof {
                    lemma_rank_place_is(out@, x, i as int);
                }
                out.insert(i, x);
            },
            None => {},
        }
    }
    proof {
        assert(all.take(out@.len() as int) =~= all);
    }
    out
}

/// Sorting keeps every record and adds none.
pub proof fn ranking_keeps_every_record<T: Ranked>(s: Seq<T>)
    ensures
        ranked(s).to_multiset() == s.to_multiset(),
        ranked(s).len() == s.len(),
    decreases s.len(),
{
    if s.len() > 0 {
        let front = ranked(s.drop_last());
        ranking_keeps_every_record(s.drop_last());
        lemma_rank_place(front, s.last());
        vstd::seq_lib::to_multiset_insert(front, rank_place(front, s.last()), s.last());
        s.drop_last().to_multiset_ensures();
        assert(s.drop_last().push(s.last()) =~= s);
    }
}

/// Whether no record goes before one that stands ahead of it.
pub open spec fn in_rank_order<T: Ranked>(s: Seq<T>) -> bool {
    forall|i: int, j: int| 0 <= i < j < s.len() ==> !(#[trigger] s[j]).goes_before(#[trigger] &s[i])
}

/// After sorting, no record goes before one that stands ahead of it.
pub proof fn ranking_puts_records_in_order<T: Ranked>(s: Seq<T>)
    ensures
        in_rank_order(ranked(s)),
    decreases s.len(),
{
    if s.len() > 0 {
        let front = ranked(s.drop_last());
        let x = s.last();
        let p = rank_place(front, x);
        ranking_puts_records_in_order(s.drop_last());
        lemma_rank_place(front, x);
        let w = front.insert(p, x);
        assert forall|i: int, j: int| 0 <= i < j < w.len() implies !(#[trigger] w[j]).goes_before(
            #[trigger] &w[i],
        ) by {
            if j == p {
                assert(w[i] == front[i]);
            } else if i == p {
                assert(w[j] == front[j - 1]);
                // `x` goes before the record at its place, which goes before no
                // earlier record.
                x.lemma_rank(&front[p], &front[j - 1]);
                front[j - 1].lemma_rank(&x, &front[p]);
                if j - 1 > p {
                    assert(!front[j - 1].goes_before(&front[p]));
                }
                if front[j - 1].goes_before(&x) {
                    front[j - 1].lemma_rank(&x, &front[p]);
                    front[p].lemma_rank(&front[p], &front[p]);
                }
            } else {
                let a = if i < p { i } else { i - 1 };
                let b = if j < p { j } else { j - 1 };
                assert(w[i] == front[a] && w[j] == front[b]);
            }
        }
    }
}

// ---------------------------------------------------------------------------
// Sorting texts
// ---------------------------------------------------------------------------

/// The first place whose text comes after `x`.
pub open spec fn text_place(s: Seq<Seq<char>>, x: Seq<char>) -> int
    decreases s.len(),
{
    if s.len() == 0 {
        0
    } else if text_lt(x, s[0]) {
        0
    } else {
        1 + text_place(s.skip(1), x)
    }
}

/// The texts in order, repeated ones kept.
pub open spec fn sorted_texts(s: Seq<Seq<char>>) -> Seq<Seq<char>>
    decreases s.len(),
{
    if s.len() == 0 {
        s
    } else {
        let front = sorted_texts(s.drop_last());
        front.insert(text_place(front, s.last()), s.last())
    }
}

pub proof fn lemma_text_place(s: Seq<Seq<char>>, x: Seq<char>)
    ensures
        0 <= text_place(s, x) <= s.len(),
        forall|k: int| 0 <= k < text_place(s, x) ==> !text_lt(x, #[trigger] s[k]),
        text_place(s, x) < s.len() ==> text_lt(x, s[text_place(s, x)]),
    decreases s.len(),
{
    if s.len() > 0 && !text_lt(x, s[0]) {
        lemma_text_place(s.skip(1), x);
        let n = text_place(s.skip(1), x);
        assert forall|k: int| 0 <= k < 1 + n implies !text_lt(x, #[trigger] s[k]) by {
            if k > 0 {
                assert(s.skip(1)[k - 1] == s[k]);
            }
        }
        if 1 + n < s.len() {
            assert(s.skip(1)[n] == s[1 + n]);
        }
    }
}

pub fn sort_texts(v: &[String]) -> (r: Vec<String>)
    ensures
        texts(r@) == sorted_texts(texts(v@)),
{
    let ghost all = texts(v@);
    let mut out: Vec<String> = Vec::new();
    let mut n: usize = 0;
    proof {
        assert(all.take(0) =~= Seq::empty());
        assert(texts(out@) =~= Seq::empty());
    }
    while n < v.len()
        invariant
            all == texts(v@),
            n <= v.len(),
            texts(out@) == sorted_texts(all.take(n as int)),
        decreases v.len() - n,
    {
        let ghost now = texts(out@);
        let x = v[n].clone();
        let mut i: usize = 0;
        while i < out.len() && !less_text(x.as_str(), out[i].as_str())
            invariant
                now == texts(out@),
                i <= out.len(),
                forall|k: int| 0 <= k < i ==> !text_lt(x@, #[trigger] now[k]),
            decreases out.len() - i,
        {
            proof {
                assert(now[i as int] == out@[i as int]@);
            }
            i = i + 1;
        }
        proof {
            if i < out.len() {
                assert(now[i as int] == out@[i as int]@);
            }
            lemma_text_place(now, x@);
            let p = text_place(now, x@);
            if p < i {
                assert(!text_lt(x@, now[p]));
            }
            if i < p {
                assert(!text_lt(x@, now[i as int]));
            }
            assert(all.take(n + 1).drop_last() =~= all.take(n as int));
            assert(all.take(n + 1).last() == x@);
        }
        out.insert(i, x);
        proof {
            assert(texts(out@) =~= now.insert(i as int, x@));
        }
        n = n + 1;
    }
    proof {
        assert(all.take(n as int) =~= all);
    }
    out
}

/// Sorting texts keeps every text, however often it occurs, and leaves none
/// ahead of a smaller one.
pub proof fn sorting_texts_orders_them(s: Seq<Seq<char>>)
    ensures
        sorted_texts(s).to_multiset() == s.to_multiset(),
        forall|i: int, j: int|
            0 <= i < j < sorted_texts(s).len() ==> !text_lt(
                #[trigger] sorted_texts(s)[j],
                #[trigger] sorted_texts(s)[i],
            ),
    decreases s.len(),
{
    if s.len() > 0 {
        let front = sorted_texts(s.drop_last());
        let x = s.last();
        let p = text_place(front, x);
        sorting_texts_orders_them(s.drop_last());
        lemma_text_place(front, x);
        vstd::seq_lib::to_multiset_insert(front, p, x);
        s.drop_last().to_multiset_ensures();
        assert(s.drop_last().push(x) =~= s);
        let w = front.insert(p, x);
        assert forall|i: int, j: int| 0 <= i < j < w.len() implies !text_lt(
            #[trigger] w[j],
            #[trigger] w[i],
        ) by {
            if j == p {
                assert(w[i] == front[i]);
            } else if i == p {
                assert(w[j] == front[j - 1]);
                if text_lt(front[j - 1], x) {
                    lemma_text_lt_transitive(front[j - 1], x, front[p]);
                    if j - 1 == p {
                        lemma_text_lt_irreflexive(front[p]);
                    }
                }
            } else {
                let a = if i < p { i } else { i - 1 };
                let b = if j < p { j } else { j - 1 };
                assert(w[i] == front[a] && w[j] == front[b]);
            }
        }
    }
}

} // verus!
