//! How much of an edit's changed lines a commit holds.
use crate::binary64::{
    Binary64, LEAST_MANTISSA, MANTISSA_END, below, count_of, divide, four_fifths, from_count,
    lemma_rounded_normal, lemma_two_to_adds, lemma_two_to_grows, lemma_two_to_positive,
    lemma_two_to_values, multiply, normal, one, plus, product, quotient, sum, two_to,
};
use crate::binary64_laws::{
    a_rounded_ratio_is_one_only_of_equals, lemma_product_by_count, lemma_quotient_by_count,
    lemma_quotient_of_counts, lemma_sum_close, rounding_is_close, scaled,
};
use crate::text::texts;
use vstd::prelude::*;

verus! {

/// How many of the first lines of `needle` stand in the first `n` lines of
/// `haystack`, in order.
pub open spec fn ordered_matches(needle: Seq<Seq<char>>, haystack: Seq<Seq<char>>, n: int) -> int
    decreases n,
{
    if n <= 0 {
        0
    } else {
        let m = ordered_matches(needle, haystack, n - 1);
        if m < needle.len() && needle[m] == haystack[n - 1] {
            m + 1
        } else {
            m
        }
    }
}

pub open spec fn ordered_overlap(needle: Seq<Seq<char>>, haystack: Seq<Seq<char>>) -> int {
    ordered_matches(needle, haystack, haystack.len() as int)
}

proof fn lemma_ordered_full(needle: Seq<Seq<char>>, haystack: Seq<Seq<char>>, k: int, n: int)
    requires
        0 <= k <= n,
        ordered_matches(needle, haystack, k) == needle.len(),
    ensures
        ordered_matches(needle, haystack, n) == needle.len(),
    decreases n,
{
    if k < n {
        lemma_ordered_full(needle, haystack, k, n - 1);
    }
}

/// How many of the first lines of `needle` stand in `haystack`, in order.
pub fn ordered_overlap_count(needle: &[String], haystack: &[String]) -> (r: usize)
    ensures
        r == ordered_overlap(texts(needle@), texts(haystack@)),
        r <= needle@.len(),
{
    let ghost n = texts(needle@);
    let ghost h = texts(haystack@);
    let mut matched: usize = 0;
    let mut i: usize = 0;
    while i < haystack.len()
        invariant
            n == texts(needle@),
            h == texts(haystack@),
            i <= haystack.len(),
            matched <= needle.len(),
            matched == ordered_matches(n, h, i as int),
        decreases haystack.len() - i,
    {
        if matched == needle.len() {
            proof {
                lemma_ordered_full(n, h, i as int, h.len() as int);
            }
            return matched;
        }
        proof {
            assert(n[matched as int] == needle@[matched as int]@);
            assert(h[i as int] == haystack@[i as int]@);
        }
        if needle[matched] == haystack[i] {
            matched = matched + 1;
        }
        i = i + 1;
    }
    proof {
        assert(h.len() == haystack@.len());
    }
    matched
}

/// The share of an edit's lines that were matched; of no lines it is all.
pub open spec fn overlap_ratio(matched: int, count: int) -> (int, int) {
    if count == 0 {
        one()
    } else {
        quotient(count_of(matched), count_of(count))
    }
}

/// The shares of added and of deleted lines together, each by how many lines
/// there are; nothing where there are none.
pub open spec fn weighted_share(
    added: (int, int),
    added_count: int,
    deleted: (int, int),
    deleted_count: int,
) -> (int, int) {
    let both = added_count + deleted_count;
    let total = if both > usize::MAX {
        usize::MAX as int
    } else {
        both
    };
    if total == 0 {
        (0, 0)
    } else {
        quotient(
            sum(
                product(added, count_of(added_count)),
                product(deleted, count_of(deleted_count)),
            ),
            count_of(total),
        )
    }
}

/// The share of `needle` that stands in `haystack`, in order.
pub fn ordered_overlap_ratio(needle: &[String], haystack: &[String]) -> (r: Binary64)
    ensures
        r@ == overlap_ratio(
            ordered_overlap(texts(needle@), texts(haystack@)),
            needle@.len() as int,
        ),
        normal(r@),
        -500 <= r.exponent <= 500,
{
    if needle.len() == 0 {
        return Binary64 { mantissa: LEAST_MANTISSA, exponent: -52 };
    }
    let matched: usize = ordered_overlap_count(needle, haystack);
    divide(from_count(matched as u64), from_count(needle.len() as u64))
}

pub fn weighted_overlap(
    added: Binary64,
    added_count: usize,
    deleted: Binary64,
    deleted_count: usize,
) -> (r: Binary64)
    requires
        normal(added@),
        normal(deleted@),
        -500 <= added.exponent <= 500,
        -500 <= deleted.exponent <= 500,
    ensures
        r@ == weighted_share(added@, added_count as int, deleted@, deleted_count as int),
        normal(r@),
{
    let total: usize = added_count.saturating_add(deleted_count);
    if total == 0 {
        return Binary64 { mantissa: 0, exponent: 0 };
    }
    let a = multiply(added, from_count(added_count as u64));
    let d = multiply(deleted, from_count(deleted_count as u64));
    let s = plus(a, d);
    divide(s, from_count(total as u64))
}

// ---------------------------------------------------------------------------
// What a share says of the lines
// ---------------------------------------------------------------------------

/// Whether `places` are places in `haystack`, one after the other, that hold the
/// lines of `needle`.
pub open spec fn stands_at(
    needle: Seq<Seq<char>>,
    haystack: Seq<Seq<char>>,
    places: Seq<int>,
) -> bool {
    &&& places.len() == needle.len()
    &&& forall|i: int| 0 <= i < places.len() ==> 0 <= #[trigger] places[i] < haystack.len()
    &&& forall|i: int| 0 <= i < places.len() ==> haystack[#[trigger] places[i]] == needle[i]
    &&& forall|i: int, j: int|
        0 <= i < j < places.len() ==> (#[trigger] places[i]) < (#[trigger] places[j])
}

/// Whether the lines of `needle` stand in `haystack` in order, with others among
/// them perhaps.
pub open spec fn stands_in(needle: Seq<Seq<char>>, haystack: Seq<Seq<char>>) -> bool {
    exists|places: Seq<int>| stands_at(needle, haystack, places)
}

proof fn lemma_ordered_bounds(needle: Seq<Seq<char>>, haystack: Seq<Seq<char>>, n: int)
    ensures
        0 <= ordered_matches(needle, haystack, n) <= needle.len(),
    decreases n,
{
    if n > 0 {
        lemma_ordered_bounds(needle, haystack, n - 1);
    }
}

/// What was matched stands in the part that was read.
proof fn lemma_matched_stands(needle: Seq<Seq<char>>, haystack: Seq<Seq<char>>, n: int) -> (places:
    Seq<int>)
    requires
        0 <= n <= haystack.len(),
    ensures
        stands_at(
            needle.take(ordered_matches(needle, haystack, n)),
            haystack.take(n),
            places,
        ),
    decreases n,
{
    lemma_ordered_bounds(needle, haystack, n);
    if n == 0 {
        Seq::empty()
    } else {
        let before = lemma_matched_stands(needle, haystack, n - 1);
        let m = ordered_matches(needle, haystack, n - 1);
        lemma_ordered_bounds(needle, haystack, n - 1);
        let places = if ordered_matches(needle, haystack, n) == m {
            before
        } else {
            before.push(n - 1)
        };
        let part = needle.take(ordered_matches(needle, haystack, n));
        let read = haystack.take(n);
        assert forall|i: int| 0 <= i < places.len() implies 0 <= #[trigger] places[i] < read.len()
            && read[places[i]] == part[i] by {
            if i < before.len() {
                assert(places[i] == before[i]);
                assert(0 <= before[i] < haystack.take(n - 1).len());
                assert(haystack.take(n - 1)[before[i]] == needle.take(m)[i]);
                assert(read[before[i]] == haystack.take(n - 1)[before[i]]);
            }
        }
        assert forall|i: int, j: int| 0 <= i < j < places.len() implies (#[trigger] places[i]) < (
        #[trigger] places[j]) by {
            assert(places[i] == before[i]);
            assert(0 <= before[i] < haystack.take(n - 1).len());
            if j < before.len() {
                assert(places[j] == before[j]);
            }
        }
        places
    }
}

/// Reading on matches as many lines as any other choice of places.
proof fn lemma_places_matched(
    needle: Seq<Seq<char>>,
    haystack: Seq<Seq<char>>,
    places: Seq<int>,
    k: int,
    n: int,
)
    requires
        stands_at(needle, haystack, places),
        0 <= k <= places.len(),
        0 <= n <= haystack.len(),
        k == 0 || places[k - 1] < n,
    ensures
        ordered_matches(needle, haystack, n) >= k,
    decreases n,
{
    lemma_ordered_bounds(needle, haystack, n);
    if k > 0 {
        assert(0 <= places[k - 1] < haystack.len());
        lemma_ordered_bounds(needle, haystack, n - 1);
        if places[k - 1] < n - 1 {
            lemma_places_matched(needle, haystack, places, k, n - 1);
        } else {
            if k > 1 {
                assert(places[k - 2] < places[k - 1]);
            }
            lemma_places_matched(needle, haystack, places, k - 1, n - 1);
            assert(haystack[places[k - 1]] == needle[k - 1]);
        }
    }
}

/// An edit's lines are all matched exactly where they stand in the commit's lines
/// in order.
pub proof fn a_full_overlap_holds_every_line_in_order(needle: Seq<Seq<char>>, haystack: Seq<Seq<char>>)
    ensures
        (ordered_overlap(needle, haystack) == needle.len()) == stands_in(needle, haystack),
        0 <= ordered_overlap(needle, haystack) <= needle.len(),
{
    let n = haystack.len() as int;
    lemma_ordered_bounds(needle, haystack, n);
    if ordered_overlap(needle, haystack) == needle.len() {
        let places = lemma_matched_stands(needle, haystack, n);
        assert(needle.take(needle.len() as int) =~= needle);
        assert(haystack.take(n) =~= haystack);
        assert(stands_at(needle, haystack, places));
    }
    if stands_in(needle, haystack) {
        let places = choose|places: Seq<int>| stands_at(needle, haystack, places);
        let k = places.len() as int;
        if k > 0 {
            assert(0 <= places[k - 1] < haystack.len());
        }
        lemma_places_matched(needle, haystack, places, k, n);
    }
}

/// A share is 1 exactly where every line was matched.
pub proof fn a_whole_share_is_of_every_line(matched: int, count: int)
    requires
        0 <= matched <= count < MANTISSA_END,
    ensures
        (overlap_ratio(matched, count) == one()) == (matched == count),
{
    if count > 0 {
        a_rounded_ratio_is_one_only_of_equals(matched, count);
    }
}

proof fn lemma_share_of_part(m: int, c: int, k: int)
    requires
        0 <= m <= c < MANTISSA_END,
        k >= 1,
        overlap_ratio(m, c).1 + k >= 1,
        product(overlap_ratio(m, c), count_of(c)).1 + k >= 1,
    ensures
        MANTISSA_END * (MANTISSA_END * scaled(product(overlap_ratio(m, c), count_of(c)), k)) <= (
        MANTISSA_END + 1) * ((MANTISSA_END + 1) * (m * two_to(k))),
        MANTISSA_END * (MANTISSA_END * scaled(product(overlap_ratio(m, c), count_of(c)), k)) >= (
        MANTISSA_END - 1) * ((MANTISSA_END - 1) * (m * two_to(k))),
        normal(product(overlap_ratio(m, c), count_of(c))),
{
    let r = overlap_ratio(m, c);
    let p = product(r, count_of(c));
    lemma_rounded_normal(r.0 * count_of(c).0, 1, r.1 + count_of(c).1);
    lemma_two_to_positive(k);
    if m == 0 {
        assert(r.0 * count_of(c).0 == 0) by {
            assert(count_of(0) == (0int, 0int));
            if c > 0 {
                assert(r.0 == 0);
            } else {
                assert(count_of(c).0 == 0);
            }
            assert(r.0 * count_of(c).0 == 0) by (nonlinear_arith)
                requires
                    r.0 == 0 || count_of(c).0 == 0,
            ;
        }
        assert(p == (0int, 0int));
        assert(0 * two_to(p.1 + k) == 0);
        assert(0 * two_to(k) == 0);
    } else {
        lemma_quotient_of_counts(m, c);
        lemma_rounded_normal(m, c, 0);
        lemma_product_by_count(r, c);
        rounding_is_close(m, c, 0, k);
        assert(r.0 * c > 0) by (nonlinear_arith)
            requires
                r.0 > 0,
                c > 0,
        ;
        rounding_is_close(r.0 * c, 1, r.1, k);
        let s = scaled(r, k) * c;
        assert((r.0 * c) * two_to(r.1 + k) == (r.0 * two_to(r.1 + k)) * c) by (nonlinear_arith);
        assert(scaled(p, k) * 1 == scaled(p, k));
        let q = scaled(p, k);
        let t = m * two_to(k);
        assert(0x20_0000_0000_0000 * (0x20_0000_0000_0000 * q) <= (0x20_0000_0000_0000 + 1) * ((
        0x20_0000_0000_0000 + 1) * t)) by (nonlinear_arith)
            requires
                0x20_0000_0000_0000 * s <= (0x20_0000_0000_0000 + 1) * t,
                0x20_0000_0000_0000 * q <= (0x20_0000_0000_0000 + 1) * s,
        ;
        assert(0x20_0000_0000_0000 * (0x20_0000_0000_0000 * q) >= (0x20_0000_0000_0000 - 1) * ((
        0x20_0000_0000_0000 - 1) * t)) by (nonlinear_arith)
            requires
                0x20_0000_0000_0000 * s >= (0x20_0000_0000_0000 - 1) * t,
                0x20_0000_0000_0000 * q >= (0x20_0000_0000_0000 - 1) * s,
        ;
    }
}

proof fn lemma_enough(w: (int, int), k: int)
    requires
        normal(w),
        !below(w, four_fifths()),
        k >= 53,
    ensures
        w.0 > 0,
        scaled(w, k) >= 0x19_9999_9999_999A * two_to(k - 53),
{
    let q = two_to(k - 53);
    lemma_two_to_positive(k - 53);
    if w.1 > -53 {
        lemma_two_to_grows(k - 52, w.1 + k);
        assert(two_to(k - 52) == 2 * q);
        assert(scaled(w, k) >= 0x10_0000_0000_0000 * (2 * q)) by (nonlinear_arith)
            requires
                scaled(w, k) == w.0 * two_to(w.1 + k),
                w.0 >= 0x10_0000_0000_0000,
                two_to(w.1 + k) >= 2 * q,
                q >= 1,
        ;
    } else {
        assert(w.0 * q >= 0x19_9999_9999_999A * q) by (nonlinear_arith)
            requires
                w.0 >= 0x19_9999_9999_999A,
                q >= 1,
        ;
    }
}

spec fn magnitude(n: int) -> int {
    if n < 0 {
        -n
    } else {
        n
    }
}

/// The rounding errors of a share of fewer than 2^48 lines are too small to
/// matter.
proof fn lemma_errors_too_small(matched: int, total: int)
    requires
        0 <= matched,
        0 < total < 0x1_0000_0000_0000,
        ({
            let e: int = 0x20_0000_0000_0000;
            let u: int = 0x20_0000_0000_0001;
            5 * (u * u * u * u * matched) >= 4 * (e * e * e * e * total)
        }),
    ensures
        5 * matched >= 4 * total,
{
    let e: int = 0x20_0000_0000_0000;
    let u: int = 0x20_0000_0000_0001;
    let e4 = e * e * e * e;
    let u4 = u * u * u * u;
    if 5 * matched <= 4 * total - 1 {
        assert(u4 * (5 * matched) <= u4 * (4 * total - 1)) by (nonlinear_arith)
            requires
                5 * matched <= 4 * total - 1,
                u4 > 0,
        ;
        assert(u4 * (5 * matched) == 5 * (u4 * matched)) by (nonlinear_arith);
        assert(u4 * (4 * total - 1) == 4 * (u4 * total) - u4) by (nonlinear_arith);
        let d = u4 - e4;
        assert(u4 * total == e4 * total + d * total) by (nonlinear_arith)
            requires
                d == u4 - e4,
        ;
        assert(d * total <= d * 0x1_0000_0000_0000) by (nonlinear_arith)
            requires
                d > 0,
                total <= 0x1_0000_0000_0000,
        ;
        assert(4 * (d * 0x1_0000_0000_0000) < u4);
        assert(false);
    }
}

/// A share of at least four fifths means what it says: at least four fifths of the
/// lines were matched, where an edit has fewer than 2^48.
pub proof fn a_share_of_four_fifths_is_of_as_many_lines(
    added_matched: int,
    added: int,
    deleted_matched: int,
    deleted: int,
)
    requires
        0 <= added_matched <= added,
        0 <= deleted_matched <= deleted,
        added + deleted < 0x1_0000_0000_0000,
        added + deleted <= usize::MAX,
        !below(
            weighted_share(
                overlap_ratio(added_matched, added),
                added,
                overlap_ratio(deleted_matched, deleted),
                deleted,
            ),
            four_fifths(),
        ),
    ensures
        5 * (added_matched + deleted_matched) >= 4 * (added + deleted),
{
    let ra = overlap_ratio(added_matched, added);
    let rd = overlap_ratio(deleted_matched, deleted);
    let pa = product(ra, count_of(added));
    let pd = product(rd, count_of(deleted));
    let s = sum(pa, pd);
    let t = added + deleted;
    let w = weighted_share(ra, added, rd, deleted);
    if t > 0 {
        let k = 100 + magnitude(ra.1) + magnitude(rd.1) + magnitude(pa.1) + magnitude(pd.1)
            + magnitude(s.1) + magnitude(w.1);
        let tk = two_to(k);
        let q = two_to(k - 53);
        lemma_two_to_positive(k - 53);
        lemma_two_to_values();
        lemma_two_to_adds(53, k - 53);
        lemma_share_of_part(added_matched, added, k);
        lemma_share_of_part(deleted_matched, deleted, k);
        lemma_sum_close(pa, pd, k);
        lemma_rounded_normal(s.0, count_of(t).0, s.1 - count_of(t).1);
        lemma_enough(w, k);
        assert(s.0 > 0);
        lemma_quotient_by_count(s, t);
        rounding_is_close(s.0, t, s.1, k);
        let e: int = 0x20_0000_0000_0000;
        let u: int = 0x20_0000_0000_0001;
        let f: int = 0x19_9999_9999_999A;
        let vw = scaled(w, k);
        let vs = scaled(s, k);
        let va = scaled(pa, k);
        let vd = scaled(pd, k);
        let p = added_matched + deleted_matched;
        assert(e * (e * (va + vd)) <= u * (u * (p * tk))) by (nonlinear_arith)
            requires
                e * (e * va) <= u * (u * (added_matched * tk)),
                e * (e * vd) <= u * (u * (deleted_matched * tk)),
                p == added_matched + deleted_matched,
        ;
        assert(e * (e * (e * vs)) <= u * (u * (u * (p * tk)))) by (nonlinear_arith)
            requires
                e * vs <= u * (va + vd),
                e * (e * (va + vd)) <= u * (u * (p * tk)),
                e == 0x20_0000_0000_0000,
                u == 0x20_0000_0000_0001,
        ;
        assert(e * (e * (e * (e * (vw * t)))) <= u * (u * (u * (u * (p * tk))))) by (nonlinear_arith)
            requires
                e * (vw * t) <= u * vs,
                e * (e * (e * vs)) <= u * (u * (u * (p * tk))),
                e == 0x20_0000_0000_0000,
                u == 0x20_0000_0000_0001,
        ;
        assert(vw * t >= (f * q) * t) by (nonlinear_arith)
            requires
                vw >= f * q,
                t > 0,
        ;
        assert(tk == e * q);
        assert(e * (e * (e * (e * ((f * q) * t)))) <= u * (u * (u * (u * (p * (e * q))))))
            by (nonlinear_arith)
            requires
                e * (e * (e * (e * (vw * t)))) <= u * (u * (u * (u * (p * tk)))),
                vw * t >= (f * q) * t,
                tk == e * q,
                e == 0x20_0000_0000_0000,
        ;
        let x = e * e * e * f * t;
        let y = u * u * u * u * p;
        assert(e * (e * (e * (e * ((f * q) * t)))) == (e * q) * x) by (nonlinear_arith)
            requires
                x == e * e * e * f * t,
        ;
        assert(u * (u * (u * (u * (p * (e * q))))) == (e * q) * y) by (nonlinear_arith)
            requires
                y == u * u * u * u * p,
        ;
        assert(x <= y) by (nonlinear_arith)
            requires
                (e * q) * x <= (e * q) * y,
                e * q > 0,
        ;
        assert(5 * x >= 4 * (e * e * e * e * t)) by (nonlinear_arith)
            requires
                x == e * e * e * f * t,
                e == 0x20_0000_0000_0000,
                f == 0x19_9999_9999_999A,
                t > 0,
        ;
        lemma_errors_too_small(p, t);
    }
}

proof fn lemma_too_little(w: (int, int), k: int)
    requires
        normal(w),
        below(w, four_fifths()),
        k >= 53,
        w.1 + k >= 0,
    ensures
        scaled(w, k) < 0x19_9999_9999_999A * two_to(k - 53),
{
    let q = two_to(k - 53);
    lemma_two_to_positive(k - 53);
    lemma_two_to_positive(w.1 + k);
    if w.0 == 0 {
        assert(0 * two_to(w.1 + k) == 0);
    } else if w.1 < -53 {
        lemma_two_to_grows(w.1 + k, k - 54);
        if k > 53 {
            assert(q == 2 * two_to(k - 54));
        }
        assert(w.0 * two_to(w.1 + k) < 0x19_9999_9999_999A * q) by (nonlinear_arith)
            requires
                0 < w.0 < 0x20_0000_0000_0000,
                1 <= two_to(w.1 + k),
                2 * two_to(w.1 + k) <= q,
        ;
    } else {
        assert(w.0 * q < 0x19_9999_9999_999A * q) by (nonlinear_arith)
            requires
                w.0 < 0x19_9999_9999_999A,
                q >= 1,
        ;
    }
}

proof fn lemma_errors_too_small_below(matched: int, total: int)
    requires
        0 < total < 0x1_0000_0000_0000,
        ({
            let e: int = 0x20_0000_0000_0000;
            let d: int = 0x1F_FFFF_FFFF_FFFF;
            let f: int = 0x19_9999_9999_999A;
            d * d * d * d * matched < e * e * e * f * total
        }),
    ensures
        5 * matched <= 4 * total,
{
    let e: int = 0x20_0000_0000_0000;
    let d: int = 0x1F_FFFF_FFFF_FFFF;
    let f: int = 0x19_9999_9999_999A;
    let d4 = d * d * d * d;
    let g = e * e * e * f;
    if 5 * matched > 4 * total {
        assert(d4 * (5 * matched) >= d4 * (4 * total + 1)) by (nonlinear_arith)
            requires
                5 * matched >= 4 * total + 1,
                d4 > 0,
        ;
        assert(d4 * (5 * matched) == 5 * (d4 * matched)) by (nonlinear_arith);
        assert(d4 * (4 * total + 1) == 4 * (d4 * total) + d4) by (nonlinear_arith);
        assert(5 * (g * total) > 4 * (d4 * total) + d4);
        let h = 5 * g - 4 * d4;
        assert(h * total == 5 * (g * total) - 4 * (d4 * total)) by (nonlinear_arith)
            requires
                h == 5 * g - 4 * d4,
        ;
        assert(h * total <= h * 0x1_0000_0000_0000) by (nonlinear_arith)
            requires
                h > 0,
                total <= 0x1_0000_0000_0000,
        ;
        assert(h * 0x1_0000_0000_0000 < d4);
    }
}

/// Where more than four fifths of an edit's lines were matched, the share is at
/// least four fifths, if the edit has fewer than 2^48 lines.
pub proof fn more_than_four_fifths_of_the_lines_are_a_share_of_as_much(
    added_matched: int,
    added: int,
    deleted_matched: int,
    deleted: int,
)
    requires
        0 <= added_matched <= added,
        0 <= deleted_matched <= deleted,
        added + deleted < 0x1_0000_0000_0000,
        added + deleted <= usize::MAX,
        5 * (added_matched + deleted_matched) > 4 * (added + deleted),
    ensures
        !below(
            weighted_share(
                overlap_ratio(added_matched, added),
                added,
                overlap_ratio(deleted_matched, deleted),
                deleted,
            ),
            four_fifths(),
        ),
{
    let ra = overlap_ratio(added_matched, added);
    let rd = overlap_ratio(deleted_matched, deleted);
    let pa = product(ra, count_of(added));
    let pd = product(rd, count_of(deleted));
    let s = sum(pa, pd);
    let t = added + deleted;
    let w = weighted_share(ra, added, rd, deleted);
    if below(w, four_fifths()) {
        let k = 100 + magnitude(ra.1) + magnitude(rd.1) + magnitude(pa.1) + magnitude(pd.1)
            + magnitude(s.1) + magnitude(w.1);
        let tk = two_to(k);
        let q = two_to(k - 53);
        lemma_two_to_positive(k - 53);
        lemma_two_to_values();
        lemma_two_to_adds(53, k - 53);
        lemma_share_of_part(added_matched, added, k);
        lemma_share_of_part(deleted_matched, deleted, k);
        lemma_sum_close(pa, pd, k);
        lemma_rounded_normal(s.0, count_of(t).0, s.1 - count_of(t).1);
        lemma_too_little(w, k);
        let e: int = 0x20_0000_0000_0000;
        let d: int = 0x1F_FFFF_FFFF_FFFF;
        let f: int = 0x19_9999_9999_999A;
        let vw = scaled(w, k);
        let vs = scaled(s, k);
        let va = scaled(pa, k);
        let vd = scaled(pd, k);
        let p = added_matched + deleted_matched;
        assert(e * (e * (va + vd)) >= d * (d * (p * tk))) by (nonlinear_arith)
            requires
                e * (e * va) >= d * (d * (added_matched * tk)),
                e * (e * vd) >= d * (d * (deleted_matched * tk)),
                p == added_matched + deleted_matched,
        ;
        assert(e * (e * (e * vs)) >= d * (d * (d * (p * tk)))) by (nonlinear_arith)
            requires
                e * vs >= d * (va + vd),
                e * (e * (va + vd)) >= d * (d * (p * tk)),
                e == 0x20_0000_0000_0000,
                d == 0x1F_FFFF_FFFF_FFFF,
        ;
        assert(vs > 0) by (nonlinear_arith)
            requires
                e * (e * (e * vs)) >= d * (d * (d * (p * tk))),
                p > 0,
                tk >= 1,
                e == 0x20_0000_0000_0000,
                d == 0x1F_FFFF_FFFF_FFFF,
        ;
        lemma_two_to_positive(s.1 + k);
        assert(s.0 > 0) by (nonlinear_arith)
            requires
                vs > 0,
                vs == s.0 * two_to(s.1 + k),
                two_to(s.1 + k) >= 1,
        ;
        lemma_quotient_by_count(s, t);
        rounding_is_close(s.0, t, s.1, k);
        assert(e * (e * (e * (e * (vw * t)))) >= d * (d * (d * (d * (p * tk))))) by (nonlinear_arith)
            requires
                e * (vw * t) >= d * vs,
                e * (e * (e * vs)) >= d * (d * (d * (p * tk))),
                e == 0x20_0000_0000_0000,
                d == 0x1F_FFFF_FFFF_FFFF,
        ;
        assert(vw * t < (f * q) * t) by (nonlinear_arith)
            requires
                vw < f * q,
                t > 0,
        ;
        assert(tk == e * q);
        assert(e * (e * (e * (e * ((f * q) * t)))) > d * (d * (d * (d * (p * (e * q))))))
            by (nonlinear_arith)
            requires
                e * (e * (e * (e * (vw * t)))) >= d * (d * (d * (d * (p * tk)))),
                vw * t < (f * q) * t,
                tk == e * q,
                e == 0x20_0000_0000_0000,
        ;
        let x = e * e * e * f * t;
        let y = d * d * d * d * p;
        assert(e * (e * (e * (e * ((f * q) * t)))) == (e * q) * x) by (nonlinear_arith)
            requires
                x == e * e * e * f * t,
        ;
        assert(d * (d * (d * (d * (p * (e * q))))) == (e * q) * y) by (nonlinear_arith)
            requires
                y == d * d * d * d * p,
        ;
        assert(x > y) by (nonlinear_arith)
            requires
                (e * q) * x > (e * q) * y,
                e * q > 0,
        ;
        lemma_errors_too_small_below(p, t);
    }
}

} // verus!
