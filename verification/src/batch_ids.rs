//! The identifiers of batches and of the parts that a batch is sent as.
use crate::sync::MetadataKind;
use crate::text::{
    all_digits, chars_of, decimal, digit_ascii, first_place, last_place, lemma_decimal,
    lemma_decimal_parses, lemma_first_from, lemma_last_upto, number_digits, occurs_at, opt_text,
    parse_number, parsed_number, rfind_chars, same_text, slice_string, split_first, split_once,
};
use vstd::prelude::*;

verus! {

/// Whether a text is a number that counts something.
pub open spec fn is_count(s: Seq<char>) -> bool {
    parsed_number(s, usize::MAX as nat) is Some
}

/// The identifier before the last `_part_`, where what follows says which part of
/// how many it is.
pub open spec fn without_part(id: Seq<char>) -> Option<Seq<char>> {
    match last_place(id, "_part_"@) {
        Some(i) => match split_first(id.skip(i + "_part_"@.len()), "_of_"@) {
            Some(p) => if is_count(p.0) && is_count(p.1) {
                Some(id.take(i))
            } else {
                None
            },
            None => None,
        },
        None => None,
    }
}

/// The identifier before the last such marker, where a number follows it.
pub open spec fn without_marker(id: Seq<char>, marker: Seq<char>) -> Option<Seq<char>> {
    match last_place(id, marker) {
        Some(i) => if is_count(id.skip(i + marker.len())) {
            Some(id.take(i))
        } else {
            None
        },
        None => None,
    }
}

/// The identifier of the batch that a part was split from; a batch's own where it
/// is no part.
pub open spec fn parent_id(id: Seq<char>) -> Seq<char> {
    match without_part(id) {
        Some(x) => x,
        None => match without_marker(id, "_sources_"@) {
            Some(x) => x,
            None => match without_marker(id, "_accounts_"@) {
                Some(x) => x,
                None => match without_marker(id, "_assignments_"@) {
                    Some(x) => x,
                    None => match without_marker(id, "_subscriptions_"@) {
                        Some(x) => x,
                        None => id,
                    },
                },
            },
        },
    }
}

/// The identifier of the batch that a part, or a part of a part, was split from.
pub open spec fn logical_id(id: Seq<char>) -> Seq<char>
    decreases id.len(),
{
    let p = parent_id(id);
    if p.len() < id.len() {
        logical_id(p)
    } else {
        id
    }
}

/// An identifier is no shorter than that of the batch it was split from, and only
/// a batch's own identifier is as long.
pub proof fn lemma_parent_id(id: Seq<char>)
    ensures
        parent_id(id).len() <= id.len(),
        parent_id(id).len() == id.len() ==> parent_id(id) == id,
{
    reveal_strlit("_part_");
    reveal_strlit("_sources_");
    reveal_strlit("_accounts_");
    reveal_strlit("_assignments_");
    reveal_strlit("_subscriptions_");
    lemma_last_upto(id, "_part_"@, id.len() as int);
    lemma_last_upto(id, "_sources_"@, id.len() as int);
    lemma_last_upto(id, "_accounts_"@, id.len() as int);
    lemma_last_upto(id, "_assignments_"@, id.len() as int);
    lemma_last_upto(id, "_subscriptions_"@, id.len() as int);
}

fn counts(s: &str) -> (r: bool)
    ensures
        r == is_count(s@),
{
    match parse_number(s, usize::MAX as u64) {
        Some(_) => true,
        None => false,
    }
}

fn strip_part(id: &str) -> (r: Option<String>)
    ensures
        opt_text(r) == without_part(id@),
{
    let cs = chars_of(id);
    let marker = chars_of("_part_");
    match rfind_chars(&cs, &marker) {
        Some(i) => {
            let from: usize = i + marker.len();
            proof {
                assert(id@.skip(from as int) =~= id@.subrange(from as int, id@.len() as int));
                assert(id@.take(i as int) =~= id@.subrange(0, i as int));
            }
            let rest = slice_string(&cs, from, cs.len());
            match split_once(rest.as_str(), "_of_") {
                Some((part, total)) => if counts(part.as_str()) && counts(total.as_str()) {
                    Some(slice_string(&cs, 0, i))
                } else {
                    None
                },
                None => None,
            }
        },
        None => None,
    }
}

fn strip_marker(id: &str, marker: &str) -> (r: Option<String>)
    ensures
        opt_text(r) == without_marker(id@, marker@),
{
    let cs = chars_of(id);
    let ms = chars_of(marker);
    match rfind_chars(&cs, &ms) {
        Some(i) => {
            let from: usize = i + ms.len();
            proof {
                assert(id@.skip(from as int) =~= id@.subrange(from as int, id@.len() as int));
                assert(id@.take(i as int) =~= id@.subrange(0, i as int));
            }
            let rest = slice_string(&cs, from, cs.len());
            if counts(rest.as_str()) {
                Some(slice_string(&cs, 0, i))
            } else {
                None
            }
        },
        None => None,
    }
}

fn strip_one_http_rollup_batch_suffix(batch_id: &str) -> (r: String)
    ensures
        r@ == parent_id(batch_id@),
{
    match strip_part(batch_id) {
        Some(x) => return x,
        None => {},
    }
    match strip_marker(batch_id, "_sources_") {
        Some(x) => return x,
        None => {},
    }
    match strip_marker(batch_id, "_accounts_") {
        Some(x) => return x,
        None => {},
    }
    match strip_marker(batch_id, "_assignments_") {
        Some(x) => return x,
        None => {},
    }
    match strip_marker(batch_id, "_subscriptions_") {
        Some(x) => return x,
        None => {},
    }
    batch_id.to_owned()
}

/// The identifier of the batch that a part, or a part of a part, was split from.
pub fn logical_http_rollup_batch_id(batch_id: &str) -> (r: String)
    ensures
        r@ == logical_id(batch_id@),
{
    let mut current = batch_id.to_owned();
    loop
        invariant
            logical_id(batch_id@) == logical_id(current@),
        decreases current@.len(),
    {
        proof {
            lemma_parent_id(current@);
        }
        let next = strip_one_http_rollup_batch_suffix(current.as_str());
        if same_text(next.as_str(), current.as_str()) {
            return current;
        }
        current = next;
    }
}

// ---------------------------------------------------------------------------
// What holds of the identifiers of parts
// ---------------------------------------------------------------------------

proof fn lemma_count_has_no_underscore(s: Seq<char>, k: int)
    requires
        is_count(s),
        0 <= k < s.len(),
    ensures
        s[k] != '_',
{
    let d = number_digits(s);
    if s[0] == '+' {
        if k > 0 {
            assert(d[k - 1] == s[k]);
            assert(digit_ascii(d[k - 1]));
        }
    } else {
        assert(digit_ascii(d[k]));
    }
}

/// In `b + mark + d`, with `mark` ending in an underscore and `d` of digits only,
/// a pattern that ends in an underscore and is followed by a number ends where
/// `mark` ends.
proof fn lemma_mark_ends(b: Seq<char>, mark: Seq<char>, d: Seq<char>, q: Seq<char>, p: int)
    requires
        mark.len() > 0,
        mark.last() == '_',
        all_digits(d),
        q.len() > 0,
        q.last() == '_',
        occurs_at(b + mark + d, q, p),
        is_count((b + mark + d).skip(p + q.len())),
    ensures
        p + q.len() == b.len() + mark.len(),
{
    let s = b + mark + d;
    let end = p + q.len();
    let last = b.len() + mark.len();
    assert(s.subrange(p, end)[q.len() - 1] == s[end - 1]);
    assert(s[end - 1] == '_');
    if end < last {
        assert(s[last - 1] == '_') by {
            assert(s[last - 1] == mark[mark.len() - 1]);
        }
        assert(s.skip(end)[last - 1 - end] == s[last - 1]);
        lemma_count_has_no_underscore(s.skip(end), last - 1 - end);
    }
    if end > last {
        assert(s[end - 1] == d[end - 1 - last]);
        assert(digit_ascii(d[end - 1 - last]));
    }
}

/// A part with records other than usage belongs to the batch that it was split
/// from.
pub proof fn a_metadata_part_belongs_to_its_batch(b: Seq<char>, kind: MetadataKind, n: nat)
    requires
        n <= usize::MAX,
    ensures
        parent_id(b + kind.marker_spec() + decimal(n)) == b,
        logical_id(b + kind.marker_spec() + decimal(n)) == logical_id(b),
{
    let mark = kind.marker_spec();
    let d = decimal(n);
    let s = b + mark + d;
    let end = b.len() + mark.len();
    lemma_decimal(n);
    lemma_decimal_parses(n, usize::MAX as nat);
    reveal_strlit("_part_");
    reveal_strlit("_of_");
    reveal_strlit("_sources_");
    reveal_strlit("_accounts_");
    reveal_strlit("_assignments_");
    reveal_strlit("_subscriptions_");
    assert(mark.len() > 4);
    assert(mark.last() == '_');
    assert(mark[mark.len() - 2] == 's');
    assert(s.skip(end as int) =~= d);
    assert(s.take(b.len() as int) =~= b);
    // No part number.
    assert(without_part(s) is None) by {
        lemma_last_upto(s, "_part_"@, s.len() as int);
        if let Some(i) = last_place(s, "_part_"@) {
            let rest = s.skip(i + "_part_"@.len());
            lemma_first_from(rest, "_of_"@, 0);
            if let Some(k) = first_place(rest, "_of_"@) {
                let y = rest.skip(k + "_of_"@.len());
                if is_count(y) {
                    let p = i + "_part_"@.len() + k;
                    assert(y =~= s.skip(p + "_of_"@.len()));
                    assert(s.subrange(p, p + 4) =~= rest.subrange(k, k + 4));
                    assert(occurs_at(s, "_of_"@, p));
                    lemma_mark_ends(b, mark, d, "_of_"@, p);
                    assert(s.subrange(p, p + 4)[2] == s[p + 2]);
                    assert(s[p + 2] == mark[mark.len() - 2]);
                }
            }
        }
    }
    // Another marker does not end there.
    if kind != MetadataKind::Sources {
        lemma_other_marker(b, kind, d, MetadataKind::Sources);
    }
    if kind != MetadataKind::Accounts {
        lemma_other_marker(b, kind, d, MetadataKind::Accounts);
    }
    if kind != MetadataKind::Assignments {
        lemma_other_marker(b, kind, d, MetadataKind::Assignments);
    }
    if kind != MetadataKind::Subscriptions {
        lemma_other_marker(b, kind, d, MetadataKind::Subscriptions);
    }
    // The marker itself.
    assert(occurs_at(s, mark, b.len() as int)) by {
        assert(s.subrange(b.len() as int, (b.len() + mark.len()) as int) =~= mark);
    }
    lemma_last_upto(s, mark, s.len() as int);
    let i = last_place(s, mark)->0;
    assert(i == b.len()) by {
        if i > b.len() {
            assert(s.subrange(i, i + mark.len())[mark.len() - 1] == s[i + mark.len() - 1]);
            assert(s[i + mark.len() - 1] == d[i + mark.len() - 1 - end]);
            assert(digit_ascii(d[i + mark.len() - 1 - end]));
        }
    }
    assert(without_marker(s, mark) == Some(b));
    assert(parent_id(s) == b);
}

proof fn lemma_other_marker(b: Seq<char>, kind: MetadataKind, d: Seq<char>, other: MetadataKind)
    requires
        all_digits(d),
        d.len() > 0,
        other != kind,
    ensures
        without_marker(b + kind.marker_spec() + d, other.marker_spec()) is None,
{
    let mark = kind.marker_spec();
    let q = other.marker_spec();
    let s = b + mark + d;
    reveal_strlit("_sources_");
    reveal_strlit("_accounts_");
    reveal_strlit("_assignments_");
    reveal_strlit("_subscriptions_");
    lemma_last_upto(s, q, s.len() as int);
    if let Some(p) = last_place(s, q) {
        if is_count(s.skip(p + q.len())) {
            lemma_mark_ends(b, mark, d, q, p);
            // The markers differ in the last five characters.
            let end = b.len() + mark.len();
            assert(s.subrange(p, p + q.len())[q.len() - 3] == s[end - 3]);
            assert(s.subrange(p, p + q.len())[q.len() - 4] == s[end - 4]);
            assert(s.subrange(p, p + q.len())[q.len() - 5] == s[end - 5]);
            assert(s[end - 3] == mark[mark.len() - 3]);
            assert(s[end - 4] == mark[mark.len() - 4]);
            assert(s[end - 5] == mark[mark.len() - 5]);
        }
    }
}

/// A part with summaries belongs to the batch that it was split from.
pub proof fn a_summary_part_belongs_to_its_batch(b: Seq<char>, i: nat, n: nat)
    requires
        i <= usize::MAX,
        n <= usize::MAX,
    ensures
        parent_id(b + "_part_"@ + decimal(i) + "_of_"@ + decimal(n)) == b,
        logical_id(b + "_part_"@ + decimal(i) + "_of_"@ + decimal(n)) == logical_id(b),
{
    let x = decimal(i);
    let y = decimal(n);
    let s = b + "_part_"@ + x + "_of_"@ + y;
    lemma_decimal(i);
    lemma_decimal(n);
    lemma_decimal_parses(i, usize::MAX as nat);
    lemma_decimal_parses(n, usize::MAX as nat);
    reveal_strlit("_part_");
    reveal_strlit("_of_");
    let at = b.len() as int;
    assert(s.subrange(at, at + 6) =~= "_part_"@);
    assert(occurs_at(s, "_part_"@, at));
    lemma_last_upto(s, "_part_"@, s.len() as int);
    let p = last_place(s, "_part_"@)->0;
    assert(p == at) by {
        if p > at {
            assert(s.subrange(p, p + 6)[1] == s[p + 1]);
            // After the marker's own there is no `p`.
            let k = p + 1 - at;
            assert(k >= 2);
            if k < 6 {
                assert(s[p + 1] == "_part_"@[k]);
            } else if k < 6 + x.len() {
                assert(s[p + 1] == x[k - 6]);
                assert(digit_ascii(x[k - 6]));
            } else if k < 6 + x.len() + 4 {
                assert(s[p + 1] == "_of_"@[k - 6 - x.len()]);
            } else {
                assert(s[p + 1] == y[k - 10 - x.len()]);
                assert(digit_ascii(y[k - 10 - x.len()]));
            }
        }
    }
    let rest = s.skip(at + 6);
    assert(rest =~= x + "_of_"@ + y);
    lemma_first_from(rest, "_of_"@, 0);
    assert(rest.subrange(x.len() as int, x.len() as int + 4) =~= "_of_"@);
    assert(occurs_at(rest, "_of_"@, x.len() as int));
    let k = first_place(rest, "_of_"@)->0;
    assert(k == x.len()) by {
        if k < x.len() {
            assert(rest.subrange(k, k + 4)[0] == rest[k]);
            assert(rest[k] == x[k]);
            assert(digit_ascii(x[k]));
        }
    }
    assert(rest.take(k) =~= x);
    assert(rest.skip(k + 4) =~= y);
    assert(s.take(at) =~= b);
    assert(parent_id(s) == b);
}

} // verus!
