//! Text as sequences of characters: trimming, splitting, searching, joining,
//! ordering and decimal numbers.
use vstd::prelude::*;
use vstd::std_specs::iter::IteratorSpec;

verus! {

/// `String::push` appends one character.
pub assume_specification[ String::push ](s: &mut String, ch: char)
    ensures
        final(s)@ == old(s)@.push(ch),
;

/// The texts behind a sequence of strings.
pub open spec fn texts(v: Seq<String>) -> Seq<Seq<char>> {
    v.map_values(|s: String| s@)
}

/// The text behind an optional string.
pub open spec fn opt_text(o: Option<String>) -> Option<Seq<char>> {
    match o {
        Some(s) => Some(s@),
        None => None,
    }
}

/// The text behind an optional string slice.
pub open spec fn opt_str(o: Option<&str>) -> Option<Seq<char>> {
    match o {
        Some(s) => Some(s@),
        None => None,
    }
}

/// The characters of `s`, in order.
pub fn chars_of(s: &str) -> (r: Vec<char>)
    ensures
        r@ == s@,
{
    let mut out: Vec<char> = Vec::new();
    let mut it = s.chars();
    let ghost total = s@;
    loop
        invariant
            it.obeys_prophetic_iter_laws(),
            out@ + it.remaining() == total,
            it.decrease() is Some,
        ensures
            out@ == total,
        decreases it.decrease()->0,
    {
        match it.next() {
            Some(c) => {
                out.push(c);
                proof {
                    assert(out@ + it.remaining() =~= total);
                }
            },
            None => {
                proof {
                    assert(out@ =~= total);
                }
                break;
            },
        }
    }
    out
}

/// The string made of the characters from `lo` up to `hi`.
pub fn slice_string(chars: &[char], lo: usize, hi: usize) -> (r: String)
    requires
        lo <= hi <= chars@.len(),
    ensures
        r@ == chars@.subrange(lo as int, hi as int),
{
    let mut out = String::new();
    let mut i: usize = lo;
    while i < hi
        invariant
            lo <= i <= hi <= chars@.len(),
            out@ == chars@.subrange(lo as int, i as int),
        decreases hi - i,
    {
        out.push(chars[i]);
        i = i + 1;
        proof {
            assert(chars@.subrange(lo as int, i as int) =~= chars@.subrange(lo as int, i - 1).push(
                chars@[i - 1],
            ));
        }
    }
    out
}

/// Whether two texts hold the same characters.
pub fn same_text(a: &str, b: &str) -> (r: bool)
    ensures
        r == (a@ == b@),
{
    let x = chars_of(a);
    let y = chars_of(b);
    if x.len() != y.len() {
        return false;
    }
    let mut i: usize = 0;
    while i < x.len()
        invariant
            x@ == a@,
            y@ == b@,
            x.len() == y.len(),
            i <= x.len(),
            forall|k: int| 0 <= k < i ==> x@[k] == y@[k],
        decreases x.len() - i,
    {
        if x[i] != y[i] {
            return false;
        }
        i = i + 1;
    }
    proof {
        assert(x@ =~= y@);
    }
    true
}

/// Whether two optional texts are both missing, or both there and the same.
pub fn same_opt(a: &Option<String>, b: &Option<String>) -> (r: bool)
    ensures
        r == (opt_text(*a) == opt_text(*b)),
{
    match (a, b) {
        (Some(x), Some(y)) => same_text(x.as_str(), y.as_str()),
        (None, None) => true,
        _ => false,
    }
}

/// A copy of an optional string.
pub fn copy_opt(o: &Option<String>) -> (r: Option<String>)
    ensures
        r == *o,
{
    match o {
        Some(s) => Some(s.clone()),
        None => None,
    }
}

/// A copy of a list of strings.
pub fn copy_texts(v: &[String]) -> (r: Vec<String>)
    ensures
        r@ == v@,
{
    let mut out: Vec<String> = Vec::new();
    let mut i: usize = 0;
    while i < v.len()
        invariant
            i <= v.len(),
            out@ == v@.take(i as int),
        decreases v.len() - i,
    {
        out.push(v[i].clone());
        i = i + 1;
        proof {
            assert(v@.take(i as int) =~= v@.take(i - 1).push(v@[i - 1]));
        }
    }
    proof {
        assert(v@.take(i as int) =~= v@);
    }
    out
}

/// One text followed by another.
pub fn concat2(a: &str, b: &str) -> (r: String)
    ensures
        r@ == a@ + b@,
{
    let mut out = a.to_owned();
    out.append(b);
    out
}

/// Three texts, one after the other.
pub fn concat3(a: &str, b: &str, c: &str) -> (r: String)
    ensures
        r@ == a@ + b@ + c@,
{
    let mut out = a.to_owned();
    out.append(b);
    out.append(c);
    out
}

// ---------------------------------------------------------------------------
// Characters
// ---------------------------------------------------------------------------

/// Characters that count as white space (the Unicode property White_Space).
pub open spec fn white(c: char) -> bool {
    ||| ('\u{9}' <= c && c <= '\u{d}')
    ||| c == ' '
    ||| c == '\u{85}'
    ||| c == '\u{a0}'
    ||| c == '\u{1680}'
    ||| ('\u{2000}' <= c && c <= '\u{200a}')
    ||| c == '\u{2028}'
    ||| c == '\u{2029}'
    ||| c == '\u{202f}'
    ||| c == '\u{205f}'
    ||| c == '\u{3000}'
}

pub fn is_white(c: char) -> (r: bool)
    ensures
        r == white(c),
{
    ('\u{9}' <= c && c <= '\u{d}') || c == ' ' || c == '\u{85}' || c == '\u{a0}' || c == '\u{1680}'
        || ('\u{2000}' <= c && c <= '\u{200a}') || c == '\u{2028}' || c == '\u{2029}' || c
        == '\u{202f}' || c == '\u{205f}' || c == '\u{3000}'
}

pub open spec fn upper_ascii(c: char) -> bool {
    'A' <= c && c <= 'Z'
}

pub open spec fn lower_ascii(c: char) -> bool {
    'a' <= c && c <= 'z'
}

pub open spec fn digit_ascii(c: char) -> bool {
    '0' <= c && c <= '9'
}

/// An ASCII capital becomes the small letter; every other character stays.
pub open spec fn lower(c: char) -> char {
    if upper_ascii(c) {
        ((c as u8) + 32) as u8 as char
    } else {
        c
    }
}

/// An ASCII small letter becomes the capital; every other character stays.
pub open spec fn upper(c: char) -> char {
    if lower_ascii(c) {
        ((c as u8) - 32) as u8 as char
    } else {
        c
    }
}

pub fn to_lower(c: char) -> (r: char)
    ensures
        r == lower(c),
{
    if 'A' <= c && c <= 'Z' {
        let b: u8 = c as u8;
        (b + 32) as char
    } else {
        c
    }
}

pub fn to_upper(c: char) -> (r: char)
    ensures
        r == upper(c),
{
    if 'a' <= c && c <= 'z' {
        let b: u8 = c as u8;
        (b - 32) as char
    } else {
        c
    }
}

/// The text with ASCII capitals made small.
pub open spec fn lowered(s: Seq<char>) -> Seq<char> {
    s.map_values(|c: char| lower(c))
}

pub fn ascii_lowercase(s: &str) -> (r: String)
    ensures
        r@ == lowered(s@),
{
    let cs = chars_of(s);
    let mut out = String::new();
    let mut i: usize = 0;
    while i < cs.len()
        invariant
            cs@ == s@,
            i <= cs.len(),
            out@ == lowered(s@).take(i as int),
        decreases cs.len() - i,
    {
        out.push(to_lower(cs[i]));
        i = i + 1;
        proof {
            assert(lowered(s@).take(i as int) =~= lowered(s@).take(i - 1).push(lowered(s@)[i - 1]));
        }
    }
    proof {
        assert(lowered(s@).take(i as int) =~= lowered(s@));
    }
    out
}

/// The text with each `from` replaced by `to`.
pub open spec fn replaced(s: Seq<char>, from: char, to: char) -> Seq<char> {
    s.map_values(|c: char| if c == from { to } else { c })
}

pub fn replace_char(s: &str, from: char, to: char) -> (r: String)
    ensures
        r@ == replaced(s@, from, to),
{
    let cs = chars_of(s);
    let mut out = String::new();
    let mut i: usize = 0;
    let ghost want = replaced(s@, from, to);
    while i < cs.len()
        invariant
            cs@ == s@,
            want == replaced(s@, from, to),
            i <= cs.len(),
            out@ == want.take(i as int),
        decreases cs.len() - i,
    {
        out.push(if cs[i] == from { to } else { cs[i] });
        i = i + 1;
        proof {
            assert(want.take(i as int) =~= want.take(i - 1).push(want[i - 1]));
        }
    }
    proof {
        assert(want.take(i as int) =~= want);
    }
    out
}

// ---------------------------------------------------------------------------
// Trimming
// ---------------------------------------------------------------------------

/// Without leading white space.
pub open spec fn trim_front(s: Seq<char>) -> Seq<char>
    decreases s.len(),
{
    if s.len() > 0 && white(s[0]) {
        trim_front(s.skip(1))
    } else {
        s
    }
}

/// Without trailing white space.
pub open spec fn trim_back(s: Seq<char>) -> Seq<char>
    decreases s.len(),
{
    if s.len() > 0 && white(s.last()) {
        trim_back(s.drop_last())
    } else {
        s
    }
}

/// Without white space at either end.
pub open spec fn trimmed(s: Seq<char>) -> Seq<char> {
    trim_back(trim_front(s))
}

/// Without trailing `c`.
pub open spec fn trim_back_char(s: Seq<char>, c: char) -> Seq<char>
    decreases s.len(),
{
    if s.len() > 0 && s.last() == c {
        trim_back_char(s.drop_last(), c)
    } else {
        s
    }
}

/// Without leading `c`.
pub open spec fn trim_front_char(s: Seq<char>, c: char) -> Seq<char>
    decreases s.len(),
{
    if s.len() > 0 && s[0] == c {
        trim_front_char(s.skip(1), c)
    } else {
        s
    }
}

/// Whether nothing but white space is there.
pub open spec fn blank(s: Seq<char>) -> bool {
    trimmed(s).len() == 0
}

pub fn trim(s: &str) -> (r: String)
    ensures
        r@ == trimmed(s@),
{
    let cs = chars_of(s);
    let mut lo: usize = 0;
    proof {
        assert(cs@.skip(0) =~= cs@);
    }
    while lo < cs.len() && is_white(cs[lo])
        invariant
            cs@ == s@,
            lo <= cs.len(),
            trim_front(cs@) == trim_front(cs@.skip(lo as int)),
        decreases cs.len() - lo,
    {
        proof {
            assert(cs@.skip(lo as int).skip(1) =~= cs@.skip(lo + 1));
        }
        lo = lo + 1;
    }
    let ghost front = cs@.skip(lo as int);
    let mut hi: usize = cs.len();
    proof {
        assert(front == trim_front(cs@));
        assert(cs@.subrange(lo as int, hi as int) =~= front);
    }
    while hi > lo && is_white(cs[hi - 1])
        invariant
            cs@ == s@,
            lo <= hi <= cs.len(),
            trim_back(front) == trim_back(cs@.subrange(lo as int, hi as int)),
        decreases hi,
    {
        proof {
            assert(cs@.subrange(lo as int, hi as int).drop_last() =~= cs@.subrange(
                lo as int,
                hi - 1,
            ));
        }
        hi = hi - 1;
    }
    slice_string(&cs, lo, hi)
}

pub fn trim_end_char(s: &str, c: char) -> (r: String)
    ensures
        r@ == trim_back_char(s@, c),
{
    let cs = chars_of(s);
    let mut hi: usize = cs.len();
    proof {
        assert(cs@.subrange(0, hi as int) =~= cs@);
    }
    while hi > 0 && cs[hi - 1] == c
        invariant
            cs@ == s@,
            hi <= cs.len(),
            trim_back_char(cs@, c) == trim_back_char(cs@.subrange(0, hi as int), c),
        decreases hi,
    {
        proof {
            assert(cs@.subrange(0, hi as int).drop_last() =~= cs@.subrange(0, hi - 1));
        }
        hi = hi - 1;
    }
    slice_string(&cs, 0, hi)
}

pub fn trim_start_char(s: &str, c: char) -> (r: String)
    ensures
        r@ == trim_front_char(s@, c),
{
    let cs = chars_of(s);
    let mut lo: usize = 0;
    proof {
        assert(cs@.skip(0) =~= cs@);
    }
    while lo < cs.len() && cs[lo] == c
        invariant
            cs@ == s@,
            lo <= cs.len(),
            trim_front_char(cs@, c) == trim_front_char(cs@.skip(lo as int), c),
        decreases cs.len() - lo,
    {
        proof {
            assert(cs@.skip(lo as int).skip(1) =~= cs@.skip(lo + 1));
        }
        lo = lo + 1;
    }
    proof {
        assert(cs@.subrange(lo as int, cs.len() as int) =~= cs@.skip(lo as int));
    }
    slice_string(&cs, lo, cs.len())
}

pub fn is_blank(s: &str) -> (r: bool)
    ensures
        r == blank(s@),
{
    let t = trim(s);
    t.as_str().is_empty()
}

// ---------------------------------------------------------------------------
// Prefixes, suffixes, searching
// ---------------------------------------------------------------------------

pub open spec fn starts(s: Seq<char>, p: Seq<char>) -> bool {
    p.len() <= s.len() && s.take(p.len() as int) == p
}

pub open spec fn ends(s: Seq<char>, p: Seq<char>) -> bool {
    p.len() <= s.len() && s.skip(s.len() - p.len()) == p
}

/// Whether `p` stands in `s` at `i`.
pub open spec fn occurs_at(s: Seq<char>, p: Seq<char>, i: int) -> bool {
    0 <= i && i + p.len() <= s.len() && s.subrange(i, i + p.len()) == p
}

pub open spec fn occurs(s: Seq<char>, p: Seq<char>) -> bool {
    exists|i: int| occurs_at(s, p, i)
}

/// The first place at or after `i` where `p` stands in `s`.
pub open spec fn first_from(s: Seq<char>, p: Seq<char>, i: int) -> Option<int>
    decreases s.len() + 1 - i,
{
    if i < 0 || i + p.len() > s.len() {
        None
    } else if occurs_at(s, p, i) {
        Some(i)
    } else {
        first_from(s, p, i + 1)
    }
}

/// The last place at or before `i` where `p` stands in `s`.
pub open spec fn last_upto(s: Seq<char>, p: Seq<char>, i: int) -> Option<int>
    decreases i + 1,
{
    if i < 0 {
        None
    } else if occurs_at(s, p, i) {
        Some(i)
    } else {
        last_upto(s, p, i - 1)
    }
}

pub open spec fn first_place(s: Seq<char>, p: Seq<char>) -> Option<int> {
    first_from(s, p, 0)
}

pub open spec fn last_place(s: Seq<char>, p: Seq<char>) -> Option<int> {
    last_upto(s, p, s.len() as int)
}

fn chars_occur_at(s: &[char], p: &[char], i: usize) -> (r: bool)
    ensures
        r == occurs_at(s@, p@, i as int),
{
    if p.len() > s.len() || i > s.len() - p.len() {
        return false;
    }
    let mut k: usize = 0;
    while k < p.len()
        invariant
            i + p.len() <= s.len(),
            k <= p.len(),
            forall|j: int| 0 <= j < k ==> s@[i + j] == p@[j],
        decreases p.len() - k,
    {
        if s[i + k] != p[k] {
            proof {
                assert(s@.subrange(i as int, i + p.len())[k as int] == s@[i + k]);
            }
            return false;
        }
        k = k + 1;
    }
    proof {
        assert(s@.subrange(i as int, i + p.len()) =~= p@);
    }
    true
}

pub fn find_chars(s: &[char], p: &[char]) -> (r: Option<usize>)
    ensures
        match r {
            Some(i) => first_place(s@, p@) == Some(i as int) && i + p.len() <= s.len(),
            None => first_place(s@, p@) is None,
        },
{
    if p.len() > s.len() {
        return None;
    }
    let mut i: usize = 0;
    while i <= s.len() - p.len()
        invariant
            p.len() <= s.len(),
            i <= s.len() - p.len() + 1,
            first_place(s@, p@) == first_from(s@, p@, i as int),
        decreases s.len() - p.len() + 1 - i,
    {
        if chars_occur_at(s, p, i) {
            return Some(i);
        }
        if i == s.len() - p.len() {
            proof {
                assert(first_from(s@, p@, i + 1) is None);
            }
            return None;
        }
        i = i + 1;
    }
    None
}

pub fn rfind_chars(s: &[char], p: &[char]) -> (r: Option<usize>)
    ensures
        match r {
            Some(i) => last_place(s@, p@) == Some(i as int) && i + p.len() <= s.len(),
            None => last_place(s@, p@) is None,
        },
{
    let mut i: usize = s.len();
    loop
        invariant
            i <= s.len(),
            last_place(s@, p@) == last_upto(s@, p@, i as int),
        decreases i,
    {
        if chars_occur_at(s, p, i) {
            return Some(i);
        }
        if i == 0 {
            proof {
                assert(last_upto(s@, p@, -1) is None);
            }
            return None;
        }
        i = i - 1;
    }
}

pub proof fn lemma_first_from(s: Seq<char>, p: Seq<char>, i: int)
    requires
        0 <= i,
    ensures
        match first_from(s, p, i) {
            Some(k) => i <= k && occurs_at(s, p, k) && forall|j: int|
                i <= j < k ==> !occurs_at(s, p, j),
            None => forall|j: int| i <= j ==> !occurs_at(s, p, j),
        },
    decreases s.len() + 1 - i,
{
    if i + p.len() > s.len() {
    } else if occurs_at(s, p, i) {
    } else {
        lemma_first_from(s, p, i + 1);
    }
}

pub proof fn lemma_last_upto(s: Seq<char>, p: Seq<char>, i: int)
    ensures
        match last_upto(s, p, i) {
            Some(k) => k <= i && occurs_at(s, p, k) && forall|j: int|
                k < j <= i ==> !occurs_at(s, p, j),
            None => forall|j: int| j <= i ==> !occurs_at(s, p, j),
        },
    decreases i + 1,
{
    if i < 0 {
    } else if occurs_at(s, p, i) {
    } else {
        lemma_last_upto(s, p, i - 1);
    }
}

pub fn contains_text(s: &str, p: &str) -> (r: bool)
    ensures
        r == occurs(s@, p@),
{
    let cs = chars_of(s);
    let ps = chars_of(p);
    proof {
        lemma_first_from(s@, p@, 0);
    }
    match find_chars(&cs, &ps) {
        Some(_) => {
            proof {
                assert(occurs_at(s@, p@, first_place(s@, p@)->0));
            }
            true
        },
        None => false,
    }
}

pub fn starts_with(s: &str, p: &str) -> (r: bool)
    ensures
        r == starts(s@, p@),
{
    let cs = chars_of(s);
    let ps = chars_of(p);
    proof {
        if p@.len() <= s@.len() {
            assert(s@.take(p@.len() as int) =~= s@.subrange(0, p@.len() as int));
        }
    }
    chars_occur_at(&cs, &ps, 0)
}

pub fn ends_with(s: &str, p: &str) -> (r: bool)
    ensures
        r == ends(s@, p@),
{
    let cs = chars_of(s);
    let ps = chars_of(p);
    if ps.len() > cs.len() {
        return false;
    }
    proof {
        let i = s@.len() - p@.len();
        assert(s@.skip(i) =~= s@.subrange(i, i + p@.len()));
    }
    chars_occur_at(&cs, &ps, cs.len() - ps.len())
}

/// What follows the prefix `p`, where `s` starts with it.
pub open spec fn after_prefix(s: Seq<char>, p: Seq<char>) -> Option<Seq<char>> {
    if starts(s, p) {
        Some(s.skip(p.len() as int))
    } else {
        None
    }
}

/// What precedes the suffix `p`, where `s` ends with it.
pub open spec fn before_suffix(s: Seq<char>, p: Seq<char>) -> Option<Seq<char>> {
    if ends(s, p) {
        Some(s.take(s.len() - p.len()))
    } else {
        None
    }
}

pub fn strip_prefix(s: &str, p: &str) -> (r: Option<String>)
    ensures
        opt_text(r) == after_prefix(s@, p@),
{
    if starts_with(s, p) {
        let cs = chars_of(s);
        let n: usize = chars_of(p).len();
        proof {
            assert(s@.skip(n as int) =~= s@.subrange(n as int, s@.len() as int));
        }
        Some(slice_string(&cs, n, cs.len()))
    } else {
        None
    }
}

pub fn strip_suffix(s: &str, p: &str) -> (r: Option<String>)
    ensures
        opt_text(r) == before_suffix(s@, p@),
{
    if ends_with(s, p) {
        let cs = chars_of(s);
        let n: usize = chars_of(p).len();
        proof {
            assert(s@.take(s@.len() - n) =~= s@.subrange(0, s@.len() - n));
        }
        Some(slice_string(&cs, 0, cs.len() - n))
    } else {
        None
    }
}

/// The two parts around the first `p`.
pub open spec fn split_first(s: Seq<char>, p: Seq<char>) -> Option<(Seq<char>, Seq<char>)> {
    match first_place(s, p) {
        Some(i) => Some((s.take(i), s.skip(i + p.len()))),
        None => None,
    }
}

pub open spec fn opt_pair(o: Option<(String, String)>) -> Option<(Seq<char>, Seq<char>)> {
    match o {
        Some(p) => Some((p.0@, p.1@)),
        None => None,
    }
}

pub fn split_once(s: &str, p: &str) -> (r: Option<(String, String)>)
    ensures
        opt_pair(r) == split_first(s@, p@),
{
    let cs = chars_of(s);
    let ps = chars_of(p);
    match find_chars(&cs, &ps) {
        Some(i) => {
            proof {
                assert(s@.take(i as int) =~= s@.subrange(0, i as int));
                assert(s@.skip(i + p@.len()) =~= s@.subrange(i + p@.len(), s@.len() as int));
            }
            Some((slice_string(&cs, 0, i), slice_string(&cs, i + ps.len(), cs.len())))
        },
        None => None,
    }
}

// ---------------------------------------------------------------------------
// Splitting and joining
// ---------------------------------------------------------------------------

/// The place of the first `c`, or the length where there is none.
pub open spec fn index_of_char(s: Seq<char>, c: char) -> int
    decreases s.len(),
{
    if s.len() == 0 {
        0
    } else if s[0] == c {
        0
    } else {
        1 + index_of_char(s.skip(1), c)
    }
}

pub proof fn lemma_index_of_char(s: Seq<char>, c: char)
    ensures
        0 <= index_of_char(s, c) <= s.len(),
        index_of_char(s, c) < s.len() ==> s[index_of_char(s, c)] == c,
        forall|k: int| 0 <= k < index_of_char(s, c) ==> s[k] != c,
    decreases s.len(),
{
    if s.len() > 0 && s[0] != c {
        lemma_index_of_char(s.skip(1), c);
        let n = index_of_char(s.skip(1), c);
        assert forall|k: int| 0 <= k < 1 + n implies s[k] != c by {
            if k > 0 {
                assert(s.skip(1)[k - 1] != c);
            }
        }
        if 1 + n < s.len() {
            assert(s.skip(1)[n] == c);
        }
    }
}

/// The place of the first `c` is the only one with no `c` before it.
pub proof fn lemma_index_of_char_is(s: Seq<char>, c: char, i: int)
    requires
        0 <= i <= s.len(),
        i < s.len() ==> s[i] == c,
        forall|k: int| 0 <= k < i ==> s[k] != c,
    ensures
        index_of_char(s, c) == i,
{
    lemma_index_of_char(s, c);
    let n = index_of_char(s, c);
    if n < i {
        assert(s[n] != c);
    }
    if i < n {
        assert(s[i] != c);
    }
}

/// The parts of `s` between the separators `c`.
pub open spec fn split_on(s: Seq<char>, c: char) -> Seq<Seq<char>>
    decreases s.len(),
{
    let i = index_of_char(s, c);
    if 0 <= i < s.len() {
        seq![s.take(i)] + split_on(s.skip(i + 1), c)
    } else {
        seq![s]
    }
}

pub fn split_char(s: &str, c: char) -> (r: Vec<String>)
    ensures
        texts(r@) == split_on(s@, c),
        r@.len() > 0,
{
    let cs = chars_of(s);
    let mut out: Vec<String> = Vec::new();
    let mut start: usize = 0;
    let mut i: usize = 0;
    proof {
        assert(cs@.skip(0) =~= cs@);
        assert(texts(out@) + split_on(cs@, c) =~= split_on(cs@, c));
    }
    while i < cs.len()
        invariant
            start <= i <= cs.len(),
            forall|k: int| start <= k < i ==> cs@[k] != c,
            split_on(cs@, c) == texts(out@) + split_on(cs@.skip(start as int), c),
        decreases cs.len() - i,
    {
        if cs[i] == c {
            let ghost before = texts(out@);
            proof {
                let rest = cs@.skip(start as int);
                lemma_index_of_char_is(rest, c, i - start);
                assert(rest.take(i - start) =~= cs@.subrange(start as int, i as int));
                assert(rest.skip(i - start + 1) =~= cs@.skip(i + 1));
            }
            let part = slice_string(&cs, start, i);
            out.push(part);
            proof {
                assert(texts(out@) =~= before.push(part@));
                assert(split_on(cs@, c) =~= texts(out@) + split_on(cs@.skip(i + 1), c));
            }
            start = i + 1;
        }
        i = i + 1;
    }
    let ghost before = texts(out@);
    let part = slice_string(&cs, start, cs.len());
    proof {
        let rest = cs@.skip(start as int);
        lemma_index_of_char_is(rest, c, rest.len() as int);
        assert(rest =~= cs@.subrange(start as int, cs@.len() as int));
    }
    out.push(part);
    proof {
        assert(texts(out@) =~= before.push(part@));
        assert(texts(out@) =~= split_on(cs@, c));
    }
    out
}

/// The texts one after the other, with `sep` between each two.
pub open spec fn joined(parts: Seq<Seq<char>>, sep: Seq<char>) -> Seq<char>
    decreases parts.len(),
{
    if parts.len() == 0 {
        Seq::empty()
    } else if parts.len() == 1 {
        parts[0]
    } else {
        joined(parts.drop_last(), sep) + sep + parts.last()
    }
}

pub fn join(parts: &[String], sep: &str) -> (r: String)
    ensures
        r@ == joined(texts(parts@), sep@),
{
    let mut out = String::new();
    let mut i: usize = 0;
    let ghost all = texts(parts@);
    proof {
        assert(all.take(0) =~= Seq::<Seq<char>>::empty());
    }
    while i < parts.len()
        invariant
            all == texts(parts@),
            i <= parts.len(),
            out@ == joined(all.take(i as int), sep@),
        decreases parts.len() - i,
    {
        proof {
            let next = all.take(i + 1);
            assert(next.drop_last() =~= all.take(i as int));
            assert(next.last() == parts@[i as int]@);
            if i == 0 {
                assert(out@ + parts@[0]@ =~= parts@[0]@);
            }
        }
        if i > 0 {
            out.append(sep);
        }
        out.append(parts[i].as_str());
        i = i + 1;
    }
    proof {
        assert(all.take(i as int) =~= all);
    }
    out
}

// ---------------------------------------------------------------------------
// Order
// ---------------------------------------------------------------------------

/// The order of texts by their characters' code points, as strings are ordered.
pub open spec fn text_lt(a: Seq<char>, b: Seq<char>) -> bool
    decreases a.len(),
{
    if b.len() == 0 {
        false
    } else if a.len() == 0 {
        true
    } else if a[0] != b[0] {
        a[0] < b[0]
    } else {
        text_lt(a.skip(1), b.skip(1))
    }
}

pub proof fn lemma_text_lt_irreflexive(a: Seq<char>)
    ensures
        !text_lt(a, a),
    decreases a.len(),
{
    if a.len() > 0 {
        lemma_text_lt_irreflexive(a.skip(1));
    }
}

pub proof fn lemma_text_lt_transitive(a: Seq<char>, b: Seq<char>, c: Seq<char>)
    requires
        text_lt(a, b),
        text_lt(b, c),
    ensures
        text_lt(a, c),
    decreases a.len(),
{
    if a.len() > 0 && b.len() > 0 && c.len() > 0 {
        if a[0] == b[0] && b[0] == c[0] {
            lemma_text_lt_transitive(a.skip(1), b.skip(1), c.skip(1));
        }
    }
}

pub proof fn lemma_text_lt_total(a: Seq<char>, b: Seq<char>)
    ensures
        text_lt(a, b) || a == b || text_lt(b, a),
    decreases a.len(),
{
    if a.len() == 0 || b.len() == 0 {
        if a.len() == b.len() {
            assert(a =~= b);
        }
    } else if a[0] == b[0] {
        lemma_text_lt_total(a.skip(1), b.skip(1));
        if a.skip(1) == b.skip(1) {
            assert(a =~= seq![a[0]] + a.skip(1));
            assert(b =~= seq![b[0]] + b.skip(1));
        }
    }
}

pub fn less_text(a: &str, b: &str) -> (r: bool)
    ensures
        r == text_lt(a@, b@),
{
    let x = chars_of(a);
    let y = chars_of(b);
    let mut i: usize = 0;
    proof {
        assert(x@.skip(0) =~= x@);
        assert(y@.skip(0) =~= y@);
    }
    while i < x.len() && i < y.len()
        invariant
            x@ == a@,
            y@ == b@,
            i <= x.len(),
            i <= y.len(),
            text_lt(a@, b@) == text_lt(x@.skip(i as int), y@.skip(i as int)),
        decreases x.len() - i,
    {
        if x[i] != y[i] {
            return x[i] < y[i];
        }
        proof {
            assert(x@.skip(i as int).skip(1) =~= x@.skip(i + 1));
            assert(y@.skip(i as int).skip(1) =~= y@.skip(i + 1));
        }
        i = i + 1;
    }
    i < y.len()
}

// ---------------------------------------------------------------------------
// Decimal numbers
// ---------------------------------------------------------------------------

pub open spec fn digit_char(d: nat) -> char {
    ((48 + d) as u8) as char
}

/// `n` in decimal, without leading zeros.
pub open spec fn decimal(n: nat) -> Seq<char>
    decreases n,
{
    if n < 10 {
        seq![digit_char(n)]
    } else {
        decimal(n / 10).push(digit_char(n % 10))
    }
}

/// `n` in decimal, with a minus sign where it is negative.
pub open spec fn signed_decimal(n: int) -> Seq<char> {
    if n < 0 {
        seq!['-'] + decimal((-n) as nat)
    } else {
        decimal(n as nat)
    }
}

pub fn push_decimal(out: &mut String, n: u64)
    ensures
        final(out)@ == old(out)@ + decimal(n as nat),
    decreases n,
{
    if n >= 10 {
        push_decimal(out, n / 10);
    }
    let d: u8 = (n % 10) as u8;
    out.push((48 + d) as char);
    proof {
        assert(out@ =~= old(out)@ + decimal(n as nat));
    }
}

pub fn decimal_text(n: u64) -> (r: String)
    ensures
        r@ == decimal(n as nat),
{
    let mut out = String::new();
    push_decimal(&mut out, n);
    proof {
        assert(out@ =~= decimal(n as nat));
    }
    out
}

pub fn signed_decimal_text(n: i64) -> (r: String)
    ensures
        r@ == signed_decimal(n as int),
{
    let mut out = String::new();
    if n < 0 {
        out.push('-');
        let m: u64 = if n == i64::MIN { 9223372036854775808u64 } else { (-n) as u64 };
        push_decimal(&mut out, m);
        proof {
            assert(out@ =~= signed_decimal(n as int));
        }
        out
    } else {
        decimal_text(n as u64)
    }
}

/// The number that a sequence of digits writes.
pub open spec fn digits_value(s: Seq<char>) -> nat
    decreases s.len(),
{
    if s.len() == 0 {
        0
    } else {
        (digits_value(s.drop_last()) * 10 + (s.last() as u32 - 48)) as nat
    }
}

pub open spec fn all_digits(s: Seq<char>) -> bool {
    forall|i: int| 0 <= i < s.len() ==> digit_ascii(#[trigger] s[i])
}

/// The digits of an unsigned number: an optional plus sign in front is dropped.
pub open spec fn number_digits(s: Seq<char>) -> Seq<char> {
    if s.len() > 0 && s[0] == '+' {
        s.skip(1)
    } else {
        s
    }
}

/// The unsigned number that a text writes, where it writes one up to `max`.
pub open spec fn parsed_number(s: Seq<char>, max: nat) -> Option<nat> {
    let d = number_digits(s);
    if d.len() > 0 && all_digits(d) && digits_value(d) <= max {
        Some(digits_value(d))
    } else {
        None
    }
}

/// What a number's decimal text writes is the number.
pub proof fn lemma_decimal(n: nat)
    ensures
        decimal(n).len() > 0,
        all_digits(decimal(n)),
        digits_value(decimal(n)) == n,
    decreases n,
{
    if n < 10 {
        let d = decimal(n);
        assert(d.drop_last() =~= Seq::empty());
        assert(digits_value(d.drop_last()) == 0);
        assert(d.last() as u32 == 48 + n);
    } else {
        lemma_decimal(n / 10);
        let d = decimal(n);
        assert(d.drop_last() =~= decimal(n / 10));
        assert(d.last() as u32 == 48 + n % 10);
        assert forall|i: int| 0 <= i < d.len() implies digit_ascii(#[trigger] d[i]) by {
            if i < d.len() - 1 {
                assert(d[i] == decimal(n / 10)[i]);
            }
        }
    }
}

/// A number's decimal text is read as the number.
pub proof fn lemma_decimal_parses(n: nat, max: nat)
    requires
        n <= max,
    ensures
        parsed_number(decimal(n), max) == Some(n),
{
    lemma_decimal(n);
    assert(digit_ascii(decimal(n)[0]));
}

proof fn lemma_digits_value_grows(s: Seq<char>, k: int)
    requires
        0 <= k <= s.len(),
        all_digits(s),
    ensures
        digits_value(s.take(k)) <= digits_value(s),
    decreases s.len() - k,
{
    if k == s.len() {
        assert(s.take(k) =~= s);
    } else {
        lemma_digits_value_grows(s, k + 1);
        assert(s.take(k + 1).drop_last() =~= s.take(k));
        assert(digit_ascii(s[k]));
    }
}

pub fn parse_number(s: &str, max: u64) -> (r: Option<u64>)
    ensures
        match r {
            Some(n) => parsed_number(s@, max as nat) == Some(n as nat),
            None => parsed_number(s@, max as nat) is None,
        },
{
    let cs = chars_of(s);
    let from: usize = if cs.len() > 0 && cs[0] == '+' { 1 } else { 0 };
    let ghost d = number_digits(s@);
    proof {
        assert(d =~= cs@.skip(from as int));
    }
    if cs.len() == from {
        return None;
    }
    let mut value: u64 = 0;
    let mut i: usize = from;
    while i < cs.len()
        invariant
            cs@ == s@,
            from <= i <= cs.len(),
            d == number_digits(s@),
            d == cs@.skip(from as int),
            forall|k: int| 0 <= k < i - from ==> digit_ascii(#[trigger] d[k]),
            value == digits_value(d.take(i - from)),
            value <= max,
        decreases cs.len() - i,
    {
        let c = cs[i];
        proof {
            assert(d[i - from] == c);
        }
        if c < '0' || c > '9' {
            proof {
                assert(!digit_ascii(d[i - from]));
            }
            return None;
        }
        let digit: u64 = (c as u32 - 48) as u64;
        let ghost k = i - from;
        proof {
            assert(d.take(k + 1).drop_last() =~= d.take(k));
            assert(digits_value(d.take(k + 1)) == digits_value(d.take(k)) * 10 + digit);
            if all_digits(d) {
                lemma_digits_value_grows(d, k + 1);
            }
        }
        if value > (u64::MAX - digit) / 10 {
            return None;
        }
        value = value * 10 + digit;
        if value > max {
            return None;
        }
        i = i + 1;
    }
    proof {
        assert(d.take(i - from) =~= d);
    }
    Some(value)
}

// ---------------------------------------------------------------------------
// Lines and words
// ---------------------------------------------------------------------------

/// The lines of a text; a line feed at the end starts no further line.
pub open spec fn lines_of(s: Seq<char>) -> Seq<Seq<char>> {
    let parts = split_on(s, '\n');
    if parts.len() > 0 && parts.last().len() == 0 {
        parts.drop_last()
    } else {
        parts
    }
}

/// The text without one carriage return at its end.
pub open spec fn without_cr(s: Seq<char>) -> Seq<char> {
    if s.len() > 0 && s.last() == '\r' {
        s.drop_last()
    } else {
        s
    }
}

pub open spec fn clean_lines(s: Seq<char>) -> Seq<Seq<char>> {
    lines_of(s).map_values(|l: Seq<char>| without_cr(l))
}

pub fn strip_cr(s: &str) -> (r: String)
    ensures
        r@ == without_cr(s@),
{
    let cs = chars_of(s);
    if cs.len() > 0 && cs[cs.len() - 1] == '\r' {
        proof {
            assert(s@.drop_last() =~= s@.subrange(0, s@.len() - 1));
        }
        slice_string(&cs, 0, cs.len() - 1)
    } else {
        s.to_owned()
    }
}

/// The lines of a text, each without a carriage return at its end.
pub fn split_lines(s: &str) -> (r: Vec<String>)
    ensures
        texts(r@) == clean_lines(s@),
{
    let mut parts = split_char(s, '\n');
    let ghost raw = split_on(s@, '\n');
    proof {
        assert(raw.len() == parts@.len());
        assert(raw.last() == parts@[parts@.len() - 1]@);
    }
    if parts[parts.len() - 1].as_str().is_empty() {
        parts.pop();
        proof {
            assert(texts(parts@) =~= raw.drop_last());
        }
    }
    proof {
        assert(texts(parts@) == lines_of(s@));
    }
    let mut out: Vec<String> = Vec::new();
    let mut i: usize = 0;
    while i < parts.len()
        invariant
            texts(parts@) == lines_of(s@),
            i <= parts.len(),
            out.len() == i,
            forall|k: int| 0 <= k < i ==> (#[trigger] out@[k])@ == without_cr(parts@[k]@),
        decreases parts.len() - i,
    {
        out.push(strip_cr(parts[i].as_str()));
        i = i + 1;
    }
    proof {
        assert(lines_of(s@).len() == parts@.len());
        assert forall|k: int| 0 <= k < parts@.len() implies #[trigger] lines_of(s@)[k]
            == parts@[k]@ by {
            assert(texts(parts@)[k] == parts@[k]@);
        }
        assert(texts(out@) =~= clean_lines(s@));
    }
    out
}

/// The first white space at or after `i`, or the length where there is none.
pub open spec fn word_end(s: Seq<char>, i: int) -> int
    decreases s.len() - i,
{
    if i >= s.len() {
        s.len() as int
    } else if white(s[i]) {
        i
    } else {
        word_end(s, i + 1)
    }
}

/// The words from `i` on: what stands between white space.
pub open spec fn words_from(s: Seq<char>, i: int) -> Seq<Seq<char>>
    decreases s.len() - i,
{
    if i < 0 || i >= s.len() {
        Seq::empty()
    } else if white(s[i]) {
        words_from(s, i + 1)
    } else {
        let j = word_end(s, i);
        if j <= i || j > s.len() {
            Seq::empty()
        } else {
            seq![s.subrange(i, j)] + words_from(s, j)
        }
    }
}

pub open spec fn words_of(s: Seq<char>) -> Seq<Seq<char>> {
    words_from(s, 0)
}

proof fn lemma_word_end(s: Seq<char>, i: int, j: int)
    requires
        0 <= i <= j <= s.len(),
        forall|k: int| i <= k < j ==> !white(s[k]),
        j < s.len() ==> white(s[j]),
    ensures
        word_end(s, i) == j,
    decreases j - i,
{
    if i < j {
        lemma_word_end(s, i + 1, j);
    }
}

pub fn split_words(s: &str) -> (r: Vec<String>)
    ensures
        texts(r@) == words_of(s@),
{
    let cs = chars_of(s);
    let mut out: Vec<String> = Vec::new();
    let mut i: usize = 0;
    proof {
        assert(texts(out@) + words_from(s@, 0) =~= words_from(s@, 0));
    }
    while i < cs.len()
        invariant
            cs@ == s@,
            i <= cs.len(),
            words_of(s@) == texts(out@) + words_from(s@, i as int),
        decreases cs.len() - i,
    {
        if is_white(cs[i]) {
            i = i + 1;
        } else {
            let mut j: usize = i;
            while j < cs.len() && !is_white(cs[j])
                invariant
                    cs@ == s@,
                    i <= j <= cs.len(),
                    forall|k: int| i <= k < j ==> !white(s@[k]),
                decreases cs.len() - j,
            {
                j = j + 1;
            }
            let ghost before = texts(out@);
            let word = slice_string(&cs, i, j);
            proof {
                lemma_word_end(s@, i as int, j as int);
            }
            out.push(word);
            proof {
                assert(texts(out@) =~= before.push(word@));
                assert(words_of(s@) =~= texts(out@) + words_from(s@, j as int));
            }
            i = j;
        }
    }
    proof {
        assert(texts(out@) =~= words_of(s@));
    }
    out
}

/// Without the prefix `p`, however often it is repeated.
pub open spec fn trim_front_text(s: Seq<char>, p: Seq<char>) -> Seq<char>
    decreases s.len(),
{
    if p.len() > 0 && starts(s, p) {
        trim_front_text(s.skip(p.len() as int), p)
    } else {
        s
    }
}

pub fn trim_start_text(s: &str, p: &str) -> (r: String)
    ensures
        r@ == trim_front_text(s@, p@),
    decreases s@.len(),
{
    if p.is_empty() {
        return s.to_owned();
    }
    match strip_prefix(s, p) {
        Some(rest) => trim_start_text(rest.as_str(), p),
        None => s.to_owned(),
    }
}

/// The lines of a text as a terminal shows them: a line ends with a line feed,
/// and a carriage return before it belongs to the end.
pub open spec fn ended_lines(s: Seq<char>) -> Seq<Seq<char>> {
    let parts = split_on(s, '\n');
    let ended = parts.drop_last().map_values(|l: Seq<char>| without_cr(l));
    if parts.last().len() == 0 {
        ended
    } else {
        ended.push(parts.last())
    }
}

pub fn split_ended_lines(s: &str) -> (r: Vec<String>)
    ensures
        texts(r@) == ended_lines(s@),
{
    let parts = split_char(s, '\n');
    let ghost raw = split_on(s@, '\n');
    let last: usize = parts.len() - 1;
    let mut out: Vec<String> = Vec::new();
    let mut i: usize = 0;
    while i < last
        invariant
            raw == texts(parts@),
            raw == split_on(s@, '\n'),
            last == parts.len() - 1,
            i <= last,
            out.len() == i,
            forall|k: int| 0 <= k < i ==> (#[trigger] out@[k])@ == without_cr(parts@[k]@),
        decreases last - i,
    {
        out.push(strip_cr(parts[i].as_str()));
        i = i + 1;
    }
    let ghost ended = raw.drop_last().map_values(|l: Seq<char>| without_cr(l));
    proof {
        assert(raw.len() == parts@.len());
        assert forall|k: int| 0 <= k < last implies #[trigger] texts(out@)[k] == ended[k] by {
            assert(raw[k] == parts@[k]@);
            assert(texts(out@)[k] == out@[k]@);
        }
        assert(texts(out@) =~= ended);
        assert(raw.last() == parts@[last as int]@);
    }
    if !parts[last].as_str().is_empty() {
        out.push(parts[last].clone());
        proof {
            assert(texts(out@) =~= ended.push(raw.last()));
        }
    }
    out
}

proof fn lemma_split_append(a: Seq<char>, b: Seq<char>, c: char)
    requires
        !b.contains(c),
    ensures
        split_on(a + seq![c] + b, c) == split_on(a, c).push(b),
    decreases a.len(),
{
    let s = a + seq![c] + b;
    let i = index_of_char(a, c);
    lemma_index_of_char(a, c);
    if i < a.len() {
        assert forall|k: int| 0 <= k < i implies s[k] != c by {
            assert(s[k] == a[k]);
        }
        assert(s[i] == a[i]);
        lemma_index_of_char_is(s, c, i);
        lemma_split_append(a.skip(i + 1), b, c);
        assert(s.take(i) =~= a.take(i));
        assert(s.skip(i + 1) =~= a.skip(i + 1) + seq![c] + b);
        assert(split_on(s, c) =~= split_on(a, c).push(b));
    } else {
        assert forall|k: int| 0 <= k < a.len() implies s[k] != c by {
            assert(s[k] == a[k]);
        }
        assert(s[a.len() as int] == c);
        lemma_index_of_char_is(s, c, a.len() as int);
        assert(s.take(a.len() as int) =~= a);
        assert(s.skip(a.len() as int + 1) =~= b);
        lemma_split_whole(b, c);
        assert(split_on(s, c) =~= seq![a] + seq![b]);
        assert(split_on(a, c) =~= seq![a]);
        assert(seq![a] + seq![b] =~= seq![a].push(b));
    }
}

proof fn lemma_split_whole(b: Seq<char>, c: char)
    requires
        !b.contains(c),
    ensures
        split_on(b, c) == seq![b],
{
    assert forall|k: int| 0 <= k < b.len() implies b[k] != c by {
        assert(b.contains(b[k]));
    }
    lemma_index_of_char_is(b, c, b.len() as int);
}

/// Texts that are joined by a character that none of them holds are found again
/// by splitting, so that different texts are joined to different ones.
pub proof fn splitting_undoes_joining(parts: Seq<Seq<char>>, c: char)
    requires
        parts.len() > 0,
        forall|i: int| 0 <= i < parts.len() ==> !(#[trigger] parts[i]).contains(c),
    ensures
        split_on(joined(parts, seq![c]), c) == parts,
    decreases parts.len(),
{
    if parts.len() == 1 {
        lemma_split_whole(parts[0], c);
        assert(seq![parts[0]] =~= parts);
    } else {
        let front = parts.drop_last();
        assert forall|i: int| 0 <= i < front.len() implies !(#[trigger] front[i]).contains(c) by {
            assert(front[i] == parts[i]);
        }
        splitting_undoes_joining(front, c);
        lemma_split_append(joined(front, seq![c]), parts.last(), c);
        assert(front.push(parts.last()) =~= parts);
    }
}

} // verus!
