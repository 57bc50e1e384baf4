//! Paths as text: components, prefixes, names, joining and resolution.
use crate::hashing::{hash_of, hash_text};
use crate::ids::{keyed_id, make_id, strs};
use crate::sync_flow::{given, non_blank_text};
use crate::text::{
    after_prefix, chars_of, decimal, decimal_text, last_place, opt_str, opt_text, rfind_chars,
    same_text, signed_decimal, signed_decimal_text, slice_string, starts, starts_with, strip_prefix,
    texts,
};
use vstd::prelude::*;

verus! {

/// Whether the path starts at the root.
pub open spec fn rooted(s: Seq<char>) -> bool {
    s.len() > 0 && s[0] == '/'
}

/// The first separator at or after `i`, or the length where there is none.
pub open spec fn separator_from(s: Seq<char>, i: int) -> int
    decreases s.len() - i,
{
    if i >= s.len() {
        s.len() as int
    } else if s[i] == '/' {
        i
    } else {
        separator_from(s, i + 1)
    }
}

/// Where the components from `i` on start and end. Empty parts are no
/// components, and neither is `.` but at the very start.
pub open spec fn spans(s: Seq<char>, i: int) -> Seq<(int, int)>
    decreases s.len() + 1 - i,
{
    if i >= s.len() {
        Seq::empty()
    } else {
        let j = separator_from(s, i);
        if j < i || j > s.len() {
            Seq::empty()
        } else {
            let rest = spans(s, j + 1);
            if j == i || (i > 0 && j == i + 1 && s[i] == '.') {
                rest
            } else {
                seq![(i, j)] + rest
            }
        }
    }
}

pub open spec fn span_text(s: Seq<char>, p: (int, int)) -> Seq<char> {
    s.subrange(p.0, p.1)
}

/// The components of a path, without the root.
pub open spec fn components(s: Seq<char>) -> Seq<Seq<char>> {
    spans(s, 0).map_values(|p: (int, int)| span_text(s, p))
}

/// Whether two texts name the same path.
pub open spec fn same_path(a: Seq<char>, b: Seq<char>) -> bool {
    rooted(a) == rooted(b) && components(a) == components(b)
}

/// Whether the components of `a` are the first ones of `b`.
pub open spec fn leads(a: Seq<Seq<char>>, b: Seq<Seq<char>>) -> bool {
    a.len() <= b.len() && b.take(a.len() as int) == a
}

/// Whether the path `base` is `path` or a directory above it.
pub open spec fn is_base(base: Seq<char>, path: Seq<char>) -> bool {
    if rooted(base) || components(base).len() > 0 {
        rooted(base) == rooted(path) && leads(components(base), components(path))
    } else {
        true
    }
}

/// The path from its component `k` on.
pub open spec fn path_from(s: Seq<char>, k: int) -> Seq<char> {
    let sp = spans(s, 0);
    if k < sp.len() {
        s.subrange(sp[k].0, sp.last().1)
    } else {
        Seq::empty()
    }
}

/// The path without separators at its end.
pub open spec fn path_whole(s: Seq<char>, count: int) -> Seq<char> {
    let sp = spans(s, 0);
    if 0 < count <= sp.len() {
        s.subrange(0, sp[count - 1].1)
    } else if rooted(s) {
        s.subrange(0, 1)
    } else {
        Seq::empty()
    }
}

/// `path` relative to `base`, where `base` is `path` or above it.
pub open spec fn without_base(path: Seq<char>, base: Seq<char>) -> Option<Seq<char>> {
    if !is_base(base, path) {
        None
    } else if rooted(base) || components(base).len() > 0 {
        Some(path_from(path, components(base).len() as int))
    } else {
        Some(path_whole(path, spans(path, 0).len() as int))
    }
}

/// `a` and, below it, `b`; a `b` that starts at the root stands alone.
pub open spec fn path_join(a: Seq<char>, b: Seq<char>) -> Seq<char> {
    if rooted(b) || a.len() == 0 {
        b
    } else if a.last() == '/' {
        a + b
    } else {
        a.push('/') + b
    }
}

pub open spec fn is_parent_part(c: Seq<char>) -> bool {
    c == seq!['.', '.']
}

pub open spec fn is_current_part(c: Seq<char>) -> bool {
    c == seq!['.']
}

/// The last component, where it is a name.
pub open spec fn file_name_of(s: Seq<char>) -> Option<Seq<char>> {
    let c = components(s);
    if c.len() > 0 && !is_parent_part(c.last()) && !is_current_part(c.last()) {
        Some(c.last())
    } else {
        None
    }
}

/// The path above, where there is one.
pub open spec fn parent_of(s: Seq<char>) -> Option<Seq<char>> {
    let n = spans(s, 0).len();
    if n > 0 {
        Some(path_whole(s, n - 1))
    } else {
        None
    }
}

/// What follows the last dot of a file name that does not start with it.
pub open spec fn extension_of(s: Seq<char>) -> Option<Seq<char>> {
    match file_name_of(s) {
        Some(f) => match last_place(f, seq!['.']) {
            Some(i) => if i == 0 {
                None
            } else {
                Some(f.skip(i + 1))
            },
            None => None,
        },
        None => None,
    }
}

/// How deep below its start a relative path ends, where no part of it leads
/// above the start.
pub open spec fn depth_of(parts: Seq<Seq<char>>) -> Option<nat>
    decreases parts.len(),
{
    if parts.len() == 0 {
        Some(0)
    } else {
        match depth_of(parts.drop_last()) {
            None => None,
            Some(d) => if is_parent_part(parts.last()) {
                if d == 0 {
                    None
                } else {
                    Some((d - 1) as nat)
                }
            } else if is_current_part(parts.last()) {
                Some(d)
            } else {
                Some(d + 1)
            },
        }
    }
}

/// Whether a path stays inside the directory that it is relative to.
pub open spec fn contained(s: Seq<char>) -> bool {
    !rooted(s) && depth_of(components(s)) is Some
}

// ---------------------------------------------------------------------------

pub open spec fn int_spans(v: Seq<(usize, usize)>) -> Seq<(int, int)> {
    v.map_values(|p: (usize, usize)| (p.0 as int, p.1 as int))
}

pub proof fn lemma_separator_from(s: Seq<char>, i: int, j: int)
    requires
        0 <= i <= j <= s.len(),
        forall|k: int| i <= k < j ==> s[k] != '/',
        j < s.len() ==> s[j] == '/',
    ensures
        separator_from(s, i) == j,
    decreases j - i,
{
    if i < j {
        lemma_separator_from(s, i + 1, j);
    }
}

proof fn lemma_separator_bounds(s: Seq<char>, i: int)
    requires
        0 <= i <= s.len(),
    ensures
        i <= separator_from(s, i) <= s.len(),
    decreases s.len() - i,
{
    if i < s.len() && s[i] != '/' {
        lemma_separator_bounds(s, i + 1);
    }
}

/// Components lie inside the path, in order.
pub proof fn lemma_spans(s: Seq<char>, i: int)
    requires
        0 <= i,
    ensures
        forall|k: int|
            0 <= k < spans(s, i).len() ==> i <= (#[trigger] spans(s, i)[k]).0 < spans(s, i)[k].1
                <= s.len(),
        forall|k: int, l: int|
            0 <= k < l < spans(s, i).len() ==> (#[trigger] spans(s, i)[k]).1 < (
            #[trigger] spans(s, i)[l]).0,
    decreases s.len() + 1 - i,
{
    if i < s.len() {
        let j = separator_from(s, i);
        lemma_separator_bounds(s, i);
        lemma_spans(s, j + 1);
        let rest = spans(s, j + 1);
        if !(j == i || (i > 0 && j == i + 1 && s[i] == '.')) {
            let all = spans(s, i);
            assert(all == seq![(i, j)] + rest);
            assert forall|k: int| 0 <= k < all.len() implies i <= (#[trigger] all[k]).0 < all[k].1
                <= s.len() by {
                if k > 0 {
                    assert(all[k] == rest[k - 1]);
                }
            }
            assert forall|k: int, l: int| 0 <= k < l < all.len() implies (#[trigger] all[k]).1 < (
            #[trigger] all[l]).0 by {
                assert(all[l] == rest[l - 1]);
                if k > 0 {
                    assert(all[k] == rest[k - 1]);
                }
            }
        }
    }
}

fn spans_in(cs: &[char]) -> (r: Vec<(usize, usize)>)
    ensures
        int_spans(r@) == spans(cs@, 0),
        forall|k: int| 0 <= k < r@.len() ==> (#[trigger] r@[k]).0 < r@[k].1 <= cs@.len(),
        forall|k: int, l: int|
            0 <= k < l < r@.len() ==> (#[trigger] r@[k]).1 < (#[trigger] r@[l]).0,
{
    let mut out: Vec<(usize, usize)> = Vec::new();
    let mut i: usize = 0;
    proof {
        assert(int_spans(out@) + spans(cs@, 0) =~= spans(cs@, 0));
    }
    while i < cs.len()
        invariant
            spans(cs@, 0) == int_spans(out@) + spans(cs@, i as int),
        decreases cs.len() - i,
    {
        let mut j: usize = i;
        while j < cs.len() && cs[j] != '/'
            invariant
                i <= j <= cs.len(),
                forall|k: int| i <= k < j ==> cs@[k] != '/',
            decreases cs.len() - j,
        {
            j = j + 1;
        }
        proof {
            lemma_separator_from(cs@, i as int, j as int);
        }
        if j == i || (i > 0 && j == i + 1 && cs[i] == '.') {
        } else {
            let ghost before = int_spans(out@);
            out.push((i, j));
            proof {
                assert(int_spans(out@) =~= before.push((i as int, j as int)));
                assert(spans(cs@, 0) =~= int_spans(out@) + spans(cs@, j + 1));
            }
        }
        if j == cs.len() {
            proof {
                assert(spans(cs@, j + 1) =~= Seq::empty());
                assert(spans(cs@, 0) =~= int_spans(out@));
                lemma_spans(cs@, 0);
                assert forall|k: int| 0 <= k < out@.len() implies (#[trigger] out@[k]).0
                    < out@[k].1 <= cs@.len() by {
                    assert(spans(cs@, 0)[k] == (out@[k].0 as int, out@[k].1 as int));
                }
                assert forall|k: int, l: int| 0 <= k < l < out@.len() implies (
                #[trigger] out@[k]).1 < (#[trigger] out@[l]).0 by {
                    assert(spans(cs@, 0)[k] == (out@[k].0 as int, out@[k].1 as int));
                    assert(spans(cs@, 0)[l] == (out@[l].0 as int, out@[l].1 as int));
                }
            }
            return out;
        }
        i = j + 1;
    }
    proof {
        assert(spans(cs@, 0) =~= int_spans(out@));
        lemma_spans(cs@, 0);
        assert forall|k: int| 0 <= k < out@.len() implies (#[trigger] out@[k]).0 < out@[k].1
            <= cs@.len() by {
            assert(spans(cs@, 0)[k] == (out@[k].0 as int, out@[k].1 as int));
        }
        assert forall|k: int, l: int| 0 <= k < l < out@.len() implies (#[trigger] out@[k]).1 < (
        #[trigger] out@[l]).0 by {
            assert(spans(cs@, 0)[k] == (out@[k].0 as int, out@[k].1 as int));
            assert(spans(cs@, 0)[l] == (out@[l].0 as int, out@[l].1 as int));
        }
    }
    out
}

pub fn is_rooted(s: &str) -> (r: bool)
    ensures
        r == rooted(s@),
{
    let cs = chars_of(s);
    cs.len() > 0 && cs[0] == '/'
}

pub fn path_components(s: &str) -> (r: Vec<String>)
    ensures
        texts(r@) == components(s@),
{
    let cs = chars_of(s);
    let sp = spans_in(&cs);
    let mut out: Vec<String> = Vec::new();
    let mut i: usize = 0;
    while i < sp.len()
        invariant
            cs@ == s@,
            int_spans(sp@) == spans(s@, 0),
            forall|k: int| 0 <= k < sp@.len() ==> (#[trigger] sp@[k]).0 < sp@[k].1 <= cs@.len(),
            i <= sp.len(),
            out.len() == i,
            forall|k: int| 0 <= k < i ==> (#[trigger] out@[k])@ == components(s@)[k],
        decreases sp.len() - i,
    {
        let part = slice_string(&cs, sp[i].0, sp[i].1);
        proof {
            assert(spans(s@, 0)[i as int] == (sp@[i as int].0 as int, sp@[i as int].1 as int));
        }
        out.push(part);
        i = i + 1;
    }
    proof {
        assert(texts(out@) =~= components(s@));
    }
    out
}

/// Whether two lists hold the same texts.
pub fn same_texts(a: &[String], b: &[String]) -> (r: bool)
    ensures
        r == (texts(a@) == texts(b@)),
{
    if a.len() != b.len() {
        proof {
            assert(texts(a@).len() != texts(b@).len());
        }
        return false;
    }
    let mut i: usize = 0;
    while i < a.len()
        invariant
            a.len() == b.len(),
            i <= a.len(),
            forall|k: int| 0 <= k < i ==> (#[trigger] a@[k])@ == b@[k]@,
        decreases a.len() - i,
    {
        if !same_text(a[i].as_str(), b[i].as_str()) {
            proof {
                assert(texts(a@)[i as int] != texts(b@)[i as int]);
            }
            return false;
        }
        i = i + 1;
    }
    proof {
        assert(texts(a@) =~= texts(b@));
    }
    true
}

pub fn paths_equal(a: &str, b: &str) -> (r: bool)
    ensures
        r == same_path(a@, b@),
{
    let x = path_components(a);
    let y = path_components(b);
    is_rooted(a) == is_rooted(b) && same_texts(&x, &y)
}

fn leads_into(a: &[String], b: &[String]) -> (r: bool)
    ensures
        r == leads(texts(a@), texts(b@)),
{
    if a.len() > b.len() {
        return false;
    }
    let mut i: usize = 0;
    while i < a.len()
        invariant
            a.len() <= b.len(),
            i <= a.len(),
            forall|k: int| 0 <= k < i ==> (#[trigger] a@[k])@ == b@[k]@,
        decreases a.len() - i,
    {
        if !same_text(a[i].as_str(), b[i].as_str()) {
            proof {
                assert(texts(b@).take(a@.len() as int)[i as int] != texts(a@)[i as int]);
            }
            return false;
        }
        i = i + 1;
    }
    proof {
        assert(texts(b@).take(a@.len() as int) =~= texts(a@));
    }
    true
}

/// Whether `base` is `path` or a directory above it.
pub fn path_starts_with(path: &str, base: &str) -> (r: bool)
    ensures
        r == is_base(base@, path@),
{
    let b = path_components(base);
    let p = path_components(path);
    if is_rooted(base) || b.len() > 0 {
        is_rooted(base) == is_rooted(path) && leads_into(&b, &p)
    } else {
        true
    }
}

fn whole_upto(cs: &[char], sp: &[(usize, usize)], count: usize) -> (r: String)
    requires
        int_spans(sp@) == spans(cs@, 0),
        forall|k: int| 0 <= k < sp@.len() ==> (#[trigger] sp@[k]).0 < sp@[k].1 <= cs@.len(),
        count <= sp@.len(),
    ensures
        r@ == path_whole(cs@, count as int),
{
    if count > 0 {
        proof {
            assert(spans(cs@, 0)[count - 1] == (sp@[count - 1].0 as int, sp@[count - 1].1 as int));
        }
        slice_string(cs, 0, sp[count - 1].1)
    } else if cs.len() > 0 && cs[0] == '/' {
        slice_string(cs, 0, 1)
    } else {
        String::new()
    }
}

/// `path` relative to `base`, or nothing where `base` is not above it.
pub fn strip_base(path: &str, base: &str) -> (r: Option<String>)
    ensures
        opt_text(r) == without_base(path@, base@),
{
    if !path_starts_with(path, base) {
        return None;
    }
    let b = path_components(base);
    let cs = chars_of(path);
    let sp = spans_in(&cs);
    if is_rooted(base) || b.len() > 0 {
        let k: usize = b.len();
        if k < sp.len() {
            proof {
                let all = spans(path@, 0);
                assert(all[k as int] == (sp@[k as int].0 as int, sp@[k as int].1 as int));
                assert(all.last() == (
                    sp@[sp@.len() - 1].0 as int,
                    sp@[sp@.len() - 1].1 as int,
                ));
                if k < sp@.len() - 1 {
                    assert(sp@[k as int].1 < sp@[sp@.len() - 1].0);
                }
                assert(components(base@).len() == k);
            }
            Some(slice_string(&cs, sp[k].0, sp[sp.len() - 1].1))
        } else {
            proof {
                assert(components(base@).len() == k);
                assert(spans(path@, 0).len() == sp@.len());
            }
            Some(String::new())
        }
    } else {
        let n: usize = sp.len();
        proof {
            assert(spans(path@, 0).len() == n);
            assert(components(base@).len() == 0);
        }
        Some(whole_upto(&cs, &sp, n))
    }
}

/// The path above, where there is one.
pub fn parent_path(path: &str) -> (r: Option<String>)
    ensures
        opt_text(r) == parent_of(path@),
{
    let cs = chars_of(path);
    let sp = spans_in(&cs);
    proof {
        assert(spans(path@, 0).len() == sp@.len());
    }
    if sp.len() > 0 {
        Some(whole_upto(&cs, &sp, sp.len() - 1))
    } else {
        None
    }
}

fn is_dots(part: &str) -> (r: bool)
    ensures
        r == is_parent_part(part@),
{
    let cs = chars_of(part);
    if cs.len() == 2 && cs[0] == '.' && cs[1] == '.' {
        proof {
            assert(part@ =~= seq!['.', '.']);
        }
        true
    } else {
        false
    }
}

fn is_dot(part: &str) -> (r: bool)
    ensures
        r == is_current_part(part@),
{
    let cs = chars_of(part);
    if cs.len() == 1 && cs[0] == '.' {
        proof {
            assert(part@ =~= seq!['.']);
        }
        true
    } else {
        false
    }
}

/// The last component, where it is a name.
pub fn file_name(path: &str) -> (r: Option<String>)
    ensures
        opt_text(r) == file_name_of(path@),
{
    let parts = path_components(path);
    proof {
        assert(components(path@).len() == parts@.len());
    }
    if parts.len() == 0 {
        return None;
    }
    let last = parts[parts.len() - 1].clone();
    proof {
        assert(components(path@).last() == last@);
    }
    if is_dots(last.as_str()) || is_dot(last.as_str()) {
        None
    } else {
        Some(last)
    }
}

/// What follows the last dot of the file name.
pub fn extension(path: &str) -> (r: Option<String>)
    ensures
        opt_text(r) == extension_of(path@),
{
    match file_name(path) {
        Some(name) => {
            let cs = chars_of(name.as_str());
            let dot: [char; 1] = ['.'];
            proof {
                assert(dot@ =~= seq!['.']);
            }
            match rfind_chars(&cs, &dot) {
                Some(i) => {
                    if i == 0 {
                        None
                    } else {
                        proof {
                            assert(name@.skip(i + 1) =~= name@.subrange(i + 1, name@.len() as int));
                        }
                        Some(slice_string(&cs, i + 1, cs.len()))
                    }
                },
                None => None,
            }
        },
        None => None,
    }
}

/// `a` and, below it, `b`.
pub fn join_path(a: &str, b: &str) -> (r: String)
    ensures
        r@ == path_join(a@, b@),
{
    if is_rooted(b) {
        return b.to_owned();
    }
    let cs = chars_of(a);
    if cs.len() == 0 {
        return b.to_owned();
    }
    let mut out = a.to_owned();
    if cs[cs.len() - 1] != '/' {
        out.push('/');
    }
    out.append(b);
    out
}

/// Whether a path stays inside the directory that it is relative to: it does not
/// start at the root, and no part of it leads above the start.
pub fn stays_inside(path: &str) -> (r: bool)
    ensures
        r == contained(path@),
{
    if is_rooted(path) {
        return false;
    }
    let parts = path_components(path);
    let ghost all = components(path@);
    let mut depth: usize = 0;
    let mut i: usize = 0;
    proof {
        assert(all.take(0) =~= Seq::<Seq<char>>::empty());
    }
    while i < parts.len()
        invariant
            all == components(path@),
            all == texts(parts@),
            !rooted(path@),
            i <= parts.len(),
            depth <= i,
            depth_of(all.take(i as int)) == Some(depth as nat),
        decreases parts.len() - i,
    {
        proof {
            assert(all.take(i + 1).drop_last() =~= all.take(i as int));
            assert(all.take(i + 1).last() == parts@[i as int]@);
        }
        if is_dots(parts[i].as_str()) {
            if depth == 0 {
                proof {
                    lemma_depth_none(all, i + 1);
                }
                return false;
            }
            depth = depth - 1;
        } else if !is_dot(parts[i].as_str()) {
            depth = depth + 1;
        } else {
            proof {
                assert(!is_parent_part(parts@[i as int]@)) by {
                    assert(seq!['.'].len() != seq!['.', '.'].len());
                }
            }
        }
        i = i + 1;
    }
    proof {
        assert(all.take(i as int) =~= all);
    }
    true
}

proof fn lemma_depth_none(parts: Seq<Seq<char>>, k: int)
    requires
        0 <= k <= parts.len(),
        depth_of(parts.take(k)) is None,
    ensures
        depth_of(parts) is None,
    decreases parts.len() - k,
{
    if k == parts.len() {
        assert(parts.take(k) =~= parts);
    } else {
        assert(parts.take(k + 1).drop_last() =~= parts.take(k));
        lemma_depth_none(parts, k + 1);
    }
}

// ---------------------------------------------------------------------------
// Home directory
// ---------------------------------------------------------------------------

/// A path below `~/` as a path below the home directory, where there is one.
pub open spec fn home_expanded(path: Seq<char>, home: Option<Seq<char>>) -> Seq<char> {
    match (after_prefix(path, "~/"@), home) {
        (Some(rest), Some(h)) => path_join(h, rest),
        _ => path,
    }
}

fn expand_home(path: &str, home: Option<&str>) -> (r: String)
    ensures
        r@ == home_expanded(path@, opt_str(home)),
{
    match (strip_prefix(path, "~/"), home) {
        (Some(rest), Some(h)) => join_path(h, rest.as_str()),
        _ => path.to_owned(),
    }
}

/// A path for display: below the home directory where it starts with `~/`.
pub fn display_path(path: &str, home: Option<&str>) -> (r: String)
    ensures
        r@ == home_expanded(path@, opt_str(home)),
{
    expand_home(path, home)
}

/// Where a path really lies, as text: its resolution where it exists, else the
/// path below the home directory where it starts with `~/`.
pub open spec fn canonical_text(
    path: Seq<char>,
    canonical: Option<Seq<char>>,
    home: Option<Seq<char>>,
) -> Seq<char> {
    match canonical {
        Some(c) => c,
        None => home_expanded(path, home),
    }
}

/// Where a path really lies, as text. `canonical` is its resolution, where it
/// exists.
pub fn canonical_display(path: &str, canonical: Option<&str>, home: Option<&str>) -> (r: String)
    ensures
        r@ == canonical_text(path@, opt_str(canonical), opt_str(home)),
{
    match canonical {
        Some(c) => c.to_owned(),
        None => expand_home(path, home),
    }
}

/// The hash of where a path really lies.
pub fn path_hash(path: &str, canonical: Option<&str>, home: Option<&str>) -> (r: String)
    ensures
        r@ == hash_of(canonical_text(path@, opt_str(canonical), opt_str(home))),
{
    let text = canonical_display(path, canonical, home);
    hash_text(text.as_str())
}

/// Paths that lie at one place have one hash, however they are written.
pub proof fn a_path_hash_depends_on_the_place(
    a: Seq<char>,
    b: Seq<char>,
    place: Seq<char>,
    home: Option<Seq<char>>,
)
    ensures
        hash_of(canonical_text(a, Some(place), home)) == hash_of(
            canonical_text(b, Some(place), home),
        ),
{
}

/// A path as the user writes it: `~` is the home directory, where there is one.
pub open spec fn user_path(value: Seq<char>, home: Option<Seq<char>>) -> Seq<char> {
    if value == "~"@ {
        match home {
            Some(h) => h,
            None => value,
        }
    } else {
        home_expanded(value, home)
    }
}

pub fn expand_home_path(value: &str, home: Option<&str>) -> (r: String)
    ensures
        r@ == user_path(value@, opt_str(home)),
{
    if same_text(value, "~") {
        match home {
            Some(h) => h.to_owned(),
            None => value.to_owned(),
        }
    } else {
        expand_home(value, home)
    }
}

/// A path on the command line as a path from the root. Fails where it needs the
/// home directory or the working directory and there is none.
pub fn expand_cli_path(text: &str, home: Option<&str>, working: Option<&str>) -> (r: Result<
    String,
    String,
>)
    ensures
        if text@ == "~"@ || starts(text@, "~/"@) {
            match home {
                Some(h) => r matches Ok(p) && p@ == user_path(text@, Some(h@)),
                None => r matches Err(e) && e@ == "HOME is not set"@,
            }
        } else if rooted(text@) {
            r matches Ok(p) && p@ == text@
        } else {
            match working {
                Some(w) => r matches Ok(p) && p@ == path_join(w@, text@),
                None => r matches Err(e) && e@ == "read current directory"@,
            }
        },
{
    if same_text(text, "~") || starts_with(text, "~/") {
        match home {
            Some(h) => Ok(expand_home_path(text, Some(h))),
            None => Err("HOME is not set".to_owned()),
        }
    } else if is_rooted(text) {
        Ok(text.to_owned())
    } else {
        match working {
            Some(w) => Ok(join_path(w, text)),
            None => Err("read current directory".to_owned()),
        }
    }
}

/// The file below the home directory, or below the working directory where there
/// is no home.
pub open spec fn settings_file(home: Option<Seq<char>>, name: Seq<char>) -> Seq<char> {
    path_join(
        path_join(
            match home {
                Some(h) => h,
                None => "."@,
            },
            ".statsai"@,
        ),
        name,
    )
}

fn settings_path(home: Option<&str>, name: &str) -> (r: String)
    ensures
        r@ == settings_file(opt_str(home), name@),
{
    let base = match home {
        Some(h) => h.to_owned(),
        None => ".".to_owned(),
    };
    let dir = join_path(base.as_str(), ".statsai");
    join_path(dir.as_str(), name)
}

pub fn default_store_path(home: Option<&str>) -> (r: String)
    ensures
        r@ == settings_file(opt_str(home), "statsai.sqlite"@),
{
    settings_path(home, "statsai.sqlite")
}

pub fn device_id_path(home: Option<&str>) -> (r: String)
    ensures
        r@ == settings_file(opt_str(home), "device-id"@),
{
    settings_path(home, "device-id")
}

/// The device's identifier, where one is given in the environment or was stored.
pub fn known_device_id(environment: Option<&str>, stored: Option<&str>) -> (r: Option<String>)
    ensures
        opt_text(r) == match given(opt_str(environment)) {
            Some(id) => Some(id),
            None => given(opt_str(stored)),
        },
{
    match non_blank_text(environment) {
        Some(id) => Some(id),
        None => non_blank_text(stored),
    }
}

/// A new identifier for the device: a hash, so that it shows neither host nor
/// user.
pub fn generate_device_id(host: &str, user: &str, home: &str, process: u32, nanos: i64) -> (r: String)
    ensures
        r@ == keyed_id(
            "dev_"@,
            seq![host@, user@, home@, decimal(process as nat), signed_decimal(nanos as int)],
            16,
        ),
{
    let p = decimal_text(process as u64);
    let n = signed_decimal_text(nanos);
    let parts: [&str; 5] = [host, user, home, p.as_str(), n.as_str()];
    proof {
        assert(strs(parts@) =~= seq![
            host@,
            user@,
            home@,
            decimal(process as nat),
            signed_decimal(nanos as int),
        ]);
    }
    make_id("dev_", &parts, 16)
}

} // verus!
