//! How paths are made of names and taken apart again.
use crate::paths::{
    components, depth_of, extension_of, file_name_of, home_expanded, is_base, leads,
    lemma_separator_from, parent_of, path_from, path_join, rooted, same_path, spans, user_path,
    without_base,
};
use crate::text::{joined, last_place, last_upto, lemma_last_upto, occurs_at, starts};
use crate::text_laws::lemma_joined_first;
use crate::usage_laws::picked;
use vstd::prelude::*;

verus! {

/// A name that can stand in a path: neither empty nor `.`, and without a separator.
pub open spec fn is_name(c: Seq<char>) -> bool {
    c.len() > 0 && c != seq!['.'] && !c.contains('/')
}

pub open spec fn are_names(v: Seq<Seq<char>>) -> bool {
    forall|i: int| 0 <= i < v.len() ==> is_name(#[trigger] v[i])
}

/// Names with separators between them.
pub open spec fn path_below(names: Seq<Seq<char>>) -> Seq<char> {
    joined(names, seq!['/'])
}

/// The same from the root.
pub open spec fn from_root(names: Seq<Seq<char>>) -> Seq<char> {
    seq!['/'] + path_below(names)
}

proof fn lemma_below_first(names: Seq<Seq<char>>)
    requires
        names.len() > 1,
    ensures
        path_below(names) == names[0] + seq!['/'] + path_below(names.skip(1)),
{
    assert(names =~= seq![names[0]] + names.skip(1));
    lemma_joined_first(names[0], names.skip(1), seq!['/']);
}

pub proof fn lemma_below_concat(a: Seq<Seq<char>>, b: Seq<Seq<char>>)
    requires
        a.len() > 0,
        b.len() > 0,
    ensures
        path_below(a + b) == path_below(a) + seq!['/'] + path_below(b),
    decreases a.len(),
{
    lemma_below_first(a + b);
    if a.len() == 1 {
        assert((a + b).skip(1) =~= b);
    } else {
        assert((a + b).skip(1) =~= a.skip(1) + b);
        lemma_below_concat(a.skip(1), b);
        lemma_below_first(a);
        let m = path_below(a.skip(1));
        assert(a[0] + seq!['/'] + (m + seq!['/'] + path_below(b)) =~= a[0] + seq!['/'] + m + seq!['/']
            + path_below(b));
    }
}

pub proof fn lemma_spans_of_names(pre: Seq<char>, names: Seq<Seq<char>>)
    requires
        are_names(names),
    ensures
        ({
            let s = pre + path_below(names);
            let sp = spans(s, pre.len() as int);
            &&& sp.len() == names.len()
            &&& forall|k: int|
                0 <= k < sp.len() ==> s.subrange((#[trigger] sp[k]).0, sp[k].1) == names[k]
            &&& forall|k: int|
                0 <= k < sp.len() ==> 0 <= (#[trigger] sp[k]).0 <= s.len() && s.subrange(
                    sp[k].0,
                    s.len() as int,
                ) == path_below(names.skip(k))
            &&& forall|k: int|
                0 <= k < sp.len() ==> pre.len() <= (#[trigger] sp[k]).1 <= s.len() && s.subrange(
                    0,
                    sp[k].1,
                ) == pre + path_below(names.take(k + 1))
            &&& sp.len() > 0 ==> sp.last().1 == s.len()
        }),
    decreases names.len(),
{
    let s = pre + path_below(names);
    let i = pre.len() as int;
    let sp = spans(s, i);
    if names.len() == 0 {
        assert(s =~= pre);
    } else {
        let c = names[0];
        let j = i + c.len();
        assert(is_name(names[0]));
        if names.len() == 1 {
            assert(path_below(names) == c);
            assert forall|k: int| i <= k < j implies s[k] != '/' by {
                assert(c[k - i] == s[k]);
            }
            lemma_separator_from(s, i, j);
            if c.len() == 1 && c[0] == '.' {
                assert(c =~= seq!['.']);
            }
            assert(s[i] == c[0]);
            assert(spans(s, j + 1) =~= Seq::empty());
            assert(sp =~= seq![(i, j)]);
            assert(s.subrange(i, j) =~= c);
            assert(names.skip(0) =~= names);
            assert(names.take(1) =~= names);
            assert(s.subrange(0, j) =~= s);
        } else {
            lemma_below_first(names);
            let rest = names.skip(1);
            let pre2 = pre + c + seq!['/'];
            assert(pre2 + path_below(rest) =~= s);
            assert forall|k: int| i <= k < j implies s[k] != '/' by {
                assert(c[k - i] == s[k]);
            }
            assert(s[j] == '/');
            lemma_separator_from(s, i, j);
            if c.len() == 1 && c[0] == '.' {
                assert(c =~= seq!['.']);
            }
            assert(s[i] == c[0]);
            assert forall|k: int| 0 <= k < rest.len() implies is_name(#[trigger] rest[k]) by {
                assert(rest[k] == names[k + 1]);
            }
            lemma_spans_of_names(pre2, rest);
            let sp2 = spans(s, j + 1);
            assert(pre2.len() == j + 1);
            assert(sp =~= seq![(i, j)] + sp2);
            assert forall|k: int| 0 <= k < sp.len() implies s.subrange(
                (#[trigger] sp[k]).0,
                sp[k].1,
            ) == names[k] by {
                if k == 0 {
                    assert(s.subrange(i, j) =~= c);
                } else {
                    assert(sp[k] == sp2[k - 1]);
                    assert(names[k] == rest[k - 1]);
                }
            }
            assert forall|k: int| 0 <= k < sp.len() implies 0 <= (#[trigger] sp[k]).0 <= s.len()
                && s.subrange(sp[k].0, s.len() as int) == path_below(names.skip(k)) by {
                if k == 0 {
                    assert(names.skip(0) =~= names);
                    assert(s.subrange(i, s.len() as int) =~= path_below(names));
                } else {
                    assert(sp[k] == sp2[k - 1]);
                    assert(names.skip(k) =~= rest.skip(k - 1));
                }
            }
            assert forall|k: int| 0 <= k < sp.len() implies pre.len() <= (#[trigger] sp[k]).1
                <= s.len() && s.subrange(0, sp[k].1) == pre + path_below(names.take(k + 1)) by {
                if k == 0 {
                    assert(names.take(1) =~= seq![c]);
                    assert(s.subrange(0, j) =~= pre + c);
                } else {
                    assert(sp[k] == sp2[k - 1]);
                    let t = names.take(k + 1);
                    lemma_below_first(t);
                    assert(t.skip(1) =~= rest.take(k));
                    assert(pre2 + path_below(rest.take(k)) =~= pre + (c + seq!['/'] + path_below(
                        rest.take(k),
                    )));
                }
            }
        }
    }
}

proof fn lemma_spans_from_root(names: Seq<Seq<char>>)
    requires
        are_names(names),
    ensures
        spans(from_root(names), 0) == spans(from_root(names), 1),
        spans(from_root(names), 1).len() == names.len(),
{
    let s = from_root(names);
    assert(s[0] == '/');
    lemma_separator_from(s, 0, 0);
    lemma_spans_of_names(seq!['/'], names);
}

/// A path has the names that it is made of as its parts, in order, whether it starts
/// at the root or not.
pub proof fn a_path_has_the_names_it_is_made_of(names: Seq<Seq<char>>)
    requires
        are_names(names),
    ensures
        components(from_root(names)) == names,
        components(path_below(names)) == names,
        rooted(from_root(names)),
        !rooted(path_below(names)),
{
    let s = from_root(names);
    lemma_spans_from_root(names);
    lemma_spans_of_names(seq!['/'], names);
    assert(components(s) =~= names);
    let t = path_below(names);
    lemma_spans_of_names(Seq::empty(), names);
    assert(Seq::<char>::empty() + t =~= t);
    assert(components(t) =~= names);
    if names.len() > 0 {
        assert(is_name(names[0]));
        if names.len() > 1 {
            lemma_below_first(names);
        }
        assert(t[0] == names[0][0]);
    }
}

/// A directory is above exactly the paths that start with its names.
pub proof fn a_directory_is_above_what_starts_with_its_names(
    base: Seq<Seq<char>>,
    path: Seq<Seq<char>>,
)
    requires
        are_names(base),
        are_names(path),
    ensures
        is_base(from_root(base), from_root(path)) == (base.len() <= path.len() && forall|i: int|
            0 <= i < base.len() ==> #[trigger] base[i] == path[i]),
        base.len() > 0 ==> !is_base(path_below(base), from_root(path)),
        !is_base(from_root(base), path_below(path)),
        same_path(from_root(base), from_root(path)) == (base == path),
{
    a_path_has_the_names_it_is_made_of(base);
    a_path_has_the_names_it_is_made_of(path);
    if base.len() <= path.len() {
        if path.take(base.len() as int) == base {
            assert(forall|i: int|
                0 <= i < base.len() ==> #[trigger] base[i] == path.take(base.len() as int)[i]);
        }
        if forall|i: int| 0 <= i < base.len() ==> #[trigger] base[i] == path[i] {
            assert(path.take(base.len() as int) =~= base);
        }
    }
}

/// A path below a directory is the directory and the rest, and relative to the
/// directory it is the rest.
pub proof fn joining_and_taking_the_base_off_are_inverse(
    base: Seq<Seq<char>>,
    rest: Seq<Seq<char>>,
)
    requires
        are_names(base),
        are_names(rest),
        base.len() > 0,
        rest.len() > 0,
    ensures
        path_join(from_root(base), path_below(rest)) == from_root(base + rest),
        without_base(from_root(base + rest), from_root(base)) == Some(path_below(rest)),
        without_base(from_root(base), from_root(base)) == Some(Seq::<char>::empty()),
        path_join(from_root(base), from_root(rest)) == from_root(rest),
{
    let all = base + rest;
    assert forall|i: int| 0 <= i < all.len() implies is_name(#[trigger] all[i]) by {
        if i < base.len() {
            assert(all[i] == base[i]);
        } else {
            assert(all[i] == rest[i - base.len()]);
        }
    }
    a_path_has_the_names_it_is_made_of(base);
    a_path_has_the_names_it_is_made_of(rest);
    a_path_has_the_names_it_is_made_of(all);
    lemma_below_concat(base, rest);
    lemma_below_ends(base);
    let a = from_root(base);
    assert(a.push('/') + path_below(rest) =~= seq!['/'] + (path_below(base) + seq!['/'] + path_below(rest)));
    let s = from_root(all);
    lemma_spans_from_root(all);
    lemma_spans_of_names(seq!['/'], all);
    let k = base.len() as int;
    assert(all.skip(k) =~= rest);
    assert(all.take(k) =~= base);
    assert(leads(base, all));
    assert(base.take(k) =~= base);
    assert(path_from(s, k) == path_below(rest));
    lemma_spans_from_root(base);
}

/// What is made of names ends with no separator.
pub proof fn lemma_below_ends(names: Seq<Seq<char>>)
    requires
        are_names(names),
        names.len() > 0,
    ensures
        path_below(names).len() > 0,
        path_below(names).last() != '/',
{
    let c = names.last();
    assert(is_name(names[names.len() - 1]));
    assert(path_below(names).last() == c.last());
    assert(c.contains(c[c.len() - 1]));
}

/// The last name is the file's, unless it leads up; what is above has the other names.
pub proof fn the_last_name_is_the_files(names: Seq<Seq<char>>)
    requires
        are_names(names),
        names.len() > 0,
    ensures
        file_name_of(from_root(names)) == (if names.last() == seq!['.', '.'] {
            None
        } else {
            Some(names.last())
        }),
        parent_of(from_root(names)) == Some(from_root(names.drop_last())),
        parent_of(from_root(Seq::empty())) is None,
{
    a_path_has_the_names_it_is_made_of(names);
    let s = from_root(names);
    lemma_spans_from_root(names);
    lemma_spans_of_names(seq!['/'], names);
    let n = names.len() as int;
    assert(is_name(names[n - 1]));
    let sp = spans(s, 0);
    if n > 1 {
        assert(names.take(n - 1) =~= names.drop_last());
        assert(s.subrange(0, sp[n - 2].1) == from_root(names.take(n - 2 + 1)));
    } else {
        assert(names.drop_last() =~= Seq::empty());
        assert(s.subrange(0, 1) =~= seq!['/']);
        assert(from_root(Seq::empty()) =~= seq!['/']);
    }
    let none = Seq::<Seq<char>>::empty();
    lemma_spans_from_root(none);
}

/// A file's extension is what stands behind the last dot of its name, where
/// something stands before that dot.
pub proof fn the_extension_stands_behind_the_last_dot(
    above: Seq<Seq<char>>,
    stem: Seq<char>,
    extension: Seq<char>,
)
    requires
        are_names(above),
        !stem.contains('/'),
        !extension.contains('/'),
        !extension.contains('.'),
        stem + seq!['.'] + extension != seq!['.'],
        stem + seq!['.'] + extension != seq!['.', '.'],
    ensures
        extension_of(from_root(above.push(stem + seq!['.'] + extension))) == (if stem.len() == 0 {
            None
        } else {
            Some(extension)
        }),
        is_name(extension) ==> extension_of(from_root(above.push(extension))) is None,
{
    let f = stem + seq!['.'] + extension;
    lemma_last_dot(stem, extension);
    lemma_one_name_more(above, f);
    the_last_name_is_the_files(above.push(f));
    if is_name(extension) {
        lemma_one_name_more(above, extension);
        the_last_name_is_the_files(above.push(extension));
    }
}

proof fn lemma_one_name_more(above: Seq<Seq<char>>, f: Seq<char>)
    requires
        are_names(above),
        is_name(f),
    ensures
        are_names(above.push(f)),
{
    let names = above.push(f);
    assert forall|i: int| 0 <= i < names.len() implies is_name(#[trigger] names[i]) by {
        if i < above.len() {
            assert(names[i] == above[i]);
        }
    }
}

proof fn lemma_last_dot(stem: Seq<char>, extension: Seq<char>)
    requires
        !stem.contains('/'),
        !extension.contains('/'),
        !extension.contains('.'),
        stem + seq!['.'] + extension != seq!['.'],
    ensures
        ({
            let f = stem + seq!['.'] + extension;
            &&& is_name(f)
            &&& last_place(f, seq!['.']) == Some(stem.len() as int)
            &&& f.skip(stem.len() as int + 1) == extension
            &&& last_place(extension, seq!['.']) is None
        }),
{
    let f = stem + seq!['.'] + extension;
    let n = stem.len() as int;
    assert forall|k: int| 0 <= k < f.len() implies #[trigger] f[k] != '/' by {
        if k < n {
            assert(stem[k] == f[k]);
        } else if k > n {
            assert(extension[k - n - 1] == f[k]);
        }
    }
    assert(f.len() > 0);
    assert(!f.contains('/'));
    lemma_last_of_char(stem, '.', extension);
    lemma_no_such_char(extension, '.');
    assert(f.skip(n + 1) =~= extension);
}

proof fn lemma_last_of_char(a: Seq<char>, c: char, b: Seq<char>)
    requires
        !b.contains(c),
    ensures
        last_place(a + seq![c] + b, seq![c]) == Some(a.len() as int),
{
    let f = a + seq![c] + b;
    let p = seq![c];
    let n = a.len() as int;
    assert(f.subrange(n, n + 1) =~= p);
    assert(occurs_at(f, p, n));
    lemma_last_upto(f, p, f.len() as int);
    match last_upto(f, p, f.len() as int) {
        Some(k) => {
            if k > n {
                assert(f.subrange(k, k + 1)[0] == f[k]);
                assert(b[k - n - 1] == c);
            }
        },
        None => {},
    }
}

proof fn lemma_no_such_char(b: Seq<char>, c: char)
    requires
        !b.contains(c),
    ensures
        last_place(b, seq![c]) is None,
{
    let p = seq![c];
    lemma_last_upto(b, p, b.len() as int);
    match last_upto(b, p, b.len() as int) {
        Some(k) => {
            assert(b.subrange(k, k + 1)[0] == b[k]);
        },
        None => {},
    }
}

/// Whether no beginning of the parts leads up more often than down.
pub open spec fn never_above(parts: Seq<Seq<char>>) -> bool {
    forall|k: int|
        0 <= k <= parts.len() ==> picked(
            #[trigger] parts.take(k),
            |c: Seq<char>| c == seq!['.', '.'],
        ) <= picked(parts.take(k), |c: Seq<char>| c != seq!['.', '.'] && c != seq!['.'])
}

/// A relative path stays inside its directory exactly where no beginning of it leads
/// above; it ends as deep as the names outnumber the steps up.
pub proof fn a_contained_path_never_leads_above(parts: Seq<Seq<char>>)
    ensures
        depth_of(parts) is Some == never_above(parts),
        depth_of(parts) is Some ==> depth_of(parts)->0 == picked(
            parts,
            |c: Seq<char>| c != seq!['.', '.'] && c != seq!['.'],
        ) - picked(parts, |c: Seq<char>| c == seq!['.', '.']),
    decreases parts.len(),
{
    let up = |c: Seq<char>| c == seq!['.', '.'];
    let down = |c: Seq<char>| c != seq!['.', '.'] && c != seq!['.'];
    let n = parts.len() as int;
    if n > 0 {
        let front = parts.drop_last();
        a_contained_path_never_leads_above(front);
        assert(parts.take(n) =~= parts);
        assert(front.take(n - 1) =~= front);
        assert forall|k: int| 0 <= k < n implies #[trigger] front.take(k) == parts.take(k) by {
            assert(front.take(k) =~= parts.take(k));
        }
        if never_above(parts) {
            assert forall|k: int| 0 <= k <= front.len() implies picked(
                #[trigger] front.take(k),
                up,
            ) <= picked(front.take(k), down) by {
                assert(front.take(k) == parts.take(k));
                assert(picked(parts.take(k), up) <= picked(parts.take(k), down));
            }
            assert(never_above(front));
            assert(picked(parts.take(n), up) <= picked(parts.take(n), down));
        }
        if depth_of(parts) is Some {
            assert(never_above(front));
            assert forall|k: int| 0 <= k <= n implies picked(#[trigger] parts.take(k), up)
                <= picked(parts.take(k), down) by {
                if k < n {
                    assert(front.take(k) == parts.take(k));
                    assert(picked(front.take(k), up) <= picked(front.take(k), down));
                }
            }
        }
        assert(seq!['.', '.'].len() != seq!['.'].len());
    } else {
        assert forall|k: int| 0 <= k <= parts.len() implies picked(#[trigger] parts.take(k), up)
            <= picked(parts.take(k), down) by {
            assert(parts.take(k) =~= parts);
        }
    }
}

/// A path below the home sign is the path below the home directory; any other stays.
pub proof fn the_home_sign_stands_for_the_home_directory(
    home: Seq<Seq<char>>,
    rest: Seq<Seq<char>>,
    other: Seq<char>,
)
    requires
        are_names(home),
        are_names(rest),
        home.len() > 0,
        rest.len() > 0,
        !(other.len() >= 2 && other[0] == '~' && other[1] == '/'),
    ensures
        home_expanded(seq!['~', '/'] + path_below(rest), Some(from_root(home))) == from_root(home + rest),
        home_expanded(seq!['~', '/'] + path_below(rest), None) == seq!['~', '/'] + path_below(rest),
        home_expanded(other, Some(from_root(home))) == other,
        user_path(seq!['~'], Some(from_root(home))) == from_root(home),
{
    reveal_strlit("~/");
    reveal_strlit("~");
    assert("~/"@ =~= seq!['~', '/']);
    assert("~"@ =~= seq!['~']);
    let p = seq!['~', '/'] + path_below(rest);
    assert(p.take(2) =~= "~/"@);
    assert(p.skip(2) =~= path_below(rest));
    joining_and_taking_the_base_off_are_inverse(home, rest);
    if starts(other, "~/"@) {
        assert(other.take(2)[0] == '~' && other.take(2)[1] == '/');
    }
}

} // verus!
