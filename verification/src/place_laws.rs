//! Where in a repository an edited file lies, and how a repository is known.
use crate::git::{clean_parts, host_and_path, normalized_remote, repository_key};
use crate::matching::place_spec;
use crate::path_laws::{
    a_directory_is_above_what_starts_with_its_names, a_path_has_the_names_it_is_made_of, are_names,
    from_root, is_name, joining_and_taking_the_base_off_are_inverse, lemma_below_concat,
    lemma_below_ends, lemma_spans_of_names, path_below,
};
use crate::paths::{contained, depth_of, leads, path_join, without_base};
use crate::sorted::sorted_texts;
use crate::text::{
    blank, ended_lines, joined, lowered, splitting_undoes_joining, trim_back_char, trimmed, white,
};
use vstd::prelude::*;

verus! {

/// Names none of which leads up.
pub open spec fn lead_down(v: Seq<Seq<char>>) -> bool {
    are_names(v) && forall|i: int| 0 <= i < v.len() ==> #[trigger] v[i] != seq!['.', '.']
}

proof fn lemma_depth_of_names(v: Seq<Seq<char>>)
    requires
        lead_down(v),
    ensures
        depth_of(v) is Some,
    decreases v.len(),
{
    if v.len() > 0 {
        let front = v.drop_last();
        assert forall|i: int| 0 <= i < front.len() implies is_name(#[trigger] front[i]) && front[i]
            != seq!['.', '.'] by {
            assert(front[i] == v[i]);
        }
        lemma_depth_of_names(front);
        assert(v[v.len() - 1] != seq!['.', '.']);
    }
}

proof fn lemma_contained_names(v: Seq<Seq<char>>)
    requires
        lead_down(v),
    ensures
        contained(path_below(v)),
{
    a_path_has_the_names_it_is_made_of(v);
    lemma_depth_of_names(v);
}

proof fn lemma_names_concat(a: Seq<Seq<char>>, b: Seq<Seq<char>>)
    requires
        lead_down(a),
        lead_down(b),
    ensures
        lead_down(a + b),
{
    let all = a + b;
    assert forall|i: int| 0 <= i < all.len() implies is_name(#[trigger] all[i]) && all[i]
        != seq!['.', '.'] by {
        if i < a.len() {
            assert(all[i] == a[i]);
        } else {
            assert(all[i] == b[i - a.len()]);
        }
    }
}

/// A file of a project that is the repository lies where it says.
pub proof fn a_file_of_the_repository_lies_where_it_says(
    root: Seq<Seq<char>>,
    file: Seq<Seq<char>>,
)
    requires
        lead_down(root),
        lead_down(file),
    ensures
        place_spec(
            from_root(root),
            path_below(file),
            from_root(root),
            from_root(root),
            from_root(root),
        ) == Some(path_below(file)),
{
    lemma_contained_names(file);
}

/// A file of a project inside the repository lies below the project's place in it.
pub proof fn a_file_of_an_inner_project_lies_below_it(
    root: Seq<Seq<char>>,
    inner: Seq<Seq<char>>,
    file: Seq<Seq<char>>,
)
    requires
        lead_down(root),
        lead_down(inner),
        lead_down(file),
        root.len() > 0,
        inner.len() > 0,
        file.len() > 0,
    ensures
        place_spec(
            from_root(root + inner),
            path_below(file),
            from_root(root),
            from_root(root + inner),
            from_root(root),
        ) == Some(path_below(inner + file)),
{
    lemma_names_concat(root, inner);
    lemma_names_concat(inner, file);
    lemma_contained_names(inner + file);
    joining_and_taking_the_base_off_are_inverse(root, inner);
    joining_and_taking_the_base_off_are_inverse(inner, file);
    a_directory_is_above_what_starts_with_its_names(root + inner, root);
    a_path_has_the_names_it_is_made_of(root);
    a_path_has_the_names_it_is_made_of(root + inner);
    assert((root + inner).len() != root.len());
    a_path_has_the_names_it_is_made_of(file);
    lemma_join_below(inner, file);
}

/// Names below names are all of them, one below the other.
proof fn lemma_join_below(a: Seq<Seq<char>>, b: Seq<Seq<char>>)
    requires
        are_names(a),
        are_names(b),
        a.len() > 0,
        b.len() > 0,
    ensures
        path_join(path_below(a), path_below(b)) == path_below(a + b),
{
    a_path_has_the_names_it_is_made_of(b);
    lemma_below_concat(a, b);
    lemma_below_ends(a);
    assert(path_below(a).push('/') + path_below(b) =~= path_below(a) + seq!['/'] + path_below(b));
}

/// A file of a project that holds the repository lies in it exactly where its path
/// leads through the repository's place in the project, and there it lies at the rest.
pub proof fn a_file_of_an_outer_project_lies_in_it_or_not(
    project: Seq<Seq<char>>,
    inner: Seq<Seq<char>>,
    rest: Seq<Seq<char>>,
    file: Seq<Seq<char>>,
)
    requires
        lead_down(project),
        lead_down(inner),
        lead_down(rest),
        lead_down(file),
        project.len() > 0,
        inner.len() > 0,
        rest.len() > 0,
        !(inner.len() <= file.len() && file.take(inner.len() as int) == inner),
    ensures
        place_spec(
            from_root(project),
            path_below(inner + rest),
            from_root(project + inner),
            from_root(project),
            from_root(project + inner),
        ) == Some(path_below(rest)),
        place_spec(
            from_root(project),
            path_below(file),
            from_root(project + inner),
            from_root(project),
            from_root(project + inner),
        ) is None,
{
    let root = project + inner;
    lemma_names_concat(project, inner);
    lemma_names_concat(inner, rest);
    lemma_contained_names(rest);
    a_path_has_the_names_it_is_made_of(project);
    a_path_has_the_names_it_is_made_of(root);
    a_path_has_the_names_it_is_made_of(inner);
    a_path_has_the_names_it_is_made_of(file);
    a_path_has_the_names_it_is_made_of(inner + rest);
    assert(root.len() != project.len());
    joining_and_taking_the_base_off_are_inverse(project, inner);
    lemma_rest_below(inner, rest);
}

/// Relative to its first names a path is the rest.
proof fn lemma_rest_below(a: Seq<Seq<char>>, b: Seq<Seq<char>>)
    requires
        lead_down(a),
        lead_down(b),
        a.len() > 0,
        b.len() > 0,
    ensures
        without_base(path_below(a + b), path_below(a)) == Some(path_below(b)),
{
    let all = a + b;
    lemma_names_concat(a, b);
    a_path_has_the_names_it_is_made_of(a);
    a_path_has_the_names_it_is_made_of(all);
    lemma_spans_of_names(Seq::empty(), all);
    let s = path_below(all);
    assert(Seq::<char>::empty() + s =~= s);
    assert(all.take(a.len() as int) =~= a);
    assert(all.skip(a.len() as int) =~= b);
    assert(leads(a, all));
}

/// A file of a project apart from the repository lies nowhere in it.
pub proof fn a_file_from_elsewhere_lies_nowhere(
    project: Seq<Seq<char>>,
    root: Seq<Seq<char>>,
    file: Seq<char>,
    i: int,
)
    requires
        lead_down(project),
        lead_down(root),
        0 <= i < project.len(),
        i < root.len(),
        project[i] != root[i],
    ensures
        place_spec(
            from_root(project),
            file,
            from_root(root),
            from_root(project),
            from_root(root),
        ) is None,
{
    a_directory_is_above_what_starts_with_its_names(project, root);
    a_directory_is_above_what_starts_with_its_names(root, project);
}

// ---------------------------------------------------------------------------
// How a repository is known
// ---------------------------------------------------------------------------

/// A part of a remote's address: not empty, and without separators and white space.
pub open spec fn is_plain(c: Seq<char>) -> bool {
    c.len() > 0 && !c.contains('/') && forall|k: int| 0 <= k < c.len() ==> !white(#[trigger] c[k])
}

proof fn lemma_clean_plain(v: Seq<Seq<char>>)
    requires
        forall|i: int| 0 <= i < v.len() ==> is_plain(#[trigger] v[i]),
    ensures
        clean_parts(v) == v.map_values(|c: Seq<char>| lowered(c)),
    decreases v.len(),
{
    let small = |c: Seq<char>| lowered(c);
    if v.len() > 0 {
        let front = v.drop_last();
        let c = v.last();
        assert forall|i: int| 0 <= i < front.len() implies is_plain(#[trigger] front[i]) by {
            assert(front[i] == v[i]);
        }
        lemma_clean_plain(front);
        assert(is_plain(v[v.len() - 1]));
        assert(!white(c[0]) && !white(c[c.len() - 1]));
        assert(trimmed(c) == c);
        assert(v.map_values(small) =~= front.map_values(small).push(lowered(c)));
    } else {
        assert(clean_parts(v) =~= v.map_values(small));
    }
}

/// A remote is known by its host and the names of its path, in small letters, and
/// the suffix of the last name makes no difference.
pub proof fn a_remote_is_known_by_host_and_names(
    value: Seq<char>,
    names: Seq<Seq<char>>,
    stem: Seq<char>,
)
    requires
        names.len() >= 2,
        forall|i: int| 0 <= i < names.len() ==> is_plain(#[trigger] names[i]),
        value.len() > 0,
        forall|k: int| 0 <= k < value.len() ==> !white(#[trigger] value[k]),
        value.last() != '/',
        host_and_path(value) == Some(path_below(names)),
    ensures
        ({
            let small = names.map_values(|c: Seq<char>| lowered(c));
            &&& small.last() == stem + ".git"@ ==> normalized_remote(value) == Some(
                path_below(small.drop_last().push(stem)),
            )
            &&& small.last() == stem && !(stem.len() >= 4 && stem.skip(stem.len() - 4) == ".git"@)
                ==> normalized_remote(value) == Some(path_below(small))
        }),
{
    reveal_strlit(".git");
    reveal_strlit("/");
    assert("/"@ =~= seq!['/']);
    assert(!white(value[0]) && !white(value[value.len() - 1]));
    assert(trimmed(value) == value);
    assert(trim_back_char(value, '/') == value);
    assert forall|i: int| 0 <= i < names.len() implies !(#[trigger] names[i]).contains('/') by {
        assert(is_plain(names[i]));
    }
    splitting_undoes_joining(names, '/');
    lemma_clean_plain(names);
    let small = names.map_values(|c: Seq<char>| lowered(c));
    let n = small.len() as int;
    if small.last() == stem + ".git"@ {
        let l = small[n - 1];
        assert(l.skip(l.len() - 4) =~= ".git"@);
        assert(l.take(l.len() - 4) =~= stem);
        assert(small.update(n - 1, stem) =~= small.drop_last().push(stem));
    } else if small.last() == stem {
        assert(small.update(n - 1, stem) =~= small);
    }
}

/// A repository is known by its remote where it has one, else by all its root
/// commits, in whatever order they are listed, else by its path.
pub proof fn a_repository_is_known_by_remote_roots_or_path(
    remote: Seq<char>,
    roots: Seq<char>,
    path: Seq<char>,
    name: Seq<char>,
)
    ensures
        !blank(remote) && normalized_remote(remote) == Some(name) ==> repository_key(
            remote,
            roots,
            path,
        ) == "remote:"@ + name,
        !blank(remote) && normalized_remote(remote) is None ==> repository_key(remote, roots, path)
            == "remote:"@ + trimmed(remote),
        blank(remote) && ended_lines(roots).len() > 0 ==> repository_key(remote, roots, path)
            == "roots:"@ + joined(sorted_texts(ended_lines(roots)), ","@),
        blank(remote) && ended_lines(roots).len() == 0 ==> repository_key(remote, roots, path)
            == "path:"@ + path,
{
}

} // verus!
