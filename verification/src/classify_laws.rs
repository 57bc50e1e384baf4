//! Which paths are code and which of it is test code.
use crate::classify::{
    classify_spec, code_extension, excluded_spec, in_test_directory, lowered_file_name, test_name,
};
use crate::code_types::CodeCategory;
use crate::path_laws::{are_names, from_root, is_name, the_last_name_is_the_files};
use crate::paths::extension_of;
use crate::text::{ends, lowered, occurs_at, upper_ascii};
use vstd::prelude::*;

verus! {

/// A path that is not left out and whose extension is one of code is code, and
/// nothing else is. It is test code exactly where a directory on the way or the
/// file's name says so.
pub proof fn a_path_is_code_by_its_extension(path: Seq<char>)
    ensures
        classify_spec(path) is Some == (!excluded_spec(path) && extension_of(path) is Some
            && code_extension(lowered(extension_of(path)->0))),
        classify_spec(path) == Some(CodeCategory::Test) ==> in_test_directory(path) || test_name(
            lowered_file_name(path),
        ),
        classify_spec(path) == Some(CodeCategory::Source) ==> !in_test_directory(path)
            && !test_name(lowered_file_name(path)),
{
}

/// A file's name marks it as test code by its beginning, its end or a part between
/// dots, whatever else stands in it.
pub proof fn names_mark_test_code(a: Seq<char>, b: Seq<char>)
    ensures
        test_name("test_"@ + b),
        test_name(a + ".test."@ + b),
        test_name(a + ".spec."@ + b),
        test_name(a + "_test.rs"@),
        test_name(a + "_tests.rs"@),
        test_name(a + "_test.go"@),
        test_name(a + "_test.py"@),
        test_name(a + "tests.swift"@),
{
    assert(("test_"@ + b).take("test_"@.len() as int) =~= "test_"@);
    let t = a + ".test."@ + b;
    assert(t.subrange(a.len() as int, a.len() as int + ".test."@.len()) =~= ".test."@);
    assert(occurs_at(t, ".test."@, a.len() as int));
    let s = a + ".spec."@ + b;
    assert(s.subrange(a.len() as int, a.len() as int + ".spec."@.len()) =~= ".spec."@);
    assert(occurs_at(s, ".spec."@, a.len() as int));
    lemma_ends(a, "_test.rs"@);
    lemma_ends(a, "_tests.rs"@);
    lemma_ends(a, "_test.go"@);
    lemma_ends(a, "_test.py"@);
    lemma_ends(a, "tests.swift"@);
}

proof fn lemma_ends(a: Seq<char>, b: Seq<char>)
    ensures
        ends(a + b, b),
{
    assert((a + b).skip(a.len() as int) =~= b);
}

/// Minified files and maps are left out wherever they lie.
pub proof fn minified_files_are_left_out(above: Seq<Seq<char>>, stem: Seq<char>)
    requires
        are_names(above),
        !stem.contains('/'),
    ensures
        classify_spec(from_root(above.push(stem + ".min.js"@))) is None,
        classify_spec(from_root(above.push(stem + ".min.css"@))) is None,
        classify_spec(from_root(above.push(stem + ".map"@))) is None,
{
    reveal_strlit(".min.js");
    reveal_strlit(".min.css");
    reveal_strlit(".map");
    lemma_left_out(above, stem, ".min.js"@);
    lemma_left_out(above, stem, ".min.css"@);
    lemma_left_out(above, stem, ".map"@);
}

proof fn lemma_left_out(above: Seq<Seq<char>>, stem: Seq<char>, end: Seq<char>)
    requires
        are_names(above),
        !stem.contains('/'),
        end == ".min.js"@ || end == ".min.css"@ || end == ".map"@,
    ensures
        excluded_spec(from_root(above.push(stem + end))),
{
    reveal_strlit(".min.js");
    reveal_strlit(".min.css");
    reveal_strlit(".map");
    let f = stem + end;
    let names = above.push(f);
    assert(f.len() >= 4 && f.len() != seq!['.'].len());
    assert forall|k: int| 0 <= k < f.len() implies #[trigger] f[k] != '/' by {
        if k < stem.len() {
            assert(stem[k] == f[k]);
        } else {
            assert(f[k] == end[k - stem.len()]);
        }
    }
    assert(is_name(f));
    assert forall|i: int| 0 <= i < names.len() implies is_name(#[trigger] names[i]) by {
        if i < above.len() {
            assert(names[i] == above[i]);
        }
    }
    the_last_name_is_the_files(names);
    assert(f.len() > 2);
    assert(f != seq!['.', '.']);
    let low = lowered(f);
    assert(low.skip(stem.len() as int) =~= end) by {
        assert forall|k: int| 0 <= k < end.len() implies low[stem.len() + k] == end[k] by {
            assert(f[stem.len() + k] == end[k]);
            assert(!upper_ascii(end[k]));
        }
    }
    assert(ends(low, end));
}

} // verus!
