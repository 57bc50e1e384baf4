//! Which files count as code, and which are noise.
use crate::code_types::CodeCategory;
use crate::letter_case::{
    lemma_extension_lowered, lemma_file_name_lowered, lemma_lowered_twice, lemma_replaced_lowered,
    lemma_split_lowered,
};
use crate::paths::{extension, extension_of, file_name, file_name_of};
use crate::text::{
    ascii_lowercase, contains_text, ends, ends_with, lowered, occurs, replace_char, replaced,
    same_text, split_char, split_on, starts, starts_with, texts,
};
use vstd::prelude::*;

verus! {

/// File name extensions of code.
pub open spec fn code_extension(s: Seq<char>) -> bool {
    ||| s == "asm"@
    ||| s == "astro"@
    ||| s == "bash"@
    ||| s == "c"@
    ||| s == "cc"@
    ||| s == "clj"@
    ||| s == "cljc"@
    ||| s == "cljs"@
    ||| s == "cpp"@
    ||| s == "cs"@
    ||| s == "css"@
    ||| s == "cts"@
    ||| s == "cxx"@
    ||| s == "dart"@
    ||| s == "erl"@
    ||| s == "ex"@
    ||| s == "exs"@
    ||| s == "fish"@
    ||| s == "fs"@
    ||| s == "fsi"@
    ||| s == "fsx"@
    ||| s == "go"@
    ||| s == "gql"@
    ||| s == "graphql"@
    ||| s == "groovy"@
    ||| s == "h"@
    ||| s == "hh"@
    ||| s == "hpp"@
    ||| s == "hrl"@
    ||| s == "hs"@
    ||| s == "htm"@
    ||| s == "html"@
    ||| s == "hxx"@
    ||| s == "java"@
    ||| s == "jl"@
    ||| s == "js"@
    ||| s == "jsx"@
    ||| s == "kt"@
    ||| s == "kts"@
    ||| s == "less"@
    ||| s == "lhs"@
    ||| s == "lua"@
    ||| s == "m"@
    ||| s == "ml"@
    ||| s == "mli"@
    ||| s == "mm"@
    ||| s == "mjs"@
    ||| s == "mts"@
    ||| s == "nim"@
    ||| s == "php"@
    ||| s == "pl"@
    ||| s == "pm"@
    ||| s == "proto"@
    ||| s == "ps1"@
    ||| s == "psm1"@
    ||| s == "py"@
    ||| s == "pyi"@
    ||| s == "pyw"@
    ||| s == "r"@
    ||| s == "raku"@
    ||| s == "rb"@
    ||| s == "rs"@
    ||| s == "s"@
    ||| s == "sass"@
    ||| s == "scala"@
    ||| s == "sc"@
    ||| s == "scss"@
    ||| s == "sh"@
    ||| s == "sol"@
    ||| s == "sql"@
    ||| s == "svelte"@
    ||| s == "swift"@
    ||| s == "ts"@
    ||| s == "tsx"@
    ||| s == "vb"@
    ||| s == "vue"@
    ||| s == "wat"@
    ||| s == "zig"@
    ||| s == "zsh"@
}

fn is_code_extension(s: &str) -> (r: bool)
    ensures
        r == code_extension(s@),
{
    same_text(s, "asm")
        || same_text(s, "astro")
        || same_text(s, "bash")
        || same_text(s, "c")
        || same_text(s, "cc")
        || same_text(s, "clj")
        || same_text(s, "cljc")
        || same_text(s, "cljs")
        || same_text(s, "cpp")
        || same_text(s, "cs")
        || same_text(s, "css")
        || same_text(s, "cts")
        || same_text(s, "cxx")
        || same_text(s, "dart")
        || same_text(s, "erl")
        || same_text(s, "ex")
        || same_text(s, "exs")
        || same_text(s, "fish")
        || same_text(s, "fs")
        || same_text(s, "fsi")
        || same_text(s, "fsx")
        || same_text(s, "go")
        || same_text(s, "gql")
        || same_text(s, "graphql")
        || same_text(s, "groovy")
        || same_text(s, "h")
        || same_text(s, "hh")
        || same_text(s, "hpp")
        || same_text(s, "hrl")
        || same_text(s, "hs")
        || same_text(s, "htm")
        || same_text(s, "html")
        || same_text(s, "hxx")
        || same_text(s, "java")
        || same_text(s, "jl")
        || same_text(s, "js")
        || same_text(s, "jsx")
        || same_text(s, "kt")
        || same_text(s, "kts")
        || same_text(s, "less")
        || same_text(s, "lhs")
        || same_text(s, "lua")
        || same_text(s, "m")
        || same_text(s, "ml")
        || same_text(s, "mli")
        || same_text(s, "mm")
        || same_text(s, "mjs")
        || same_text(s, "mts")
        || same_text(s, "nim")
        || same_text(s, "php")
        || same_text(s, "pl")
        || same_text(s, "pm")
        || same_text(s, "proto")
        || same_text(s, "ps1")
        || same_text(s, "psm1")
        || same_text(s, "py")
        || same_text(s, "pyi")
        || same_text(s, "pyw")
        || same_text(s, "r")
        || same_text(s, "raku")
        || same_text(s, "rb")
        || same_text(s, "rs")
        || same_text(s, "s")
        || same_text(s, "sass")
        || same_text(s, "scala")
        || same_text(s, "sc")
        || same_text(s, "scss")
        || same_text(s, "sh")
        || same_text(s, "sol")
        || same_text(s, "sql")
        || same_text(s, "svelte")
        || same_text(s, "swift")
        || same_text(s, "ts")
        || same_text(s, "tsx")
        || same_text(s, "vb")
        || same_text(s, "vue")
        || same_text(s, "wat")
        || same_text(s, "zig")
        || same_text(s, "zsh")
}

/// Directories that hold no code written by hand.
pub open spec fn excluded_directory(s: Seq<char>) -> bool {
    ||| s == ".git"@
    ||| s == "node_modules"@
    ||| s == "vendor"@
    ||| s == "vendors"@
    ||| s == "dist"@
    ||| s == "build"@
    ||| s == "target"@
    ||| s == ".next"@
    ||| s == ".cache"@
    ||| s == "coverage"@
    ||| s == "generated"@
    ||| s == "__generated__"@
    ||| s == "gen"@
    ||| s == "out"@
    ||| s == ".turbo"@
    ||| s == ".gradle"@
    ||| s == ".dart_tool"@
    ||| s == "pods"@
    ||| s == "deriveddata"@
}

fn is_excluded_directory(s: &str) -> (r: bool)
    ensures
        r == excluded_directory(s@),
{
    same_text(s, ".git")
        || same_text(s, "node_modules")
        || same_text(s, "vendor")
        || same_text(s, "vendors")
        || same_text(s, "dist")
        || same_text(s, "build")
        || same_text(s, "target")
        || same_text(s, ".next")
        || same_text(s, ".cache")
        || same_text(s, "coverage")
        || same_text(s, "generated")
        || same_text(s, "__generated__")
        || same_text(s, "gen")
        || same_text(s, "out")
        || same_text(s, ".turbo")
        || same_text(s, ".gradle")
        || same_text(s, ".dart_tool")
        || same_text(s, "pods")
        || same_text(s, "deriveddata")
}

/// Files that a tool writes.
pub open spec fn lockfile(s: Seq<char>) -> bool {
    ||| s == "cargo.lock"@
    ||| s == "package-lock.json"@
    ||| s == "npm-shrinkwrap.json"@
    ||| s == "pnpm-lock.yaml"@
    ||| s == "yarn.lock"@
    ||| s == "poetry.lock"@
    ||| s == "uv.lock"@
    ||| s == "pipfile.lock"@
    ||| s == "composer.lock"@
    ||| s == "gemfile.lock"@
    ||| s == "go.sum"@
    ||| s == "go.work.sum"@
    ||| s == "bun.lock"@
    ||| s == "bun.lockb"@
    ||| s == "podfile.lock"@
    ||| s == "package.resolved"@
    ||| s == "gradle.lockfile"@
}

fn is_lockfile(s: &str) -> (r: bool)
    ensures
        r == lockfile(s@),
{
    same_text(s, "cargo.lock")
        || same_text(s, "package-lock.json")
        || same_text(s, "npm-shrinkwrap.json")
        || same_text(s, "pnpm-lock.yaml")
        || same_text(s, "yarn.lock")
        || same_text(s, "poetry.lock")
        || same_text(s, "uv.lock")
        || same_text(s, "pipfile.lock")
        || same_text(s, "composer.lock")
        || same_text(s, "gemfile.lock")
        || same_text(s, "go.sum")
        || same_text(s, "go.work.sum")
        || same_text(s, "bun.lock")
        || same_text(s, "bun.lockb")
        || same_text(s, "podfile.lock")
        || same_text(s, "package.resolved")
        || same_text(s, "gradle.lockfile")
}

/// Directories that hold test code.
pub open spec fn test_directory(s: Seq<char>) -> bool {
    ||| s == "test"@
    ||| s == "tests"@
    ||| s == "spec"@
    ||| s == "specs"@
    ||| s == "__tests__"@
    ||| s == "fixtures"@
}

fn is_test_directory(s: &str) -> (r: bool)
    ensures
        r == test_directory(s@),
{
    same_text(s, "test")
        || same_text(s, "tests")
        || same_text(s, "spec")
        || same_text(s, "specs")
        || same_text(s, "__tests__")
        || same_text(s, "fixtures")
}

/// The path with forward separators and small letters.
pub open spec fn normalized_path(path: Seq<char>) -> Seq<char> {
    lowered(replaced(path, '\\', '/'))
}

/// The file name in small letters; empty where the path names no file.
pub open spec fn lowered_file_name(path: Seq<char>) -> Seq<char> {
    match file_name_of(path) {
        Some(f) => lowered(f),
        None => Seq::empty(),
    }
}

/// Whether a part of the path is a directory without code written by hand.
pub open spec fn in_excluded_directory(path: Seq<char>) -> bool {
    exists|i: int|
        0 <= i < split_on(normalized_path(path), '/').len() && excluded_directory(
            #[trigger] split_on(normalized_path(path), '/')[i],
        )
}

pub open spec fn in_test_directory(path: Seq<char>) -> bool {
    exists|i: int|
        0 <= i < split_on(normalized_path(path), '/').len() && test_directory(
            #[trigger] split_on(normalized_path(path), '/')[i],
        )
}

/// Generated, vendored, minified and lock files.
pub open spec fn excluded_spec(path: Seq<char>) -> bool {
    let name = lowered_file_name(path);
    ||| in_excluded_directory(path)
    ||| lockfile(name)
    ||| ends(name, ".min.js"@)
    ||| ends(name, ".min.css"@)
    ||| ends(name, ".map"@)
}

/// File names that mark test code.
pub open spec fn test_name(name: Seq<char>) -> bool {
    ||| occurs(name, ".test."@)
    ||| occurs(name, ".spec."@)
    ||| ends(name, "_test.rs"@)
    ||| ends(name, "_tests.rs"@)
    ||| ends(name, "_test.go"@)
    ||| ends(name, "tests.swift"@)
    ||| starts(name, "test_"@)
    ||| ends(name, "_test.py"@)
}

/// What a path counts as: nothing where it is excluded or no code, else test
/// code where a directory or the name says so, else source code.
pub open spec fn classify_spec(path: Seq<char>) -> Option<CodeCategory> {
    if excluded_spec(path) {
        None
    } else {
        match extension_of(path) {
            Some(e) => if !code_extension(lowered(e)) {
                None
            } else if in_test_directory(path) || test_name(lowered_file_name(path)) {
                Some(CodeCategory::Test)
            } else {
                Some(CodeCategory::Source)
            },
            None => None,
        }
    }
}

fn path_parts(path: &str) -> (r: Vec<String>)
    ensures
        texts(r@) == split_on(normalized_path(path@), '/'),
{
    let forward = replace_char(path, '\\', '/');
    let normalized = ascii_lowercase(forward.as_str());
    split_char(normalized.as_str(), '/')
}

fn small_file_name(path: &str) -> (r: String)
    ensures
        r@ == lowered_file_name(path@),
{
    match file_name(path) {
        Some(name) => ascii_lowercase(name.as_str()),
        None => String::new(),
    }
}

pub fn is_excluded_code_path(path: &str) -> (r: bool)
    ensures
        r == excluded_spec(path@),
{
    let parts = path_parts(path);
    let ghost all = split_on(normalized_path(path@), '/');
    let mut i: usize = 0;
    while i < parts.len()
        invariant
            i <= parts.len(),
            all == split_on(normalized_path(path@), '/'),
            texts(parts@) == all,
            forall|k: int| 0 <= k < i ==> !excluded_directory(#[trigger] all[k]),
        decreases parts.len() - i,
    {
        proof {
            assert(all[i as int] == parts@[i as int]@);
        }
        if is_excluded_directory(parts[i].as_str()) {
            return true;
        }
        i = i + 1;
    }
    proof {
        assert(all.len() == parts@.len());
    }
    let name = small_file_name(path);
    is_lockfile(name.as_str()) || ends_with(name.as_str(), ".min.js") || ends_with(
        name.as_str(),
        ".min.css",
    ) || ends_with(name.as_str(), ".map")
}

fn has_test_directory(path: &str) -> (r: bool)
    ensures
        r == in_test_directory(path@),
{
    let parts = path_parts(path);
    let ghost all = split_on(normalized_path(path@), '/');
    let mut i: usize = 0;
    while i < parts.len()
        invariant
            i <= parts.len(),
            all == split_on(normalized_path(path@), '/'),
            texts(parts@) == all,
            forall|k: int| 0 <= k < i ==> !test_directory(#[trigger] all[k]),
        decreases parts.len() - i,
    {
        proof {
            assert(all[i as int] == parts@[i as int]@);
        }
        if is_test_directory(parts[i].as_str()) {
            return true;
        }
        i = i + 1;
    }
    proof {
        assert(all.len() == parts@.len());
    }
    false
}

fn is_test_name(name: &str) -> (r: bool)
    ensures
        r == test_name(name@),
{
    contains_text(name, ".test.") || contains_text(name, ".spec.") || ends_with(name, "_test.rs")
        || ends_with(name, "_tests.rs") || ends_with(name, "_test.go") || ends_with(
        name,
        "tests.swift",
    ) || starts_with(name, "test_") || ends_with(name, "_test.py")
}

pub fn classify_code_path(path: &str) -> (r: Option<CodeCategory>)
    ensures
        r == classify_spec(path@),
{
    if is_excluded_code_path(path) {
        return None;
    }
    match extension(path) {
        Some(e) => {
            let ext = ascii_lowercase(e.as_str());
            if !is_code_extension(ext.as_str()) {
                return None;
            }
            let name = small_file_name(path);
            if has_test_directory(path) || is_test_name(name.as_str()) {
                Some(CodeCategory::Test)
            } else {
                Some(CodeCategory::Source)
            }
        },
        None => None,
    }
}

/// An excluded path counts as nothing, whatever its extension.
pub proof fn excluded_paths_are_never_code(path: Seq<char>)
    requires
        excluded_spec(path),
    ensures
        classify_spec(path) is None,
{
}

proof fn lemma_parts_lowered(path: Seq<char>)
    ensures
        normalized_path(lowered(path)) == normalized_path(path),
        lowered_file_name(lowered(path)) == lowered_file_name(path),
{
    lemma_replaced_lowered(path, '\\', '/');
    lemma_lowered_twice(replaced(path, '\\', '/'));
    lemma_file_name_lowered(path);
    match file_name_of(path) {
        Some(f) => {
            lemma_lowered_twice(f);
        },
        None => {},
    }
}

proof fn lemma_classify_lowered(path: Seq<char>)
    ensures
        excluded_spec(lowered(path)) == excluded_spec(path),
        classify_spec(lowered(path)) == classify_spec(path),
{
    lemma_parts_lowered(path);
    lemma_extension_lowered(path);
    match extension_of(path) {
        Some(e) => {
            lemma_lowered_twice(e);
        },
        None => {},
    }
}

/// The case of ASCII letters never matters, neither to what is left out nor to
/// what a path counts as.
pub proof fn letter_case_never_matters(a: Seq<char>, b: Seq<char>)
    requires
        lowered(a) == lowered(b),
    ensures
        excluded_spec(a) == excluded_spec(b),
        classify_spec(a) == classify_spec(b),
{
    lemma_classify_lowered(a);
    lemma_classify_lowered(b);
}

/// A path is left out as soon as one whole part of it, in any letter case, names
/// a directory that holds no code written by hand. No other part is left out on
/// its directories' account: one that only contains such a name does not count.
pub proof fn whole_directory_names_are_left_out(path: Seq<char>)
    ensures
        in_excluded_directory(path) <==> exists|i: int|
            0 <= i < split_on(replaced(path, '\\', '/'), '/').len() && excluded_directory(
                lowered(#[trigger] split_on(replaced(path, '\\', '/'), '/')[i]),
            ),
        in_excluded_directory(path) ==> excluded_spec(path),
{
    let s = replaced(path, '\\', '/');
    lemma_split_lowered(s, '/');
    let parts = split_on(s, '/');
    let small = split_on(normalized_path(path), '/');
    assert(small.len() == parts.len());
    assert forall|i: int| 0 <= i < parts.len() implies small[i] == lowered(#[trigger] parts[i]) by {}
    if in_excluded_directory(path) {
        let i = choose|i: int| 0 <= i < small.len() && excluded_directory(#[trigger] small[i]);
        assert(excluded_directory(lowered(parts[i])));
    }
    if exists|i: int| 0 <= i < parts.len() && excluded_directory(lowered(#[trigger] parts[i])) {
        let i = choose|i: int|
            0 <= i < parts.len() && excluded_directory(lowered(#[trigger] parts[i]));
        assert(excluded_directory(small[i]));
    }
}

} // verus!
