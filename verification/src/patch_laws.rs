//! What a patch's lines become.
use crate::classify::classify_spec;
use crate::code_types::{CodeCategory, MutationKind, TraceEdit, TraceEditContext};
use crate::diff::{diff, diff_splits_both_texts, interleaves, kept, unchanged_text_has_no_diff};
use crate::hashing::hash_of;
use crate::patch::{
    Mutation, PatchModel, PatchPathStyle, SectionModel, cleaned_path, finished, line_after,
    patch_step, read_patch, read_upto, records, relative_spec, structured_mutations,
    write_mutations,
};
use crate::text::{clean_lines, starts, texts};
use vstd::prelude::*;

verus! {

/// Whether a line begins the part of a patch that belongs to a file.
pub open spec fn names_a_file(line: Seq<char>, next: Option<Seq<char>>) -> bool {
    ||| starts(line, "*** Add File: "@)
    ||| starts(line, "*** Update File: "@)
    ||| starts(line, "*** Delete File: "@)
    ||| starts(line, "diff --git "@)
    ||| (starts(line, "--- "@) && next is Some && starts(next->0, "+++ "@))
}

/// Whether a line adds a line, where a hunk is open.
pub open spec fn plus_line(line: Seq<char>) -> bool {
    line.len() > 0 && line[0] == '+'
}

/// Whether a line deletes a line, where a hunk is open.
pub open spec fn minus_line(line: Seq<char>) -> bool {
    line.len() > 0 && line[0] == '-'
}

proof fn lemma_starts(line: Seq<char>)
    ensures
        starts(line, "+"@) == plus_line(line),
        starts(line, "-"@) == minus_line(line),
        starts(line, "+++ "@) ==> plus_line(line),
        starts(line, "--- "@) ==> minus_line(line),
        starts(line, "*** Add File: "@) ==> line.len() > 0 && line[0] == '*',
        starts(line, "*** Update File: "@) ==> line.len() > 0 && line[0] == '*',
        starts(line, "*** Delete File: "@) ==> line.len() > 0 && line[0] == '*',
        starts(line, "*** Move to: "@) ==> line.len() > 0 && line[0] == '*',
        starts(line, "*** End Patch"@) ==> line.len() > 0 && line[0] == '*',
        starts(line, "*** End of File"@) ==> line.len() > 0 && line[0] == '*',
        starts(line, "diff --git "@) ==> line.len() > 0 && line[0] == 'd',
        starts(line, "@@"@) ==> line.len() > 0 && line[0] == '@',
        "+"@.len() == 1,
        "-"@.len() == 1,
{
    reveal_strlit("+");
    reveal_strlit("-");
    reveal_strlit("+++ ");
    reveal_strlit("--- ");
    reveal_strlit("*** Add File: ");
    reveal_strlit("*** Update File: ");
    reveal_strlit("*** Delete File: ");
    reveal_strlit("*** Move to: ");
    reveal_strlit("*** End Patch");
    reveal_strlit("*** End of File");
    reveal_strlit("diff --git ");
    reveal_strlit("@@");
    if line.len() > 0 {
        if plus_line(line) {
            assert(line.take(1) =~= "+"@);
        }
        if minus_line(line) {
            assert(line.take(1) =~= "-"@);
        }
        if starts(line, "+"@) {
            assert(line.take(1)[0] == "+"@[0]);
        }
        if starts(line, "-"@) {
            assert(line.take(1)[0] == "-"@[0]);
        }
    }
    if starts(line, "+++ "@) {
        assert(line.take(4)[0] == "+++ "@[0]);
    }
    if starts(line, "--- "@) {
        assert(line.take(4)[0] == "--- "@[0]);
    }
    if starts(line, "*** Add File: "@) {
        assert(line.take("*** Add File: "@.len() as int)[0] == "*** Add File: "@[0]);
    }
    if starts(line, "*** Update File: "@) {
        assert(line.take("*** Update File: "@.len() as int)[0] == "*** Update File: "@[0]);
    }
    if starts(line, "*** Delete File: "@) {
        assert(line.take("*** Delete File: "@.len() as int)[0] == "*** Delete File: "@[0]);
    }
    if starts(line, "*** Move to: "@) {
        assert(line.take("*** Move to: "@.len() as int)[0] == "*** Move to: "@[0]);
    }
    if starts(line, "*** End Patch"@) {
        assert(line.take("*** End Patch"@.len() as int)[0] == "*** End Patch"@[0]);
    }
    if starts(line, "*** End of File"@) {
        assert(line.take("*** End of File"@.len() as int)[0] == "*** End of File"@[0]);
    }
    if starts(line, "diff --git "@) {
        assert(line.take("diff --git "@.len() as int)[0] == "diff --git "@[0]);
    }
    if starts(line, "@@"@) {
        assert(line.take(2)[0] == "@@"@[0]);
    }
}

/// A line that begins no file keeps the edits and the lines read so far. Where a
/// hunk is open, what follows a plus is added and what follows a minus is deleted;
/// nothing else is. A hunk's header opens a hunk, and none of these lines closes
/// one.
pub proof fn a_line_within_a_file_adds_to_what_was_read(
    root: Option<Seq<char>>,
    m: PatchModel,
    line: Seq<char>,
    next: Option<Seq<char>>,
)
    requires
        !names_a_file(line, next),
    ensures
        ({
            let after = patch_step(root, m, line, next);
            &&& after.edits == m.edits
            &&& after.unsupported == m.unsupported
            &&& after.observed == m.observed
            &&& after.next_index == m.next_index
            &&& after.section.index == m.section.index
            &&& after.section.creation == m.section.creation
            &&& after.section.deletion == m.section.deletion
            &&& after.section.additions == if m.in_hunk && plus_line(line) {
                m.section.additions.push(line.skip(1))
            } else {
                m.section.additions
            }
            &&& after.section.deletions == if m.in_hunk && minus_line(line) {
                m.section.deletions.push(line.skip(1))
            } else {
                m.section.deletions
            }
            &&& after.in_hunk == (m.in_hunk || starts(line, "@@"@))
            &&& m.section.saw_hunk || starts(line, "@@"@) ==> after.section.saw_hunk
            &&& after.section.path != m.section.path ==> starts(line, "*** Move to: "@) || (
            !m.in_hunk && starts(line, "+++ "@))
        }),
{
    lemma_starts(line);
}

/// The lines from `a` up to `b` that begin with a sign, without it.
pub open spec fn signed_lines(lines: Seq<Seq<char>>, sign: char, a: int, b: int) -> Seq<Seq<char>>
    decreases b - a,
{
    if b <= a {
        Seq::empty()
    } else {
        let before = signed_lines(lines, sign, a, b - 1);
        let line = lines[b - 1];
        if line.len() > 0 && line[0] == sign {
            before.push(line.skip(1))
        } else {
            before
        }
    }
}

/// From a line at which a hunk is open up to the next file, every line with a plus
/// is added and every line with a minus is deleted, over however many hunks.
pub proof fn all_hunks_of_a_file_count(
    root: Option<Seq<char>>,
    lines: Seq<Seq<char>>,
    a: int,
    b: int,
)
    requires
        0 <= a <= b <= lines.len(),
        read_upto(root, lines, a).in_hunk,
        forall|i: int| a <= i < b ==> !names_a_file(#[trigger] lines[i], line_after(lines, i)),
    ensures
        ({
            let from = read_upto(root, lines, a);
            let to = read_upto(root, lines, b);
            &&& to.in_hunk
            &&& to.edits == from.edits
            &&& to.section.additions == from.section.additions + signed_lines(lines, '+', a, b)
            &&& to.section.deletions == from.section.deletions + signed_lines(lines, '-', a, b)
        }),
    decreases b - a,
{
    if a < b {
        all_hunks_of_a_file_count(root, lines, a, b - 1);
        let before = read_upto(root, lines, b - 1);
        let line = lines[b - 1];
        assert(!names_a_file(line, line_after(lines, b - 1)));
        a_line_within_a_file_adds_to_what_was_read(root, before, line, line_after(lines, b - 1));
        let from = read_upto(root, lines, a);
        let to = read_upto(root, lines, b);
        assert(to.section.additions =~= from.section.additions + signed_lines(lines, '+', a, b));
        assert(to.section.deletions =~= from.section.deletions + signed_lines(lines, '-', a, b));
    } else {
        let from = read_upto(root, lines, a);
        assert(from.section.additions + Seq::empty() =~= from.section.additions);
        assert(from.section.deletions + Seq::empty() =~= from.section.deletions);
    }
}

/// Whether what was read of a file becomes an edit: the file is named and is code,
/// a hunk was seen, and a file that is deleted shows the lines that it had.
pub open spec fn becomes_an_edit(root: Option<Seq<char>>, s: SectionModel) -> bool {
    &&& s.path is Some
    &&& classify_spec(relative_spec(root, s.path->0)) is Some
    &&& s.saw_hunk
    &&& s.deletion ==> s.deletions.len() > 0
}

/// Whether `e` is the edit of what was read of a file, with all its lines.
pub open spec fn edit_of(root: Option<Seq<char>>, s: SectionModel, e: Mutation) -> bool {
    &&& s.path is Some
    &&& e.path == relative_spec(root, s.path->0)
    &&& classify_spec(e.path) == Some(e.category)
    &&& e.additions == s.additions
    &&& e.deletions == s.deletions
    &&& e.index == s.index
    &&& e.written == 0
    &&& e.kind == if s.creation {
        MutationKind::FileCreation
    } else {
        MutationKind::UnifiedPatch
    }
}

/// The end of a file's part adds one edit with all the lines that were read of
/// it, or none; a part that yields none is unsupported exactly where it is code
/// without a hunk or a deletion without lines, or has a hunk and no name.
pub proof fn the_end_of_a_file_makes_its_edit(root: Option<Seq<char>>, m: PatchModel)
    ensures
        ({
            let after = finished(root, m);
            let s = m.section;
            let code = s.path is Some && classify_spec(relative_spec(root, s.path->0)) is Some;
            &&& becomes_an_edit(root, s) ==> after.edits.len() == m.edits.len() + 1
                && after.edits.drop_last() == m.edits && edit_of(root, s, after.edits.last())
            &&& !becomes_an_edit(root, s) ==> after.edits == m.edits
            &&& m.unsupported < u64::MAX ==> (after.unsupported == m.unsupported + if (code
                && !becomes_an_edit(root, s)) || (s.path is None && s.saw_hunk) {
                1int
            } else {
                0
            })
            &&& m.observed < u64::MAX ==> (after.observed == m.observed + if becomes_an_edit(root, s)
                || (s.path is Some && !code) {
                1int
            } else {
                0
            })
        }),
{
    let after = finished(root, m);
    if becomes_an_edit(root, m.section) {
        assert(after.edits.drop_last() =~= m.edits);
    }
}

/// The last file of a patch yields an edit with the lines of all its hunks.
pub proof fn the_last_file_of_a_patch_has_all_its_lines(
    root: Option<Seq<char>>,
    patch: Seq<char>,
    a: int,
)
    requires
        ({
            let lines = clean_lines(patch);
            &&& 0 <= a <= lines.len()
            &&& read_upto(root, lines, a).in_hunk
            &&& forall|i: int|
                a <= i < lines.len() ==> !names_a_file(#[trigger] lines[i], line_after(lines, i))
            &&& becomes_an_edit(root, read_upto(root, lines, lines.len() as int).section)
        }),
    ensures
        ({
            let lines = clean_lines(patch);
            let n = lines.len() as int;
            let from = read_upto(root, lines, a);
            let edits = read_patch(root, patch).edits;
            &&& edits.len() == from.edits.len() + 1
            &&& edits.last().additions == from.section.additions + signed_lines(lines, '+', a, n)
            &&& edits.last().deletions == from.section.deletions + signed_lines(lines, '-', a, n)
        }),
{
    let lines = clean_lines(patch);
    let n = lines.len() as int;
    all_hunks_of_a_file_count(root, lines, a, n);
    the_end_of_a_file_makes_its_edit(root, read_upto(root, lines, n));
}

/// A line that begins a file ends the part before it and starts afresh: what was
/// read becomes its edit, and nothing of it is left to the new file. The name is
/// what follows the prefix.
pub proof fn a_file_line_ends_the_file_before_it(
    root: Option<Seq<char>>,
    m: PatchModel,
    line: Seq<char>,
    next: Option<Seq<char>>,
)
    requires
        names_a_file(line, next),
        starts(line, "--- "@) ==> m.section.saw_hunk,
    ensures
        ({
            let after = patch_step(root, m, line, next);
            &&& after.edits == finished(root, m).edits
            &&& after.unsupported == finished(root, m).unsupported
            &&& after.observed == finished(root, m).observed
            &&& after.section.additions.len() == 0
            &&& after.section.deletions.len() == 0
            &&& after.section.index == m.next_index
            &&& m.next_index < usize::MAX ==> after.next_index == m.next_index + 1
            &&& starts(line, "*** Add File: "@) ==> after.in_hunk && after.section.creation
                && after.section.saw_hunk && after.section.path == cleaned_path(
                line.skip("*** Add File: "@.len() as int),
                PatchPathStyle::Literal,
            )
            &&& starts(line, "*** Update File: "@) ==> !after.in_hunk && !after.section.creation
                && !after.section.deletion && after.section.path == cleaned_path(
                line.skip("*** Update File: "@.len() as int),
                PatchPathStyle::Literal,
            )
            &&& starts(line, "*** Delete File: "@) ==> after.in_hunk && after.section.deletion
                && after.section.path == cleaned_path(
                line.skip("*** Delete File: "@.len() as int),
                PatchPathStyle::Literal,
            )
        }),
{
    lemma_starts(line);
    lemma_apart(line);
}

/// The three kinds of file lines are told apart by their fifth character.
proof fn lemma_apart(line: Seq<char>)
    ensures
        starts(line, "*** Add File: "@) ==> !starts(line, "*** Update File: "@) && !starts(
            line,
            "*** Delete File: "@,
        ) && !starts(line, "--- "@),
        starts(line, "*** Update File: "@) ==> !starts(line, "*** Delete File: "@) && !starts(
            line,
            "--- "@,
        ),
        starts(line, "*** Delete File: "@) ==> !starts(line, "--- "@),
{
    reveal_strlit("*** Add File: ");
    reveal_strlit("*** Update File: ");
    reveal_strlit("*** Delete File: ");
    reveal_strlit("--- ");
    if starts(line, "*** Add File: "@) {
        assert(line.take("*** Add File: "@.len() as int)[4] == "*** Add File: "@[4]);
        assert(line.take("*** Add File: "@.len() as int)[0] == "*** Add File: "@[0]);
    }
    if starts(line, "*** Update File: "@) {
        assert(line.take("*** Update File: "@.len() as int)[4] == "*** Update File: "@[4]);
        assert(line.take("*** Update File: "@.len() as int)[0] == "*** Update File: "@[0]);
    }
    if starts(line, "*** Delete File: "@) {
        assert(line.take("*** Delete File: "@.len() as int)[4] == "*** Delete File: "@[4]);
        assert(line.take("*** Delete File: "@.len() as int)[0] == "*** Delete File: "@[0]);
    }
    if starts(line, "--- "@) {
        assert(line.take(4)[0] == "--- "@[0]);
    }
}

/// An edit's counts are the numbers of its lines, in the columns of its category,
/// and its fingerprints are the hashes of its lines, in order.
pub proof fn an_edit_counts_its_lines(e: TraceEdit, c: TraceEditContext<'_>, m: Mutation)
    requires
        records(e, c, m),
        m.additions.len() <= u64::MAX,
        m.deletions.len() <= u64::MAX,
    ensures
        m.category == CodeCategory::Source ==> e.counts.source_additions == m.additions.len()
            && e.counts.source_deletions == m.deletions.len() && e.counts.test_additions == 0
            && e.counts.test_deletions == 0,
        m.category == CodeCategory::Test ==> e.counts.test_additions == m.additions.len()
            && e.counts.test_deletions == m.deletions.len() && e.counts.source_additions == 0
            && e.counts.source_deletions == 0,
        e.counts.unclassified_lines_written == m.written,
        e.relative_path@ == m.path,
        e.added_line_fingerprints@.len() == m.additions.len(),
        e.deleted_line_fingerprints@.len() == m.deletions.len(),
        forall|i: int|
            0 <= i < m.additions.len() ==> (#[trigger] e.added_line_fingerprints@[i])@ == hash_of(
                m.additions[i],
            ),
        forall|i: int|
            0 <= i < m.deletions.len() ==> (#[trigger] e.deleted_line_fingerprints@[i])@ == hash_of(
                m.deletions[i],
            ),
{
    let a = texts(e.added_line_fingerprints@);
    let d = texts(e.deleted_line_fingerprints@);
    assert(a.len() == e.added_line_fingerprints@.len());
    assert(d.len() == e.deleted_line_fingerprints@.len());
    assert forall|i: int| 0 <= i < m.additions.len() implies (
    #[trigger] e.added_line_fingerprints@[i])@ == hash_of(m.additions[i]) by {
        assert(a[i] == e.added_line_fingerprints@[i]@);
    }
    assert forall|i: int| 0 <= i < m.deletions.len() implies (
    #[trigger] e.deleted_line_fingerprints@[i])@ == hash_of(m.deletions[i]) by {
        assert(d[i] == e.deleted_line_fingerprints@[i]@);
    }
}

/// A replacement in a code file makes one edit: the new text is the added lines
/// and what was kept, and the old text the deleted lines and what was kept. A file
/// that is no code makes none.
pub proof fn a_replacement_makes_one_edit(
    path: Seq<char>,
    old_text: Seq<char>,
    new_text: Seq<char>,
    index: usize,
)
    ensures
        ({
            let m = structured_mutations(path, old_text, new_text, index);
            let old = clean_lines(old_text);
            let new = clean_lines(new_text);
            &&& classify_spec(path) is None ==> m.len() == 0
            &&& classify_spec(path) is Some ==> m.len() == 1 && m[0].path == path && Some(
                m[0].category,
            ) == classify_spec(path) && m[0].index == index && m[0].written == 0
            &&& classify_spec(path) is Some ==> exists|kept: Seq<Seq<char>>| #[trigger]
                interleaves(new, m[0].additions, kept) && interleaves(old, m[0].deletions, kept)
            &&& classify_spec(path) is Some ==> m[0].additions.len() + old.len()
                == m[0].deletions.len() + new.len()
            &&& classify_spec(path) is Some && old_text == new_text ==> m[0].additions.len() == 0
                && m[0].deletions.len() == 0
        }),
{
    let old = clean_lines(old_text);
    let new = clean_lines(new_text);
    diff_splits_both_texts(old, new);
    let m = structured_mutations(path, old_text, new_text, index);
    let k = kept(old, new);
    if classify_spec(path) is Some {
        assert(m[0].additions == diff(old, new).0);
        assert(m[0].deletions == diff(old, new).1);
        assert(interleaves(new, m[0].additions, k) && interleaves(old, m[0].deletions, k));
    }
    unchanged_text_has_no_diff(old);
}

/// Writing a whole code file makes one edit: of a new file every line is added;
/// of any other the lines are only counted as written.
pub proof fn a_written_file_makes_one_edit(path: Seq<char>, content: Seq<char>, creation: bool)
    requires
        clean_lines(content).len() <= u64::MAX,
    ensures
        ({
            let m = write_mutations(path, content, creation);
            let lines = clean_lines(content);
            &&& classify_spec(path) is None ==> m.len() == 0
            &&& classify_spec(path) is Some ==> m.len() == 1 && m[0].path == path && Some(
                m[0].category,
            ) == classify_spec(path) && m[0].deletions.len() == 0 && m[0].additions.len()
                + m[0].written == lines.len()
            &&& classify_spec(path) is Some && creation ==> m[0].additions == lines && m[0].kind
                == MutationKind::FileCreation
            &&& classify_spec(path) is Some && !creation ==> m[0].additions.len() == 0 && m[0].kind
                == MutationKind::FileWrite
        }),
{
}

} // verus!
