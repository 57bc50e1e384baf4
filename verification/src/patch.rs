//! Turns a recorded agent edit into counted lines.
use crate::classify::{classify_code_path, classify_spec};
use crate::code_types::{
    CodeCategory, CodeLineCounts, CoverageStatus, MutationKind, ParsedMutation,
    TRACE_EDIT_SCHEMA_VERSION, TraceEdit, TraceEditContext, sat_add,
};
use crate::diff::{changed_lines, diff};
use crate::hashing::{hash_of, hash_text};
use crate::ids::{keyed_id, make_id, strs};
use crate::paths::{components, is_rooted, lemma_spans, rooted, spans, strip_base, without_base};
use crate::text::{
    after_prefix, clean_lines, concat3, decimal, decimal_text, join, joined, opt_str, opt_text,
    same_text, split_lines, split_words, starts, starts_with, strip_prefix, texts, trim,
    trim_back_char, trim_end_char, trim_front_char, trim_front_text, trim_start_char,
    trim_start_text, trimmed, words_of,
};
use vstd::prelude::*;

verus! {

// ---------------------------------------------------------------------------
// Model
// ---------------------------------------------------------------------------

/// What one edit does to one file.
#[verifier::ext_equal]
pub struct Mutation {
    pub path: Seq<char>,
    pub category: CodeCategory,
    pub kind: MutationKind,
    /// The place of the file's section in the patch.
    pub index: usize,
    pub additions: Seq<Seq<char>>,
    pub deletions: Seq<Seq<char>>,
    pub written: u64,
}

/// The part of a patch that belongs to one file, as far as it was read.
#[verifier::ext_equal]
pub struct SectionModel {
    pub index: usize,
    pub path: Option<Seq<char>>,
    pub creation: bool,
    pub deletion: bool,
    pub additions: Seq<Seq<char>>,
    pub deletions: Seq<Seq<char>>,
    pub saw_hunk: bool,
}

/// A patch as far as it was read.
#[verifier::ext_equal]
pub struct PatchModel {
    pub edits: Seq<Mutation>,
    pub unsupported: u64,
    pub observed: u64,
    pub section: SectionModel,
    pub next_index: usize,
    pub in_hunk: bool,
}

/// What a line of a patch says.
pub enum PatchLine {
    /// `*** Add File: `
    AddFile(Seq<char>),
    /// `*** Update File: `
    UpdateFile(Seq<char>),
    /// `*** Delete File: `
    DeleteFile(Seq<char>),
    /// `*** Move to: `
    MoveTo(Seq<char>),
    /// `diff --git `, with what follows it
    GitHeader(Seq<char>),
    /// `--- ` with `+++ ` on the next line
    FilePair,
    /// `+++ ` outside a hunk
    Destination(Seq<char>),
    /// `@@`
    Hunk,
    /// `*** End Patch` or `*** End of File`
    End,
    /// `+` in a hunk
    Added(Seq<char>),
    /// `-` in a hunk
    Deleted(Seq<char>),
    Other,
}

#[derive(Debug, Clone, Copy, PartialEq, Eq, Structural)]
pub enum PatchPathStyle {
    /// The path stands as it is.
    Literal,
    /// Git's destination side, with the prefix `b/`.
    GitDestination,
    /// Git's source side, with the prefix `a/`.
    GitSource,
}

/// The text after a prefix that it is known to start with.
pub open spec fn rest_of(line: Seq<char>, prefix: Seq<char>) -> Seq<char> {
    line.skip(prefix.len() as int)
}

pub open spec fn file_pair(line: Seq<char>, next: Option<Seq<char>>) -> bool {
    starts(line, "--- "@) && (next matches Some(n) && starts(n, "+++ "@))
}

/// What a line says, given the line after it and whether a hunk is open.
pub open spec fn patch_line(line: Seq<char>, next: Option<Seq<char>>, in_hunk: bool) -> PatchLine {
    if starts(line, "*** Add File: "@) {
        PatchLine::AddFile(rest_of(line, "*** Add File: "@))
    } else if starts(line, "*** Update File: "@) {
        PatchLine::UpdateFile(rest_of(line, "*** Update File: "@))
    } else if starts(line, "*** Delete File: "@) {
        PatchLine::DeleteFile(rest_of(line, "*** Delete File: "@))
    } else if starts(line, "*** Move to: "@) {
        PatchLine::MoveTo(rest_of(line, "*** Move to: "@))
    } else if starts(line, "diff --git "@) {
        PatchLine::GitHeader(rest_of(line, "diff --git "@))
    } else if file_pair(line, next) {
        PatchLine::FilePair
    } else if !in_hunk && starts(line, "+++ "@) {
        PatchLine::Destination(rest_of(line, "+++ "@))
    } else if starts(line, "@@"@) {
        PatchLine::Hunk
    } else if starts(line, "*** End Patch"@) || starts(line, "*** End of File"@) {
        PatchLine::End
    } else if in_hunk && starts(line, "+"@) {
        PatchLine::Added(rest_of(line, "+"@))
    } else if in_hunk && starts(line, "-"@) {
        PatchLine::Deleted(rest_of(line, "-"@))
    } else {
        PatchLine::Other
    }
}

/// The text without white space, then without quotes, at either end.
pub open spec fn unquoted(value: Seq<char>) -> Seq<char> {
    trim_back_char(trim_front_char(trimmed(value), '"'), '"')
}

pub open spec fn or_whole(rest: Option<Seq<char>>, whole: Seq<char>) -> Seq<char> {
    match rest {
        Some(r) => r,
        None => whole,
    }
}

/// The path that a header names. Only Git's own prefix comes off.
pub open spec fn cleaned_path(value: Seq<char>, style: PatchPathStyle) -> Option<Seq<char>> {
    let v = unquoted(value);
    if v.len() == 0 || v == "/dev/null"@ {
        None
    } else {
        match style {
            PatchPathStyle::Literal => Some(v),
            PatchPathStyle::GitDestination => Some(or_whole(after_prefix(v, "b/"@), v)),
            PatchPathStyle::GitSource => Some(or_whole(after_prefix(v, "a/"@), v)),
        }
    }
}

/// A path made relative to the repository that holds it. A path that is already
/// relative, or lies elsewhere, stays.
pub open spec fn relative_spec(root: Option<Seq<char>>, path: Seq<char>) -> Seq<char> {
    if !rooted(path) {
        path
    } else {
        match root {
            Some(r) => or_whole(without_base(path, r), path),
            None => path,
        }
    }
}

pub open spec fn new_section(index: usize) -> SectionModel {
    SectionModel {
        index,
        path: None,
        creation: false,
        deletion: false,
        additions: Seq::empty(),
        deletions: Seq::empty(),
        saw_hunk: false,
    }
}

pub open spec fn next_usize(n: usize) -> usize {
    if n == usize::MAX {
        n
    } else {
        (n + 1) as usize
    }
}

/// The patch once its current section is complete. A section without a path is
/// dropped, and counts as unsupported where it has a hunk. A file that is no
/// code is observed and yields no edit. Code without a hunk, or deleted without
/// its lines, is unsupported.
pub open spec fn finished(root: Option<Seq<char>>, m: PatchModel) -> PatchModel {
    let s = m.section;
    let done = PatchModel { section: new_section(0), ..m };
    match s.path {
        None => if s.saw_hunk {
            PatchModel { unsupported: sat_add(m.unsupported, 1), ..done }
        } else {
            done
        },
        Some(p) => {
            let path = relative_spec(root, p);
            match classify_spec(path) {
                None => PatchModel { observed: sat_add(m.observed, 1), ..done },
                Some(category) => if !s.saw_hunk || (s.deletion && s.deletions.len() == 0) {
                    PatchModel { unsupported: sat_add(m.unsupported, 1), ..done }
                } else {
                    PatchModel {
                        observed: sat_add(m.observed, 1),
                        edits: m.edits.push(
                            Mutation {
                                path,
                                category,
                                kind: if s.creation {
                                    MutationKind::FileCreation
                                } else {
                                    MutationKind::UnifiedPatch
                                },
                                index: s.index,
                                additions: s.additions,
                                deletions: s.deletions,
                                written: 0,
                            },
                        ),
                        ..done
                    }
                },
            }
        },
    }
}

/// The patch with its current section complete and a new one begun.
pub open spec fn begun(root: Option<Seq<char>>, m: PatchModel) -> PatchModel {
    let done = finished(root, m);
    PatchModel {
        section: new_section(m.next_index),
        next_index: next_usize(m.next_index),
        ..done
    }
}

/// The patch after one more line.
pub open spec fn patch_step(
    root: Option<Seq<char>>,
    m: PatchModel,
    line: Seq<char>,
    next: Option<Seq<char>>,
) -> PatchModel {
    match patch_line(line, next, m.in_hunk) {
        PatchLine::AddFile(p) => {
            let b = begun(root, m);
            PatchModel {
                section: SectionModel {
                    path: cleaned_path(p, PatchPathStyle::Literal),
                    creation: true,
                    saw_hunk: true,
                    ..b.section
                },
                in_hunk: true,
                ..b
            }
        },
        PatchLine::UpdateFile(p) => {
            let b = begun(root, m);
            PatchModel {
                section: SectionModel {
                    path: cleaned_path(p, PatchPathStyle::Literal),
                    ..b.section
                },
                in_hunk: false,
                ..b
            }
        },
        PatchLine::DeleteFile(p) => {
            let b = begun(root, m);
            PatchModel {
                section: SectionModel {
                    path: cleaned_path(p, PatchPathStyle::Literal),
                    deletion: true,
                    ..b.section
                },
                in_hunk: true,
                ..b
            }
        },
        PatchLine::MoveTo(p) => PatchModel {
            section: SectionModel { path: cleaned_path(p, PatchPathStyle::Literal), ..m.section },
            ..m
        },
        PatchLine::GitHeader(rest) => {
            let b = begun(root, m);
            let w = words_of(rest);
            PatchModel {
                section: SectionModel {
                    path: if w.len() > 1 {
                        cleaned_path(w[1], PatchPathStyle::GitDestination)
                    } else {
                        None
                    },
                    ..b.section
                },
                in_hunk: false,
                ..b
            }
        },
        PatchLine::FilePair => {
            let b = if m.section.saw_hunk {
                begun(root, m)
            } else {
                m
            };
            let section = if line == "--- /dev/null"@ {
                SectionModel { creation: true, ..b.section }
            } else if next == Some("+++ /dev/null"@) {
                SectionModel {
                    path: cleaned_path(
                        trim_front_text(line, "--- "@),
                        PatchPathStyle::GitSource,
                    ),
                    deletion: true,
                    ..b.section
                }
            } else {
                b.section
            };
            PatchModel { section, in_hunk: false, ..b }
        },
        PatchLine::Destination(p) => if p != "/dev/null"@ {
            PatchModel {
                section: SectionModel {
                    path: cleaned_path(p, PatchPathStyle::GitDestination),
                    ..m.section
                },
                ..m
            }
        } else {
            m
        },
        PatchLine::Hunk => PatchModel {
            section: SectionModel { saw_hunk: true, ..m.section },
            in_hunk: true,
            ..m
        },
        PatchLine::Added(text) => PatchModel {
            section: SectionModel { additions: m.section.additions.push(text), ..m.section },
            ..m
        },
        PatchLine::Deleted(text) => PatchModel {
            section: SectionModel {
                deletions: m.section.deletions.push(text),
                saw_hunk: m.section.saw_hunk || m.section.deletion,
                ..m.section
            },
            ..m
        },
        PatchLine::End => m,
        PatchLine::Other => m,
    }
}

pub open spec fn line_after(lines: Seq<Seq<char>>, i: int) -> Option<Seq<char>> {
    if 0 <= i && i + 1 < lines.len() {
        Some(lines[i + 1])
    } else {
        None
    }
}

/// The patch after its first `n` lines.
pub open spec fn read_upto(root: Option<Seq<char>>, lines: Seq<Seq<char>>, n: int) -> PatchModel
    decreases n,
{
    if n <= 0 {
        PatchModel {
            edits: Seq::empty(),
            unsupported: 0,
            observed: 0,
            section: new_section(0),
            next_index: 0,
            in_hunk: false,
        }
    } else {
        patch_step(root, read_upto(root, lines, n - 1), lines[n - 1], line_after(lines, n - 1))
    }
}

/// The whole patch.
pub open spec fn read_patch(root: Option<Seq<char>>, patch: Seq<char>) -> PatchModel {
    let lines = clean_lines(patch);
    finished(root, read_upto(root, lines, lines.len() as int))
}

/// What the sections that were read say about how much of the patch is known.
pub open spec fn patch_coverage(m: PatchModel) -> CoverageStatus {
    if m.observed == 0 {
        CoverageStatus::Unavailable
    } else if m.unsupported == 0 {
        CoverageStatus::Complete
    } else {
        CoverageStatus::Partial
    }
}

/// The hashes of the lines, in order.
pub open spec fn fingerprints(lines: Seq<Seq<char>>) -> Seq<Seq<char>> {
    lines.map_values(|l: Seq<char>| hash_of(l))
}

/// A list of hashes as it stands in an edit's key: quoted, with a comma and a
/// space between each two, in square brackets.
pub open spec fn listed(items: Seq<Seq<char>>) -> Seq<char> {
    "["@ + joined(items.map_values(|t: Seq<char>| "\""@ + t + "\""@), ", "@) + "]"@
}

/// The key that an edit's identifier is derived from.
pub open spec fn edit_key(c: TraceEditContext<'_>, m: Mutation) -> Seq<Seq<char>> {
    seq![
        c.provider@,
        c.source_id.0@,
        c.conversation_id@,
        c.source_record_id@,
        m.path,
        decimal(m.index as nat),
        listed(fingerprints(m.additions)),
        listed(fingerprints(m.deletions)),
    ]
}

pub open spec fn project_id_of(c: TraceEditContext<'_>) -> Option<Seq<char>> {
    match c.project {
        Some(p) => Some(p.project_id@),
        None => None,
    }
}

/// Whether `e` records the mutation `m` made in the context `c`.
pub open spec fn records(e: TraceEdit, c: TraceEditContext<'_>, m: Mutation) -> bool {
    &&& e.schema_version@ == TRACE_EDIT_SCHEMA_VERSION@
    &&& e.trace_edit_id@ == keyed_id("edit_"@, edit_key(c, m), 24)
    &&& e.provider@ == c.provider@
    &&& e.source_id.0@ == c.source_id.0@
    &&& e.cache_key@ == c.cache_key@
    &&& e.conversation_id@ == c.conversation_id@
    &&& e.source_record_id@ == c.source_record_id@
    &&& e.occurred_at == c.occurred_at
    &&& opt_text(e.project_id) == project_id_of(c)
    &&& opt_text(e.repository_path) == opt_str(c.repository_path)
    &&& e.relative_path@ == m.path
    &&& e.category == m.category
    &&& e.mutation_kind == m.kind
    &&& e.counts == (CodeLineCounts {
        unclassified_lines_written: m.written,
        ..CodeLineCounts::classified_spec(
            m.category,
            m.additions.len() as u64,
            m.deletions.len() as u64,
        )
    })
    &&& texts(e.added_line_fingerprints@) == fingerprints(m.additions)
    &&& texts(e.deleted_line_fingerprints@) == fingerprints(m.deletions)
}

pub open spec fn records_all(e: Seq<TraceEdit>, c: TraceEditContext<'_>, m: Seq<Mutation>) -> bool {
    &&& e.len() == m.len()
    &&& forall|i: int| 0 <= i < e.len() ==> records(#[trigger] e[i], c, m[i])
}

// ---------------------------------------------------------------------------
// Building edits
// ---------------------------------------------------------------------------

fn line_fingerprints(lines: &[String]) -> (r: Vec<String>)
    ensures
        texts(r@) == fingerprints(texts(lines@)),
{
    let mut out: Vec<String> = Vec::new();
    let mut i: usize = 0;
    while i < lines.len()
        invariant
            i <= lines.len(),
            out.len() == i,
            forall|k: int| 0 <= k < i ==> (#[trigger] out@[k])@ == hash_of(lines@[k]@),
        decreases lines.len() - i,
    {
        out.push(hash_text(lines[i].as_str()));
        i = i + 1;
    }
    proof {
        assert(texts(out@) =~= fingerprints(texts(lines@)));
    }
    out
}

fn list_text(items: &[String]) -> (r: String)
    ensures
        r@ == listed(texts(items@)),
{
    let mut quoted: Vec<String> = Vec::new();
    let mut i: usize = 0;
    while i < items.len()
        invariant
            i <= items.len(),
            quoted.len() == i,
            forall|k: int|
                0 <= k < i ==> (#[trigger] quoted@[k])@ == "\""@ + items@[k]@ + "\""@,
        decreases items.len() - i,
    {
        quoted.push(concat3("\"", items[i].as_str(), "\""));
        i = i + 1;
    }
    proof {
        assert(texts(quoted@) =~= texts(items@).map_values(|t: Seq<char>| "\""@ + t + "\""@));
    }
    let inner = join(&quoted, ", ");
    concat3("[", inner.as_str(), "]")
}

/// What one edit does to one file.
struct TraceEditMutation<'a> {
    category: CodeCategory,
    kind: MutationKind,
    section_index: usize,
    additions: &'a [String],
    deletions: &'a [String],
    lines_written: u64,
}

spec fn mutation_model(path: Seq<char>, m: TraceEditMutation<'_>) -> Mutation {
    Mutation {
        path,
        category: m.category,
        kind: m.kind,
        index: m.section_index,
        additions: texts(m.additions@),
        deletions: texts(m.deletions@),
        written: m.lines_written,
    }
}

fn copy_str_opt(o: Option<&str>) -> (r: Option<String>)
    ensures
        opt_text(r) == opt_str(o),
{
    match o {
        Some(s) => Some(s.to_owned()),
        None => None,
    }
}

fn build_trace_edit(
    context: &TraceEditContext<'_>,
    relative_path: String,
    mutation: TraceEditMutation<'_>,
) -> (r: TraceEdit)
    ensures
        records(r, *context, mutation_model(relative_path@, mutation)),
{
    let added_line_fingerprints = line_fingerprints(mutation.additions);
    let deleted_line_fingerprints = line_fingerprints(mutation.deletions);
    let mut counts = CodeLineCounts::classified(
        mutation.category,
        mutation.additions.len() as u64,
        mutation.deletions.len() as u64,
    );
    counts.unclassified_lines_written = mutation.lines_written;
    let index = decimal_text(mutation.section_index as u64);
    let added = list_text(&added_line_fingerprints);
    let deleted = list_text(&deleted_line_fingerprints);
    let parts: [&str; 8] = [
        context.provider,
        context.source_id.0.as_str(),
        context.conversation_id,
        context.source_record_id,
        relative_path.as_str(),
        index.as_str(),
        added.as_str(),
        deleted.as_str(),
    ];
    proof {
        assert(strs(parts@) =~= edit_key(*context, mutation_model(relative_path@, mutation)));
    }
    let trace_edit_id = make_id("edit_", &parts, 24);
    let project_id = match context.project {
        Some(p) => Some(p.project_id.clone()),
        None => None,
    };
    TraceEdit {
        schema_version: TRACE_EDIT_SCHEMA_VERSION.to_owned(),
        trace_edit_id,
        provider: context.provider.to_owned(),
        source_id: context.source_id.clone(),
        cache_key: context.cache_key.to_owned(),
        conversation_id: context.conversation_id.to_owned(),
        source_record_id: context.source_record_id.to_owned(),
        occurred_at: context.occurred_at,
        project_id,
        repository_path: copy_str_opt(context.repository_path),
        relative_path,
        category: mutation.category,
        mutation_kind: mutation.kind,
        counts,
        added_line_fingerprints,
        deleted_line_fingerprints,
    }
}

// ---------------------------------------------------------------------------
// Reading patches
// ---------------------------------------------------------------------------

fn clean_patch_path(value: &str, style: PatchPathStyle) -> (r: Option<String>)
    ensures
        opt_text(r) == cleaned_path(value@, style),
{
    let inner = trim(value);
    let front = trim_start_char(inner.as_str(), '"');
    let v = trim_end_char(front.as_str(), '"');
    if v.as_str().is_empty() || same_text(v.as_str(), "/dev/null") {
        return None;
    }
    match style {
        PatchPathStyle::Literal => Some(v),
        PatchPathStyle::GitDestination => match strip_prefix(v.as_str(), "b/") {
            Some(rest) => Some(rest),
            None => Some(v),
        },
        PatchPathStyle::GitSource => match strip_prefix(v.as_str(), "a/") {
            Some(rest) => Some(rest),
            None => Some(v),
        },
    }
}

/// A path made relative to the repository that holds it. An already relative
/// path is never made shorter a second time.
pub fn repository_relative_path(repository_path: Option<&str>, path: String) -> (r: String)
    ensures
        r@ == relative_spec(opt_str(repository_path), path@),
        !rooted(path@) ==> r@ == path@,
{
    if !is_rooted(path.as_str()) {
        return path;
    }
    match repository_path {
        Some(root) => match strip_base(path.as_str(), root) {
            Some(rest) => rest,
            None => path,
        },
        None => path,
    }
}

struct Section {
    index: usize,
    path: Option<String>,
    creation: bool,
    deletion: bool,
    additions: Vec<String>,
    deletions: Vec<String>,
    saw_hunk: bool,
}

impl Section {
    spec fn model(self) -> SectionModel {
        SectionModel {
            index: self.index,
            path: opt_text(self.path),
            creation: self.creation,
            deletion: self.deletion,
            additions: texts(self.additions@),
            deletions: texts(self.deletions@),
            saw_hunk: self.saw_hunk,
        }
    }

    fn new(index: usize) -> (r: Section)
        ensures
            r.model() == new_section(index),
    {
        let r = Section {
            index,
            path: None,
            creation: false,
            deletion: false,
            additions: Vec::new(),
            deletions: Vec::new(),
            saw_hunk: false,
        };
        proof {
            assert(texts(r.additions@) =~= Seq::empty());
            assert(texts(r.deletions@) =~= Seq::empty());
        }
        r
    }
}

struct PatchReader {
    edits: Vec<TraceEdit>,
    unsupported: u64,
    observed: u64,
    section: Section,
    next_index: usize,
    in_hunk: bool,
}

impl PatchReader {
    /// Whether the reader holds the patch `m`.
    spec fn holds(self, c: TraceEditContext<'_>, m: PatchModel) -> bool {
        &&& records_all(self.edits@, c, m.edits)
        &&& self.unsupported == m.unsupported
        &&& self.observed == m.observed
        &&& self.section.model() == m.section
        &&& self.next_index == m.next_index
        &&& self.in_hunk == m.in_hunk
    }

    fn finish_section(self, context: &TraceEditContext<'_>, Ghost(m): Ghost<PatchModel>) -> (r: Self)
        requires
            self.holds(*context, m),
        ensures
            r.holds(*context, finished(opt_str(context.repository_path), m)),
    {
        let mut r = self;
        let mut section = Section::new(0);
        core::mem::swap(&mut section, &mut r.section);
        match section.path {
            None => {
                if section.saw_hunk {
                    r.unsupported = r.unsupported.saturating_add(1);
                }
                r
            },
            Some(raw) => {
                let path = repository_relative_path(context.repository_path, raw);
                match classify_code_path(path.as_str()) {
                    None => {
                        r.observed = r.observed.saturating_add(1);
                        r
                    },
                    Some(category) => {
                        proof {
                            assert(texts(section.deletions@).len() == section.deletions@.len());
                        }
                        if !section.saw_hunk || (section.deletion && section.deletions.len() == 0) {
                            r.unsupported = r.unsupported.saturating_add(1);
                            return r;
                        }
                        r.observed = r.observed.saturating_add(1);
                        let kind = if section.creation {
                            MutationKind::FileCreation
                        } else {
                            MutationKind::UnifiedPatch
                        };
                        let edit = build_trace_edit(
                            context,
                            path,
                            TraceEditMutation {
                                category,
                                kind,
                                section_index: section.index,
                                additions: &section.additions,
                                deletions: &section.deletions,
                                lines_written: 0,
                            },
                        );
                        r.edits.push(edit);
                        r
                    },
                }
            },
        }
    }

    fn begin_section(self, context: &TraceEditContext<'_>, Ghost(m): Ghost<PatchModel>) -> (r: Self)
        requires
            self.holds(*context, m),
        ensures
            r.holds(*context, begun(opt_str(context.repository_path), m)),
    {
        let mut r = self.finish_section(context, Ghost(m));
        r.section = Section::new(r.next_index);
        r.next_index = if r.next_index == usize::MAX { usize::MAX } else { r.next_index + 1 };
        r
    }

    fn read_line(
        self,
        context: &TraceEditContext<'_>,
        line: &str,
        next: Option<&str>,
        Ghost(m): Ghost<PatchModel>,
    ) -> (r: Self)
        requires
            self.holds(*context, m),
        ensures
            r.holds(
                *context,
                patch_step(opt_str(context.repository_path), m, line@, opt_str(next)),
            ),
    {
        if let Some(path) = strip_prefix(line, "*** Add File: ") {
            let mut r = self.begin_section(context, Ghost(m));
            r.section.path = clean_patch_path(path.as_str(), PatchPathStyle::Literal);
            r.section.creation = true;
            r.section.saw_hunk = true;
            r.in_hunk = true;
            return r;
        }
        if let Some(path) = strip_prefix(line, "*** Update File: ") {
            let mut r = self.begin_section(context, Ghost(m));
            r.section.path = clean_patch_path(path.as_str(), PatchPathStyle::Literal);
            r.in_hunk = false;
            return r;
        }
        if let Some(path) = strip_prefix(line, "*** Delete File: ") {
            let mut r = self.begin_section(context, Ghost(m));
            r.section.path = clean_patch_path(path.as_str(), PatchPathStyle::Literal);
            r.section.deletion = true;
            r.in_hunk = true;
            return r;
        }
        if let Some(path) = strip_prefix(line, "*** Move to: ") {
            let mut r = self;
            r.section.path = clean_patch_path(path.as_str(), PatchPathStyle::Literal);
            return r;
        }
        if let Some(paths) = strip_prefix(line, "diff --git ") {
            let mut r = self.begin_section(context, Ghost(m));
            let words = split_words(paths.as_str());
            proof {
                assert(words_of(paths@).len() == words@.len());
            }
            if words.len() > 1 {
                proof {
                    assert(words_of(paths@)[1] == words@[1]@);
                }
                r.section.path = clean_patch_path(words[1].as_str(), PatchPathStyle::GitDestination);
            } else {
                r.section.path = None;
            }
            r.in_hunk = false;
            return r;
        }
        let next_is_destination = match next {
            Some(n) => starts_with(n, "+++ "),
            None => false,
        };
        if starts_with(line, "--- ") && next_is_destination {
            let mut r = if self.section.saw_hunk {
                self.begin_section(context, Ghost(m))
            } else {
                self
            };
            r.in_hunk = false;
            let next_is_null = match next {
                Some(n) => same_text(n, "+++ /dev/null"),
                None => false,
            };
            if same_text(line, "--- /dev/null") {
                r.section.creation = true;
            } else if next_is_null {
                let source = trim_start_text(line, "--- ");
                r.section.path = clean_patch_path(source.as_str(), PatchPathStyle::GitSource);
                r.section.deletion = true;
            }
            return r;
        }
        let mut r = self;
        if !r.in_hunk {
            if let Some(path) = strip_prefix(line, "+++ ") {
                if !same_text(path.as_str(), "/dev/null") {
                    r.section.path = clean_patch_path(path.as_str(), PatchPathStyle::GitDestination);
                }
                return r;
            }
        }
        if starts_with(line, "@@") {
            r.in_hunk = true;
            r.section.saw_hunk = true;
            return r;
        }
        if starts_with(line, "*** End Patch") || starts_with(line, "*** End of File") {
            return r;
        }
        if r.in_hunk {
            if let Some(added) = strip_prefix(line, "+") {
                let ghost before = texts(r.section.additions@);
                r.section.additions.push(added);
                proof {
                    assert(texts(r.section.additions@) =~= before.push(added@));
                }
            } else if let Some(deleted) = strip_prefix(line, "-") {
                let ghost before = texts(r.section.deletions@);
                r.section.deletions.push(deleted);
                proof {
                    assert(texts(r.section.deletions@) =~= before.push(deleted@));
                }
                if r.section.deletion {
                    r.section.saw_hunk = true;
                }
            }
        }
        r
    }
}

/// Reads a patch in Git's form, in plain unified form, or in the form of
/// `apply_patch`, into one edit for each code file that it changes.
pub fn parse_unified_patch(context: &TraceEditContext<'_>, patch: &str) -> (r: ParsedMutation)
    ensures
        ({
            let m = read_patch(opt_str(context.repository_path), patch@);
            &&& records_all(r.edits@, *context, m.edits)
            &&& r.unsupported_sections == m.unsupported
            &&& r.coverage == patch_coverage(m)
        }),
{
    let lines = split_lines(patch);
    let ghost all = clean_lines(patch@);
    let ghost root = opt_str(context.repository_path);
    let mut reader = PatchReader {
        edits: Vec::new(),
        unsupported: 0,
        observed: 0,
        section: Section::new(0),
        next_index: 0,
        in_hunk: false,
    };
    let mut i: usize = 0;
    while i < lines.len()
        invariant
            texts(lines@) == all,
            all == clean_lines(patch@),
            root == opt_str(context.repository_path),
            i <= lines.len(),
            reader.holds(*context, read_upto(root, all, i as int)),
        decreases lines.len() - i,
    {
        proof {
            assert(all.len() == lines@.len());
            assert(all[i as int] == lines@[i as int]@);
        }
        let next: Option<&str> = if i + 1 < lines.len() {
            proof {
                assert(all[i + 1] == lines@[i + 1]@);
            }
            Some(lines[i + 1].as_str())
        } else {
            None
        };
        proof {
            assert(opt_str(next) == line_after(all, i as int));
        }
        reader =
        reader.read_line(context, lines[i].as_str(), next, Ghost(read_upto(root, all, i as int)));
        i = i + 1;
    }
    proof {
        assert(all.len() == lines@.len());
    }
    let done = reader.finish_section(context, Ghost(read_upto(root, all, all.len() as int)));
    let coverage = if done.unsupported == 0 && done.observed > 0 {
        CoverageStatus::Complete
    } else if done.observed == 0 {
        CoverageStatus::Unavailable
    } else {
        CoverageStatus::Partial
    };
    ParsedMutation { edits: done.edits, coverage, unsupported_sections: done.unsupported }
}

fn no_edits() -> (r: ParsedMutation)
    ensures
        r.edits@.len() == 0,
        r.coverage == CoverageStatus::Complete,
        r.unsupported_sections == 0,
{
    ParsedMutation {
        edits: Vec::new(),
        coverage: CoverageStatus::Complete,
        unsupported_sections: 0,
    }
}

fn one_edit(edit: TraceEdit) -> (r: ParsedMutation)
    ensures
        r.edits@ == seq![edit],
        r.coverage == CoverageStatus::Complete,
        r.unsupported_sections == 0,
{
    let mut edits: Vec<TraceEdit> = Vec::new();
    edits.push(edit);
    proof {
        assert(edits@ =~= seq![edit]);
    }
    ParsedMutation { edits, coverage: CoverageStatus::Complete, unsupported_sections: 0 }
}

/// The mutation of a replacement of one text by another in a code file.
pub open spec fn structured_mutations(
    path: Seq<char>,
    old_text: Seq<char>,
    new_text: Seq<char>,
    index: usize,
) -> Seq<Mutation> {
    match classify_spec(path) {
        None => Seq::empty(),
        Some(category) => {
            let d = diff(clean_lines(old_text), clean_lines(new_text));
            seq![
                Mutation {
                    path,
                    category,
                    kind: MutationKind::StructuredEdit,
                    index,
                    additions: d.0,
                    deletions: d.1,
                    written: 0,
                },
            ]
        },
    }
}

pub fn parse_structured_edit(
    context: &TraceEditContext<'_>,
    path: &str,
    old_string: &str,
    new_string: &str,
    section_index: usize,
) -> (r: ParsedMutation)
    ensures
        records_all(
            r.edits@,
            *context,
            structured_mutations(path@, old_string@, new_string@, section_index),
        ),
        r.coverage == CoverageStatus::Complete,
        r.unsupported_sections == 0,
{
    match classify_code_path(path) {
        None => no_edits(),
        Some(category) => {
            let old_lines = split_lines(old_string);
            let new_lines = split_lines(new_string);
            let (additions, deletions) = changed_lines(&old_lines, &new_lines);
            one_edit(
                build_trace_edit(
                    context,
                    path.to_owned(),
                    TraceEditMutation {
                        category,
                        kind: MutationKind::StructuredEdit,
                        section_index,
                        additions: &additions,
                        deletions: &deletions,
                        lines_written: 0,
                    },
                ),
            )
        },
    }
}

/// The mutation of writing a whole code file. Only where the file is known to be
/// new are its lines additions; otherwise they are counted as written.
pub open spec fn write_mutations(path: Seq<char>, content: Seq<char>, creation: bool) -> Seq<
    Mutation,
> {
    match classify_spec(path) {
        None => Seq::empty(),
        Some(category) => seq![
            Mutation {
                path,
                category,
                kind: if creation {
                    MutationKind::FileCreation
                } else {
                    MutationKind::FileWrite
                },
                index: 0,
                additions: if creation {
                    clean_lines(content)
                } else {
                    Seq::empty()
                },
                deletions: Seq::empty(),
                written: if creation {
                    0
                } else {
                    clean_lines(content).len() as u64
                },
            },
        ],
    }
}

pub fn parse_full_file_write(
    context: &TraceEditContext<'_>,
    path: &str,
    content: &str,
    creation_known: bool,
) -> (r: ParsedMutation)
    ensures
        records_all(r.edits@, *context, write_mutations(path@, content@, creation_known)),
        r.coverage == CoverageStatus::Complete,
        r.unsupported_sections == 0,
{
    match classify_code_path(path) {
        None => no_edits(),
        Some(category) => {
            let lines = split_lines(content);
            let none: Vec<String> = Vec::new();
            proof {
                assert(texts(none@) =~= Seq::empty());
                assert(texts(lines@).len() == lines@.len());
            }
            if creation_known {
                one_edit(
                    build_trace_edit(
                        context,
                        path.to_owned(),
                        TraceEditMutation {
                            category,
                            kind: MutationKind::FileCreation,
                            section_index: 0,
                            additions: &lines,
                            deletions: &none,
                            lines_written: 0,
                        },
                    ),
                )
            } else {
                one_edit(
                    build_trace_edit(
                        context,
                        path.to_owned(),
                        TraceEditMutation {
                            category,
                            kind: MutationKind::FileWrite,
                            section_index: 0,
                            additions: &none,
                            deletions: &none,
                            lines_written: lines.len() as u64,
                        },
                    ),
                )
            }
        },
    }
}

// ---------------------------------------------------------------------------
// What holds of every patch
// ---------------------------------------------------------------------------

/// What holds of a patch after any number of lines: each edit is of a code file
/// in its category, and the sections' places never decrease.
pub open spec fn orderly(m: PatchModel) -> bool {
    &&& forall|i: int|
        0 <= i < m.edits.len() ==> classify_spec((#[trigger] m.edits[i]).path) == Some(
            m.edits[i].category,
        ) && m.edits[i].written == 0 && m.edits[i].index <= m.section.index
    &&& forall|i: int, j: int|
        0 <= i < j < m.edits.len() ==> (#[trigger] m.edits[i]).index <= (
        #[trigger] m.edits[j]).index
    &&& m.section.index <= m.next_index
}

proof fn lemma_begun_orderly(root: Option<Seq<char>>, m: PatchModel)
    requires
        orderly(m),
    ensures
        orderly(begun(root, m)),
{
}

proof fn lemma_read_orderly(root: Option<Seq<char>>, lines: Seq<Seq<char>>, n: int)
    ensures
        orderly(read_upto(root, lines, n)),
    decreases n,
{
    if n > 0 {
        lemma_read_orderly(root, lines, n - 1);
        lemma_begun_orderly(root, read_upto(root, lines, n - 1));
    }
}

/// Each edit of a patch is of a code file, with the category of its path, and
/// has no lines that are neither added nor deleted; the edits stand in the order
/// of their sections.
pub proof fn patch_edits_are_code_in_order(root: Option<Seq<char>>, patch: Seq<char>)
    ensures
        forall|i: int|
            0 <= i < read_patch(root, patch).edits.len() ==> classify_spec(
                (#[trigger] read_patch(root, patch).edits[i]).path,
            ) == Some(read_patch(root, patch).edits[i].category) && read_patch(
                root,
                patch,
            ).edits[i].written == 0,
        forall|i: int, j: int|
            0 <= i < j < read_patch(root, patch).edits.len() ==> (
            #[trigger] read_patch(root, patch).edits[i]).index <= (
            #[trigger] read_patch(root, patch).edits[j]).index,
{
    let lines = clean_lines(patch);
    lemma_read_orderly(root, lines, lines.len() as int);
}

/// Lines that were read before a file's header are never charged to that file.
pub proof fn a_header_starts_an_empty_section(
    root: Option<Seq<char>>,
    m: PatchModel,
    line: Seq<char>,
    next: Option<Seq<char>>,
)
    requires
        match patch_line(line, next, m.in_hunk) {
            PatchLine::AddFile(_) => true,
            PatchLine::UpdateFile(_) => true,
            PatchLine::DeleteFile(_) => true,
            PatchLine::GitHeader(_) => true,
            PatchLine::FilePair => m.section.saw_hunk,
            _ => false,
        },
    ensures
        patch_step(root, m, line, next).section.additions.len() == 0,
        patch_step(root, m, line, next).section.deletions.len() == 0,
{
}

/// A line changes the edits already found only by adding one at their end.
pub proof fn reading_on_keeps_the_edits(
    root: Option<Seq<char>>,
    m: PatchModel,
    line: Seq<char>,
    next: Option<Seq<char>>,
)
    ensures
        ({
            let after = patch_step(root, m, line, next).edits;
            after == m.edits || (after.len() == m.edits.len() + 1 && after.drop_last() == m.edits)
        }),
{
    let after = patch_step(root, m, line, next).edits;
    if after.len() == m.edits.len() + 1 {
        assert(after.drop_last() =~= m.edits);
    }
}

/// Rebasing a path onto a repository only ever makes it shorter, and leaves a
/// path that is relative already as it is.
pub proof fn rebasing_only_shortens_paths(root: Option<Seq<char>>, path: Seq<char>)
    ensures
        relative_spec(root, path).len() <= path.len(),
        !rooted(path) ==> relative_spec(root, path) == path,
{
    lemma_spans(path, 0);
    match root {
        Some(base) => {
            let sp = spans(path, 0);
            let k = components(base).len() as int;
            if k < sp.len() {
                assert(0 <= sp[k].0 < sp[k].1);
                assert(sp[k].1 <= sp.last().1 <= path.len()) by {
                    if k < sp.len() - 1 {
                        assert(sp[k].1 < sp[sp.len() - 1].0);
                    }
                }
            }
            if sp.len() > 0 {
                assert(sp[sp.len() - 1].1 <= path.len());
            }
        },
        None => {},
    }
}

} // verus!
