//! Which commits of a log count, and what a scan holds of each.
use crate::code_types::CodeCategory;
use crate::diff::kept;
use crate::git::{
    CommitModel, FileModel, HeadModel, LogLine, after_last_at, cached_files, clean_parts, file_of,
    host_and_path, identity_hash, log_line, log_upto, patch_files, patched_files, records_upto,
    scanned_commits, uncached_spec,
};
use crate::hashing::hash_of;
use crate::patch::Mutation;
use crate::text::{
    blank, first_place, last_place, lemma_first_from, lemma_last_upto, lowered, occurs_at,
    split_first, starts, trim_front_char, trimmed, white,
};
use crate::text_laws::{
    a_field_is_what_precedes_the_separator, a_text_is_split_at_the_first_place,
    trimming_takes_the_white_space_off, words_stand_between_white_space, words_started,
};
use crate::time::parsed_rfc3339;
use vstd::prelude::*;

verus! {

/// A line of the log: hash, committer date, author date, parents and committer
/// address, with tabs between them.
pub open spec fn written_line(
    hash: Seq<char>,
    committed: Seq<char>,
    authored: Seq<char>,
    parents: Seq<char>,
    email: Seq<char>,
) -> Seq<char> {
    hash + seq!['\t'] + (committed + seq!['\t'] + (authored + seq!['\t'] + (parents + seq!['\t']
        + email)))
}

/// A line of a known committer, with at most one parent and a date that can be read
/// and is not too far ahead, is a commit with what stands in the line. One of
/// another committer is passed over, and so is a merge.
pub proof fn a_log_line_tells_of_its_commit(
    hash: Seq<char>,
    committed: Seq<char>,
    authored: Seq<char>,
    parents: Seq<char>,
    email: Seq<char>,
    identities: Seq<Seq<char>>,
    last_day: int,
)
    requires
        !hash.contains('\t'),
        !committed.contains('\t'),
        !authored.contains('\t'),
        !parents.contains('\t'),
        exists|i: int| 0 <= i < hash.len() && !white(#[trigger] hash[i]),
    ensures
        ({
            let line = written_line(hash, committed, authored, parents, email);
            let says = log_line(line, identities, last_day);
            let mine = exists|i: int|
                0 <= i < identities.len() && #[trigger] identities[i] == identity_hash(email);
            let count = words_started(parents, 0);
            let at = parsed_rfc3339(committed);
            &&& !mine || count >= 2 ==> says == LogLine::Skipped
            &&& mine && count < 2 && at is None ==> says == LogLine::Unreadable(committed)
            &&& mine && count < 2 && at is Some && at->0.day_spec() > last_day ==> says
                == LogLine::Ahead
            &&& mine && count < 2 && at is Some && at->0.day_spec() <= last_day ==> match says {
                LogLine::Counted(h) => h.commit_hash == hash && h.committed_at == at->0
                    && h.authored_at == parsed_rfc3339(authored) && h.parent_count == count,
                _ => false,
            }
        }),
{
    let line = written_line(hash, committed, authored, parents, email);
    reveal_strlit("\t");
    assert("\t"@ =~= seq!['\t']);
    let r4 = parents + seq!['\t'] + email;
    let r3 = authored + seq!['\t'] + r4;
    let r2 = committed + seq!['\t'] + r3;
    a_field_is_what_precedes_the_separator(hash, '\t', r2);
    a_field_is_what_precedes_the_separator(committed, '\t', r3);
    a_field_is_what_precedes_the_separator(authored, '\t', r4);
    a_field_is_what_precedes_the_separator(parents, '\t', email);
    words_stand_between_white_space(parents);
    trimming_takes_the_white_space_off(line);
    let i = choose|i: int| 0 <= i < hash.len() && !white(#[trigger] hash[i]);
    assert(line[i] == hash[i]);
    assert(!blank(line));
    if identities.contains(identity_hash(email)) {
        let k = choose|k: int| 0 <= k < identities.len() && identities[k] == identity_hash(email);
        assert(identities[k] == identity_hash(email));
    }
}

/// The heads of the first `n` lines of a log that can be read: every line that
/// counts gives one, in order, and no others are there.
pub proof fn every_line_that_counts_gives_a_commit(
    lines: Seq<Seq<char>>,
    identities: Seq<Seq<char>>,
    last_day: int,
    n: int,
)
    requires
        0 <= n <= lines.len(),
        forall|i: int|
            0 <= i < n ==> !(log_line(#[trigger] lines[i], identities, last_day) is Unreadable),
    ensures
        ({
            let m = log_upto(lines, identities, last_day, n);
            let counted = lines.take(n).filter(
                |l: Seq<char>| log_line(l, identities, last_day) is Counted,
            );
            &&& m.unreadable is None
            &&& m.heads.len() == counted.len()
            &&& forall|k: int|
                0 <= k < counted.len() ==> log_line(counted[k], identities, last_day)
                    == LogLine::Counted(#[trigger] m.heads[k])
            &&& m.ahead == exists|i: int|
                0 <= i < n && log_line(#[trigger] lines[i], identities, last_day) is Ahead
        }),
    decreases n,
{
    reveal(Seq::filter);
    let counts = |l: Seq<char>| log_line(l, identities, last_day) is Counted;
    if n > 0 {
        every_line_that_counts_gives_a_commit(lines, identities, last_day, n - 1);
        assert(lines.take(n).drop_last() =~= lines.take(n - 1));
        assert(lines.take(n).last() == lines[n - 1]);
        let before = log_upto(lines, identities, last_day, n - 1);
        let m = log_upto(lines, identities, last_day, n);
        assert(!(log_line(lines[n - 1], identities, last_day) is Unreadable));
        if m.ahead {
            if before.ahead {
                let i = choose|i: int|
                    0 <= i < n - 1 && log_line(#[trigger] lines[i], identities, last_day) is Ahead;
                assert(log_line(lines[i], identities, last_day) is Ahead);
            }
        }
    } else {
        assert(lines.take(0) =~= Seq::empty());
    }
}

/// A time that cannot be read is reported, the first one, whatever follows it.
pub proof fn the_first_unreadable_time_is_reported(
    lines: Seq<Seq<char>>,
    identities: Seq<Seq<char>>,
    last_day: int,
    i: int,
    n: int,
)
    requires
        0 <= i < n <= lines.len(),
        log_line(lines[i], identities, last_day) is Unreadable,
        forall|k: int|
            0 <= k < i ==> !(log_line(#[trigger] lines[k], identities, last_day) is Unreadable),
    ensures
        match log_upto(lines, identities, last_day, n).unreadable {
            Some(t) => log_line(lines[i], identities, last_day) == LogLine::Unreadable(t),
            None => false,
        },
    decreases n,
{
    if n == i + 1 {
        every_line_that_counts_gives_a_commit(lines, identities, last_day, i);
    } else {
        the_first_unreadable_time_is_reported(lines, identities, last_day, i, n - 1);
    }
}

/// A changed file counts its lines in the columns of its category and has one
/// fingerprint for each, in order.
pub proof fn a_changed_file_counts_its_lines(m: Mutation)
    requires
        m.additions.len() <= u64::MAX,
        m.deletions.len() <= u64::MAX,
    ensures
        ({
            let f = file_of(m);
            let c = f.counts;
            let a = m.additions.len();
            let d = m.deletions.len();
            &&& f.path == m.path
            &&& f.category == m.category
            &&& m.category == CodeCategory::Source ==> c.source_additions == a && c.source_deletions
                == d && c.test_additions == 0 && c.test_deletions == 0
            &&& m.category == CodeCategory::Test ==> c.test_additions == a && c.test_deletions == d
                && c.source_additions == 0 && c.source_deletions == 0
            &&& c.unclassified_lines_written == m.written
            &&& f.added.len() == a
            &&& f.deleted.len() == d
            &&& forall|i: int| 0 <= i < a ==> #[trigger] f.added[i] == hash_of(m.additions[i])
            &&& forall|i: int| 0 <= i < d ==> #[trigger] f.deleted[i] == hash_of(m.deletions[i])
        }),
{
}

/// A record of the patch log that has its mark gives its commit's files, behind
/// those of the records before it; one without the mark gives none.
pub proof fn every_marked_record_gives_its_files(
    parts: Seq<Seq<char>>,
    n: int,
    hash: Seq<char>,
    patch: Seq<char>,
)
    requires
        1 <= n < parts.len(),
        !hash.contains('\u{1f}'),
    ensures
        parts[n] == hash + seq!['\u{1f}'] + patch ==> records_upto(parts, n + 1) == records_upto(
            parts,
            n,
        ).push((trimmed(hash), patch_files(patch))),
        !parts[n].contains('\u{1f}') ==> records_upto(parts, n + 1) == records_upto(parts, n),
        records_upto(parts, 1).len() == 0,
{
    reveal_strlit("\u{1f}");
    let mark = "\u{1f}"@;
    assert(mark =~= seq!['\u{1f}']);
    a_field_is_what_precedes_the_separator(hash, '\u{1f}', patch);
    if !parts[n].contains('\u{1f}') {
        a_text_is_split_at_the_first_place(parts[n], mark);
        match split_first(parts[n], mark) {
            Some((a, b)) => {
                assert(parts[n][a.len() as int] == '\u{1f}');
            },
            None => {},
        }
    }
}

/// The files kept of a commit are those of the last entry with its hash; nothing is
/// kept exactly where no entry has it.
pub proof fn kept_files_are_those_of_the_last_entry(
    cached: Seq<CommitModel>,
    patches: Seq<(Seq<char>, Seq<FileModel>)>,
    hash: Seq<char>,
)
    ensures
        match cached_files(cached, hash) {
            Some(f) => exists|i: int|
                0 <= i < cached.len() && (#[trigger] cached[i]).commit_hash == hash
                    && cached[i].files == f && forall|k: int|
                    i < k < cached.len() ==> (#[trigger] cached[k]).commit_hash != hash,
            None => forall|i: int| 0 <= i < cached.len() ==> (#[trigger] cached[i]).commit_hash != hash,
        },
        match patched_files(patches, hash) {
            Some(f) => exists|i: int|
                0 <= i < patches.len() && #[trigger] patches[i] == (hash, f) && forall|k: int|
                    i < k < patches.len() ==> (#[trigger] patches[k]).0 != hash,
            None => forall|i: int| 0 <= i < patches.len() ==> (#[trigger] patches[i]).0 != hash,
        },
    decreases cached.len() + patches.len(),
{
    if cached.len() > 0 && cached.last().commit_hash != hash {
        let less = cached.drop_last();
        kept_files_are_those_of_the_last_entry(less, patches, hash);
        assert(forall|i: int| 0 <= i < less.len() ==> #[trigger] cached[i] == less[i]);
        match cached_files(less, hash) {
            Some(f) => {
                let i = choose|i: int|
                    0 <= i < less.len() && (#[trigger] less[i]).commit_hash == hash
                        && less[i].files == f && forall|k: int|
                        i < k < less.len() ==> (#[trigger] less[k]).commit_hash != hash;
                assert(cached[i].commit_hash == hash && cached[i].files == f);
            },
            None => {},
        }
    } else {
        if cached.len() > 0 {
            assert(cached[cached.len() - 1].commit_hash == hash);
        }
        if patches.len() > 0 && patches.last().0 != hash {
            let less = patches.drop_last();
            kept_files_are_those_of_the_last_entry(cached, less, hash);
            assert(forall|i: int| 0 <= i < less.len() ==> #[trigger] patches[i] == less[i]);
            match patched_files(less, hash) {
                Some(f) => {
                    let i = choose|i: int|
                        0 <= i < less.len() && #[trigger] less[i] == (hash, f) && forall|k: int|
                            i < k < less.len() ==> (#[trigger] less[k]).0 != hash;
                    assert(patches[i] == (hash, f));
                },
                None => {},
            }
        } else if patches.len() > 0 {
            assert(patches[patches.len() - 1] == (hash, patches.last().1));
        }
    }
}

/// Every commit that counts stands in the scan, in order, with its own times and
/// parents, the repository and the project. Files of an earlier scan go before a
/// patch.
pub proof fn a_scan_holds_every_commit(
    heads: Seq<HeadModel>,
    repository: Seq<char>,
    project: Option<Seq<char>>,
    cached: Seq<CommitModel>,
    patches: Seq<(Seq<char>, Seq<FileModel>)>,
)
    ensures
        scanned_commits(heads, repository, project, cached, patches).len() == heads.len(),
        forall|n: int|
            0 <= n < heads.len() ==> {
                let c = #[trigger] scanned_commits(heads, repository, project, cached, patches)[n];
                &&& c.commit_hash == heads[n].commit_hash
                &&& c.committed_at == heads[n].committed_at
                &&& c.authored_at == heads[n].authored_at
                &&& c.parent_count == heads[n].parent_count
                &&& c.repository_hash == repository
                &&& c.project_id == project
                &&& cached_files(cached, c.commit_hash) is Some ==> Some(c.files) == cached_files(
                    cached,
                    c.commit_hash,
                )
                &&& cached_files(cached, c.commit_hash) is None && patched_files(
                    patches,
                    c.commit_hash,
                ) is Some && (forall|k: int|
                    0 <= k < n ==> (#[trigger] heads[k]).commit_hash != c.commit_hash)
                    ==> Some(c.files) == patched_files(patches, c.commit_hash)
            },
{
}

/// Git is asked for the patches of exactly the commits of which no files are kept,
/// in order.
pub proof fn patches_are_asked_for_where_no_files_are_kept(
    heads: Seq<HeadModel>,
    cached: Seq<CommitModel>,
)
    ensures
        uncached_spec(heads, cached) == heads.filter(
            |h: HeadModel|
                forall|i: int|
                    0 <= i < cached.len() ==> (#[trigger] cached[i]).commit_hash != h.commit_hash,
        ).map_values(|h: HeadModel| h.commit_hash),
    decreases heads.len(),
{
    reveal(Seq::filter);
    let missing = |h: HeadModel|
        forall|i: int| 0 <= i < cached.len() ==> (#[trigger] cached[i]).commit_hash != h.commit_hash;
    let hash = |h: HeadModel| h.commit_hash;
    if heads.len() > 0 {
        let h = heads.last();
        patches_are_asked_for_where_no_files_are_kept(heads.drop_last(), cached);
        kept_files_are_those_of_the_last_entry(cached, Seq::empty(), h.commit_hash);
        let before = heads.drop_last().filter(missing);
        if missing(h) {
            assert(before.push(h).map_values(hash) =~= before.map_values(hash).push(h.commit_hash));
        }
    } else {
        assert(uncached_spec(heads, cached) =~= heads.filter(missing).map_values(hash));
    }
}

/// The parts of a remote are kept where they are not blank, trimmed and in small
/// letters, in order.
pub proof fn parts_of_a_remote_are_cleaned(parts: Seq<Seq<char>>)
    ensures
        clean_parts(parts) == parts.filter(|p: Seq<char>| !blank(p)).map_values(
            |p: Seq<char>| lowered(trimmed(p)),
        ),
    decreases parts.len(),
{
    reveal(Seq::filter);
    let kept = |p: Seq<char>| !blank(p);
    let clean = |p: Seq<char>| lowered(trimmed(p));
    if parts.len() > 0 {
        parts_of_a_remote_are_cleaned(parts.drop_last());
        let before = parts.drop_last().filter(kept);
        if kept(parts.last()) {
            assert(before.push(parts.last()).map_values(clean) =~= before.map_values(clean).push(
                clean(parts.last()),
            ));
        }
    } else {
        assert(clean_parts(parts) =~= parts.filter(kept).map_values(clean));
    }
}

/// A remote in the short form with a colon and one with a scheme, with or without a
/// user, name the same host and path.
pub proof fn forms_of_a_remote_name_the_same_place(
    scheme: Seq<char>,
    user: Seq<char>,
    host: Seq<char>,
    path: Seq<char>,
)
    requires
        !scheme.contains(':'),
        !starts(scheme + "://"@ + host + "/"@ + path, "git@"@),
        !starts(scheme + "://"@ + user + "@"@ + host + "/"@ + path, "git@"@),
        !user.contains('/'),
        !host.contains('/'),
        !host.contains(':'),
        !host.contains('@'),
        host.len() > 0,
        user.len() > 0,
    ensures
        host_and_path("git@"@ + host + ":"@ + path) == Some(host + "/"@ + path),
        host_and_path(scheme + "://"@ + host + "/"@ + path) == Some(host + "/"@ + path),
        host_and_path(scheme + "://"@ + user + "@"@ + host + "/"@ + path) == Some(
            host + "/"@ + path,
        ),
{
    reveal_strlit("git@");
    reveal_strlit(":");
    reveal_strlit("://");
    reveal_strlit("/");
    reveal_strlit("@");
    assert(":"@ =~= seq![':']);
    assert("/"@ =~= seq!['/']);
    assert("@"@ =~= seq!['@']);
    let short = "git@"@ + host + ":"@ + path;
    assert(short.take(4) =~= "git@"@);
    assert(short.skip(4) =~= host + seq![':'] + path);
    a_field_is_what_precedes_the_separator(host, ':', path);
    lemma_behind_the_scheme(scheme, host + "/"@ + path);
    let plain = scheme + "://"@ + host + "/"@ + path;
    assert(plain =~= scheme + "://"@ + (host + "/"@ + path));
    lemma_host_behind_user(Seq::empty(), host, path);
    assert(plain.len() > 0);
    lemma_behind_the_scheme(scheme, user + "@"@ + host + "/"@ + path);
    let full = scheme + "://"@ + user + "@"@ + host + "/"@ + path;
    assert(full =~= scheme + "://"@ + (user + "@"@ + host + "/"@ + path));
    assert(user + "@"@ + host + "/"@ + path =~= (user + "@"@) + host + "/"@ + path);
    assert((user + "@"@).last() == '@');
    lemma_host_behind_user(user + "@"@, host, path);
    assert(Seq::<char>::empty() + host + "/"@ + path =~= host + "/"@ + path);
}

/// Behind a scheme stands the rest.
proof fn lemma_behind_the_scheme(scheme: Seq<char>, rest: Seq<char>)
    requires
        !scheme.contains(':'),
    ensures
        split_first(scheme + "://"@ + rest, "://"@) == Some((scheme, rest)),
{
    reveal_strlit("://");
    let s = scheme + "://"@ + rest;
    let p = "://"@;
    let n = scheme.len() as int;
    lemma_first_from(s, p, 0);
    assert(s.subrange(n, n + 3) =~= p);
    assert(occurs_at(s, p, n));
    match first_place(s, p) {
        Some(i) => {
            assert(s.subrange(i, i + 3)[0] == s[i]);
            if i < n {
                assert(scheme[i] == ':');
            }
            assert(i == n);
            assert(s.take(i) =~= scheme);
            assert(s.skip(i + 3) =~= rest);
        },
        None => {},
    }
}

/// The host is what stands between the user, where there is one, and the path.
proof fn lemma_host_behind_user(user: Seq<char>, host: Seq<char>, path: Seq<char>)
    requires
        user.len() == 0 || user.last() == '@',
        !user.contains('/'),
        !host.contains('/'),
        !host.contains('@'),
        host.len() > 0,
    ensures
        ({
            let s = trim_front_char(user + host + "/"@ + path, '/');
            match split_first(s, "/"@) {
                Some(q) => after_last_at(q.0) == host && q.1 == path,
                None => false,
            }
        }),
{
    reveal_strlit("/");
    assert("/"@ =~= seq!['/']);
    let front = user + host;
    let s = front + "/"@ + path;
    assert forall|i: int| 0 <= i < front.len() implies #[trigger] front[i] != '/' by {
        if i < user.len() {
            assert(user[i] == front[i]);
        } else {
            assert(host[i - user.len()] == front[i]);
        }
    }
    assert(!front.contains('/'));
    assert(s[0] == front[0]);
    assert(trim_front_char(s, '/') == s);
    a_field_is_what_precedes_the_separator(front, '/', path);
    let p = seq!['@'];
    lemma_last_upto(front, p, front.len() as int);
    let n = user.len() as int;
    match last_place(front, p) {
        Some(k) => {
            assert(front.subrange(k, k + 1)[0] == front[k]);
            if k >= n {
                assert(host[k - n] == '@');
            }
            if n > 0 && k < n - 1 {
                assert(front.subrange(n - 1, n) =~= p);
                assert(occurs_at(front, p, n - 1));
            }
            assert(k == n - 1);
            assert(front.skip(k + 1) =~= host);
        },
        None => {
            if n > 0 {
                assert(front.subrange(n - 1, n) =~= p);
                assert(occurs_at(front, p, n - 1));
            }
            assert(front =~= host);
        },
    }
}

} // verus!
