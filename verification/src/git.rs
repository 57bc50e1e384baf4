//! Reads what Git says about a local repository.
use crate::code_types::{
    CodeCategory, CodeLineCounts, CoverageStatus, GIT_COMMIT_OBSERVATION_DAYS, GitCommitChange,
    GitFileChange, GitScan, GitScanError, MAX_REPORTABLE_FUTURE_DAYS, TraceEditContext,
    max_reportable_day,
};
use crate::hashing::{hash_of, hash_text};
use crate::ids::{SourceId, key_of, key_text, strs};
use crate::matching::{commit_times_wf, scans_wf};
use crate::patch::{Mutation, fingerprints, parse_unified_patch, read_patch, records, records_all};
use crate::sorted::{insert_text, sort_texts, sorted_texts, texts_increase};
use crate::text::{
    after_prefix, ascii_lowercase, before_suffix, blank, chars_of, concat2, concat3, contains_text,
    copy_texts, ended_lines, is_blank, join, joined, last_place, lowered, occurs, opt_str, opt_text,
    rfind_chars, same_text, slice_string, split_char, split_ended_lines, split_first, split_on,
    split_once, split_words, strip_prefix, strip_suffix, texts, trim, trim_back_char, trim_end_char,
    trim_front_char, trim_start_char, trimmed, words_of,
};
use crate::time::{
    MAX_SECONDS, MIN_SECONDS, Timestamp, opt_wf, parse_rfc3339, parsed_rfc3339, rfc3339_text,
};
use vstd::prelude::*;

verus! {

/// How many commits' patches one Git command is asked for.
pub const GIT_PATCH_BATCH_SIZE: usize = 256;

// ---------------------------------------------------------------------------
// Identities
// ---------------------------------------------------------------------------

pub open spec fn identity_hash(email: Seq<char>) -> Seq<char> {
    hash_of("git-committer.v1:"@ + lowered(trimmed(email)))
}

/// A committer's address in the form in which addresses are compared: hashed, in
/// small letters and without white space around it.
pub fn committer_identity_hash(email: &str) -> (r: String)
    ensures
        r@ == identity_hash(email@),
        r@.len() == 64,
{
    let t = trim(email);
    let l = ascii_lowercase(t.as_str());
    let key = concat2("git-committer.v1:", l.as_str());
    hash_text(key.as_str())
}

/// Two addresses that differ only in ASCII case and in white space around them
/// are the same committer.
pub proof fn committer_identity_ignores_case_and_space(a: Seq<char>, b: Seq<char>)
    requires
        lowered(trimmed(a)) == lowered(trimmed(b)),
    ensures
        identity_hash(a) == identity_hash(b),
{
}

/// What follows the last `@`, or the whole where there is none.
pub open spec fn after_last_at(s: Seq<char>) -> Seq<char> {
    match last_place(s, seq!['@']) {
        Some(i) => s.skip(i + 1),
        None => s,
    }
}

/// Host and path of a remote, from its usual forms.
pub open spec fn host_and_path(remote: Seq<char>) -> Option<Seq<char>> {
    match after_prefix(remote, "git@"@) {
        Some(rest) => match split_first(rest, ":"@) {
            Some(p) => Some(p.0 + "/"@ + p.1),
            None => None,
        },
        None => match split_first(remote, "://"@) {
            Some(p) => match split_first(trim_front_char(p.1, '/'), "/"@) {
                Some(q) => Some(after_last_at(q.0) + "/"@ + q.1),
                None => None,
            },
            None => Some(remote),
        },
    }
}

/// The parts of a path that are not blank, trimmed and in small letters.
pub open spec fn clean_parts(parts: Seq<Seq<char>>) -> Seq<Seq<char>>
    decreases parts.len(),
{
    if parts.len() == 0 {
        Seq::empty()
    } else {
        let before = clean_parts(parts.drop_last());
        let part = trimmed(parts.last());
        if part.len() == 0 {
            before
        } else {
            before.push(lowered(part))
        }
    }
}

pub open spec fn without_git_suffix(s: Seq<char>) -> Seq<char> {
    match before_suffix(s, ".git"@) {
        Some(x) => x,
        None => s,
    }
}

/// The remote as a stable identity in small letters: host and path, without user
/// and without the suffix `.git`.
pub open spec fn normalized_remote(value: Seq<char>) -> Option<Seq<char>> {
    let v = trim_back_char(trimmed(value), '/');
    if v.len() == 0 {
        None
    } else {
        match host_and_path(v) {
            Some(h) => {
                let parts = clean_parts(split_on(h, '/'));
                if parts.len() < 2 {
                    None
                } else {
                    Some(
                        joined(
                            parts.update(
                                parts.len() - 1,
                                without_git_suffix(parts[parts.len() - 1]),
                            ),
                            "/"@,
                        ),
                    )
                }
            },
            None => None,
        }
    }
}

fn text_after_last_at(s: &str) -> (r: String)
    ensures
        r@ == after_last_at(s@),
{
    let cs = chars_of(s);
    let at: [char; 1] = ['@'];
    proof {
        assert(at@ =~= seq!['@']);
    }
    match rfind_chars(&cs, &at) {
        Some(i) => {
            proof {
                assert(s@.skip(i + 1) =~= s@.subrange(i + 1, s@.len() as int));
            }
            slice_string(&cs, i + 1, cs.len())
        },
        None => s.to_owned(),
    }
}

fn remote_host_and_path(remote: &str) -> (r: Option<String>)
    ensures
        opt_text(r) == host_and_path(remote@),
{
    match strip_prefix(remote, "git@") {
        Some(rest) => match split_once(rest.as_str(), ":") {
            Some((host, path)) => Some(concat3(host.as_str(), "/", path.as_str())),
            None => None,
        },
        None => match split_once(remote, "://") {
            Some((_, rest)) => {
                let rest = trim_start_char(rest.as_str(), '/');
                match split_once(rest.as_str(), "/") {
                    Some((authority, path)) => {
                        let host = text_after_last_at(authority.as_str());
                        Some(concat3(host.as_str(), "/", path.as_str()))
                    },
                    None => None,
                }
            },
            None => Some(remote.to_owned()),
        },
    }
}

fn cleaned_parts(parts: &[String]) -> (r: Vec<String>)
    ensures
        texts(r@) == clean_parts(texts(parts@)),
{
    let ghost all = texts(parts@);
    let mut out: Vec<String> = Vec::new();
    let mut i: usize = 0;
    proof {
        assert(all.take(0) =~= Seq::empty());
        assert(texts(out@) =~= Seq::empty());
    }
    while i < parts.len()
        invariant
            all == texts(parts@),
            i <= parts.len(),
            texts(out@) == clean_parts(all.take(i as int)),
        decreases parts.len() - i,
    {
        let ghost before = texts(out@);
        proof {
            assert(all.take(i + 1).drop_last() =~= all.take(i as int));
            assert(all.take(i + 1).last() == parts@[i as int]@);
        }
        let part = trim(parts[i].as_str());
        if !part.as_str().is_empty() {
            let small = ascii_lowercase(part.as_str());
            out.push(small);
            proof {
                assert(texts(out@) =~= before.push(small@));
            }
        }
        i = i + 1;
    }
    proof {
        assert(all.take(i as int) =~= all);
    }
    out
}

/// The remote as a stable identity, where host and path can be told.
pub fn normalize_git_remote(value: &str) -> (r: Option<String>)
    ensures
        opt_text(r) == normalized_remote(value@),
{
    let t = trim(value);
    let v = trim_end_char(t.as_str(), '/');
    if v.as_str().is_empty() {
        return None;
    }
    match remote_host_and_path(v.as_str()) {
        Some(h) => {
            let raw = split_char(h.as_str(), '/');
            let mut parts = cleaned_parts(&raw);
            let ghost all = texts(parts@);
            proof {
                assert(all.len() == parts@.len());
            }
            if parts.len() < 2 {
                return None;
            }
            let last: usize = parts.len() - 1;
            proof {
                assert(all[last as int] == parts@[last as int]@);
            }
            match strip_suffix(parts[last].as_str(), ".git") {
                Some(s) => {
                    parts.set(last, s);
                    proof {
                        assert(texts(parts@) =~= all.update(last as int, s@));
                    }
                },
                None => {
                    proof {
                        assert(texts(parts@) =~= all.update(last as int, all[last as int]));
                    }
                },
            }
            Some(join(&parts, "/"))
        },
        None => None,
    }
}

/// What identifies a repository: its remote, else its root commits, else its path.
pub open spec fn repository_key(remote: Seq<char>, roots: Seq<char>, path: Seq<char>) -> Seq<char> {
    if !blank(remote) {
        "remote:"@ + match normalized_remote(remote) {
            Some(n) => n,
            None => trimmed(remote),
        }
    } else {
        let lines = ended_lines(roots);
        if lines.len() == 0 {
            "path:"@ + path
        } else {
            "roots:"@ + joined(sorted_texts(lines), ","@)
        }
    }
}

/// The stable identity of the repository at `root`, from its remote's address
/// and the list of its root commits, as Git prints them.
pub fn repository_identity_hash(root: &str, remote: &str, root_commits: &str) -> (r: String)
    ensures
        r@ == hash_of("repository.v1:"@ + repository_key(remote@, root_commits@, root@)),
{
    let identity = if is_blank(remote) {
        let lines = split_ended_lines(root_commits);
        proof {
            assert(ended_lines(root_commits@).len() == lines@.len());
        }
        if lines.len() == 0 {
            concat2("path:", root)
        } else {
            let sorted = sort_texts(&lines);
            let list = join(&sorted, ",");
            concat2("roots:", list.as_str())
        }
    } else {
        match normalize_git_remote(remote) {
            Some(n) => concat2("remote:", n.as_str()),
            None => {
                let t = trim(remote);
                concat2("remote:", t.as_str())
            },
        }
    };
    let key = concat2("repository.v1:", identity.as_str());
    hash_text(key.as_str())
}

/// Clones of one remote are the same repository wherever they lie and whatever
/// root commits they hold.
pub proof fn a_remote_alone_identifies_a_repository(
    remote: Seq<char>,
    roots_a: Seq<char>,
    path_a: Seq<char>,
    roots_b: Seq<char>,
    path_b: Seq<char>,
)
    requires
        !blank(remote),
    ensures
        repository_key(remote, roots_a, path_a) == repository_key(remote, roots_b, path_b),
{
}

// ---------------------------------------------------------------------------
// Commands
// ---------------------------------------------------------------------------

pub open spec fn git_error(command: Seq<char>, message: Seq<char>, e: GitScanError) -> bool {
    if occurs(trimmed(message), "not a git repository"@) {
        e matches GitScanError::NotRepository(p) && p@ == "."@
    } else {
        e matches GitScanError::Command { command: c, message: m } && c@ == "git "@ + command && m@
            == trimmed(message)
    }
}

/// What a Git command printed, or why it failed. `command` is its arguments with
/// spaces between them.
pub fn output_text(
    command: &str,
    success: bool,
    stdout: String,
    stderr: &str,
    allow_failure: bool,
) -> (r: Result<String, GitScanError>)
    ensures
        match r {
            Ok(text) => (success || allow_failure) && text@ == stdout@,
            Err(e) => !success && !allow_failure && git_error(command@, stderr@, e),
        },
{
    if success || allow_failure {
        return Ok(stdout);
    }
    let message = trim(stderr);
    if contains_text(message.as_str(), "not a git repository") {
        Err(GitScanError::NotRepository(".".to_owned()))
    } else {
        Err(GitScanError::Command { command: concat2("git ", command), message })
    }
}

/// The root of the repository that holds `path`, from what Git printed for it.
pub fn resolve_git_repository_root(path: &str, printed: &str) -> (r: Result<String, GitScanError>)
    ensures
        match r {
            Ok(root) => !blank(printed@) && root@ == trimmed(printed@),
            Err(e) => blank(printed@) && (e matches GitScanError::NotRepository(p) && p@ == path@),
        },
{
    let root = trim(printed);
    if root.as_str().is_empty() {
        Err(GitScanError::NotRepository(path.to_owned()))
    } else {
        Ok(root)
    }
}

/// The argument that bounds a log to the window observed at `now`.
pub fn observation_argument(now: Timestamp) -> (r: String)
    requires
        now.wf(),
        MIN_SECONDS <= now.secs - GIT_COMMIT_OBSERVATION_DAYS * 86_400,
    ensures
        ({
            let start = now.shifted(-GIT_COMMIT_OBSERVATION_DAYS as int);
            r@ == "--since="@ + rfc3339_text(start.secs as int, start.nanos as int)
        }),
{
    match now.plus_days(-GIT_COMMIT_OBSERVATION_DAYS) {
        Some(start) => {
            let t = start.to_rfc3339();
            concat2("--since=", t.as_str())
        },
        None => String::new(),
    }
}

// ---------------------------------------------------------------------------
// The log
// ---------------------------------------------------------------------------

/// The head of a commit that counts.
#[derive(Debug, Clone, PartialEq, Eq)]
pub struct CommitHead {
    pub commit_hash: String,
    pub committed_at: Timestamp,
    pub authored_at: Option<Timestamp>,
    pub parent_count: usize,
}

#[verifier::ext_equal]
pub struct HeadModel {
    pub commit_hash: Seq<char>,
    pub committed_at: Timestamp,
    pub authored_at: Option<Timestamp>,
    pub parent_count: int,
}

impl CommitHead {
    pub open spec fn model(self) -> HeadModel {
        HeadModel {
            commit_hash: self.commit_hash@,
            committed_at: self.committed_at,
            authored_at: self.authored_at,
            parent_count: self.parent_count as int,
        }
    }
}

pub open spec fn head_models(v: Seq<CommitHead>) -> Seq<HeadModel> {
    v.map_values(|h: CommitHead| h.model())
}

/// What a line of the log says.
pub enum LogLine {
    /// Nothing that counts: blank, of another committer, or a merge.
    Skipped,
    /// A commit dated too far ahead.
    Ahead,
    /// A commit whose time cannot be read.
    Unreadable(Seq<char>),
    Counted(HeadModel),
}

/// The text up to the first tab, and what follows it.
pub open spec fn next_field(rest: Option<Seq<char>>) -> (Seq<char>, Option<Seq<char>>) {
    match rest {
        None => (Seq::empty(), None),
        Some(s) => match split_first(s, "\t"@) {
            Some(p) => (p.0, Some(p.1)),
            None => (s, None),
        },
    }
}

/// What a commit's entry says once its times were read.
pub open spec fn entry_says(
    hash: Seq<char>,
    committed_text: Seq<char>,
    committed: Option<Timestamp>,
    authored: Option<Timestamp>,
    parents: Seq<char>,
    email: Seq<char>,
    identities: Seq<Seq<char>>,
    last_day: int,
) -> LogLine {
    if !identities.contains(identity_hash(email)) || words_of(parents).len() > 1 {
        LogLine::Skipped
    } else {
        match committed {
            None => LogLine::Unreadable(committed_text),
            Some(at) => if at.day_spec() > last_day {
                LogLine::Ahead
            } else {
                LogLine::Counted(
                    HeadModel {
                        commit_hash: hash,
                        committed_at: at,
                        authored_at: authored,
                        parent_count: words_of(parents).len() as int,
                    },
                )
            },
        }
    }
}

/// What a line of the log says: hash, committer date, author date, parents and
/// committer address, with tabs between them.
pub open spec fn log_line(line: Seq<char>, identities: Seq<Seq<char>>, last_day: int) -> LogLine {
    let hash = next_field(Some(line));
    let committed = next_field(hash.1);
    let authored = next_field(committed.1);
    let parents = next_field(authored.1);
    let email = match parents.1 {
        Some(e) => e,
        None => Seq::empty(),
    };
    if blank(line) {
        LogLine::Skipped
    } else {
        entry_says(
            hash.0,
            committed.0,
            parsed_rfc3339(committed.0),
            parsed_rfc3339(authored.0),
            parents.0,
            email,
            identities,
            last_day,
        )
    }
}

/// A log as far as it was read. Nothing is read beyond a time that cannot be read.
#[verifier::ext_equal]
pub struct LogModel {
    pub heads: Seq<HeadModel>,
    pub ahead: bool,
    pub unreadable: Option<Seq<char>>,
}

pub open spec fn log_upto(
    lines: Seq<Seq<char>>,
    identities: Seq<Seq<char>>,
    last_day: int,
    n: int,
) -> LogModel
    decreases n,
{
    if n <= 0 {
        LogModel { heads: Seq::empty(), ahead: false, unreadable: None }
    } else {
        let before = log_upto(lines, identities, last_day, n - 1);
        if before.unreadable is Some {
            before
        } else {
            match log_line(lines[n - 1], identities, last_day) {
                LogLine::Skipped => before,
                LogLine::Ahead => LogModel { ahead: true, ..before },
                LogLine::Unreadable(t) => LogModel { unreadable: Some(t), ..before },
                LogLine::Counted(h) => LogModel { heads: before.heads.push(h), ..before },
            }
        }
    }
}

pub open spec fn read_log_spec(log: Seq<char>, identities: Seq<Seq<char>>, last_day: int) -> LogModel {
    let lines = ended_lines(log);
    log_upto(lines, identities, last_day, lines.len() as int)
}

fn take_field(rest: Option<String>) -> (r: (String, Option<String>))
    ensures
        (r.0@, opt_text(r.1)) == next_field(opt_text(rest)),
{
    match rest {
        None => {
            let e = String::new();
            (e, None)
        },
        Some(s) => match split_once(s.as_str(), "\t") {
            Some((a, b)) => (a, Some(b)),
            None => (s, None),
        },
    }
}

fn holds(v: &[String], t: &str) -> (r: bool)
    ensures
        r == texts(v@).contains(t@),
{
    let mut i: usize = 0;
    while i < v.len()
        invariant
            i <= v.len(),
            forall|k: int| 0 <= k < i ==> (#[trigger] v@[k])@ != t@,
        decreases v.len() - i,
    {
        if same_text(v[i].as_str(), t) {
            proof {
                assert(texts(v@)[i as int] == t@);
            }
            return true;
        }
        i = i + 1;
    }
    proof {
        assert forall|k: int| 0 <= k < texts(v@).len() implies texts(v@)[k] != t@ by {
            assert(texts(v@)[k] == v@[k]@);
        }
    }
    false
}

/// What a line of the log was found to say.
#[derive(Debug, PartialEq, Eq)]
pub enum ReadLine {
    Skipped,
    Ahead,
    Unreadable(String),
    Counted(CommitHead),
}

impl ReadLine {
    pub open spec fn model(self) -> LogLine {
        match self {
            ReadLine::Skipped => LogLine::Skipped,
            ReadLine::Ahead => LogLine::Ahead,
            ReadLine::Unreadable(t) => LogLine::Unreadable(t@),
            ReadLine::Counted(h) => LogLine::Counted(h.model()),
        }
    }
}

/// A commit's entry in the log; its times are given apart.
#[derive(Debug, PartialEq, Eq)]
pub struct LogEntry {
    pub hash: String,
    /// The committer date as written.
    pub committed: String,
    /// The parents' hashes, with spaces between them.
    pub parents: String,
    pub email: String,
}

/// Judges an entry by its committer, its parents and its times, which are missing
/// where they could not be read.
pub fn judge_log_entry(
    entry: LogEntry,
    committed: Option<Timestamp>,
    authored: Option<Timestamp>,
    identities: &[String],
    last_day: i64,
) -> (r: ReadLine)
    requires
        opt_wf(committed),
        opt_wf(authored),
    ensures
        r.model() == entry_says(
            entry.hash@,
            entry.committed@,
            committed,
            authored,
            entry.parents@,
            entry.email@,
            texts(identities@),
            last_day as int,
        ),
        r matches ReadLine::Counted(h) ==> head_wf(h),
{
    let identity = committer_identity_hash(entry.email.as_str());
    if !holds(identities, identity.as_str()) {
        return ReadLine::Skipped;
    }
    let parents = split_words(entry.parents.as_str());
    proof {
        assert(texts(parents@).len() == parents@.len());
    }
    if parents.len() > 1 {
        return ReadLine::Skipped;
    }
    match committed {
        None => ReadLine::Unreadable(entry.committed),
        Some(at) => {
            if at.day() > last_day {
                return ReadLine::Ahead;
            }
            ReadLine::Counted(
                CommitHead {
                    commit_hash: entry.hash,
                    committed_at: at,
                    authored_at: authored,
                    parent_count: parents.len(),
                },
            )
        },
    }
}

fn read_log_line(line: &str, identities: &[String], last_day: i64) -> (r: ReadLine)
    ensures
        r.model() == log_line(line@, texts(identities@), last_day as int),
        r matches ReadLine::Counted(h) ==> head_wf(h),
{
    if is_blank(line) {
        return ReadLine::Skipped;
    }
    let (hash, rest) = take_field(Some(line.to_owned()));
    let (committed, rest) = take_field(rest);
    let (authored, rest) = take_field(rest);
    let (parents, rest) = take_field(rest);
    let email = match rest {
        Some(e) => e,
        None => String::new(),
    };
    let committed_at = parse_rfc3339(committed.as_str());
    let authored_at = parse_rfc3339(authored.as_str());
    judge_log_entry(
        LogEntry { hash, committed, parents, email },
        committed_at,
        authored_at,
        identities,
        last_day,
    )
}

pub open spec fn head_wf(h: CommitHead) -> bool {
    h.committed_at.wf() && (h.authored_at matches Some(t) ==> t.wf()) && h.parent_count <= 1
}

/// Reads the commits that count from a log: those by one of the committers, with
/// at most one parent, and dated no later than `last_day`. Says too whether one
/// was left out as dated too far ahead. Fails at the first time that cannot be
/// read.
pub fn read_log(log: &str, identities: &[String], last_day: i64) -> (r: Result<
    (Vec<CommitHead>, bool),
    GitScanError,
>)
    ensures
        ({
            let m = read_log_spec(log@, texts(identities@), last_day as int);
            match r {
                Ok(p) => m.unreadable is None && head_models(p.0@) == m.heads && p.1 == m.ahead
                    && forall|i: int| 0 <= i < p.0@.len() ==> head_wf(#[trigger] p.0@[i]),
                Err(e) => m.unreadable is Some && (e matches GitScanError::InvalidTimestamp { value }
                    && Some(value@) == m.unreadable),
            }
        }),
{
    let lines = split_ended_lines(log);
    let ghost all = ended_lines(log@);
    let ghost ids = texts(identities@);
    let ghost last = last_day as int;
    let mut heads: Vec<CommitHead> = Vec::new();
    let mut ahead = false;
    let mut i: usize = 0;
    proof {
        assert(head_models(heads@) =~= Seq::empty());
        assert(all.len() == lines@.len());
    }
    while i < lines.len()
        invariant
            all == texts(lines@),
            all == ended_lines(log@),
            all.len() == lines@.len(),
            ids == texts(identities@),
            last == last_day as int,
            i <= lines.len(),
            log_upto(all, ids, last, i as int) == (LogModel {
                heads: head_models(heads@),
                ahead,
                unreadable: None,
            }),
            forall|k: int| 0 <= k < heads@.len() ==> head_wf(#[trigger] heads@[k]),
        decreases lines.len() - i,
    {
        proof {
            assert(all[i as int] == lines@[i as int]@);
        }
        match read_log_line(lines[i].as_str(), identities, last_day) {
            ReadLine::Skipped => {},
            ReadLine::Ahead => {
                ahead = true;
            },
            ReadLine::Unreadable(value) => {
                proof {
                    lemma_unreadable_stays(all, ids, last, i + 1, all.len() as int);
                }
                return Err(GitScanError::InvalidTimestamp { value });
            },
            ReadLine::Counted(head) => {
                let ghost before = head_models(heads@);
                heads.push(head);
                proof {
                    assert(head_models(heads@) =~= before.push(head.model()));
                }
            },
        }
        i = i + 1;
    }
    Ok((heads, ahead))
}

proof fn lemma_unreadable_stays(
    lines: Seq<Seq<char>>,
    identities: Seq<Seq<char>>,
    last_day: int,
    i: int,
    n: int,
)
    requires
        0 <= i <= n,
        log_upto(lines, identities, last_day, i).unreadable is Some,
    ensures
        log_upto(lines, identities, last_day, n) == log_upto(lines, identities, last_day, i),
    decreases n,
{
    if i < n {
        lemma_unreadable_stays(lines, identities, last_day, i, n - 1);
    }
}

// ---------------------------------------------------------------------------
// Patches
// ---------------------------------------------------------------------------

/// The change of one file, as a value.
#[verifier::ext_equal]
pub struct FileModel {
    pub path: Seq<char>,
    pub category: CodeCategory,
    pub counts: CodeLineCounts,
    pub added: Seq<Seq<char>>,
    pub deleted: Seq<Seq<char>>,
}

impl GitFileChange {
    pub open spec fn model(self) -> FileModel {
        FileModel {
            path: self.relative_path@,
            category: self.category,
            counts: self.counts,
            added: texts(self.added_line_fingerprints@),
            deleted: texts(self.deleted_line_fingerprints@),
        }
    }
}

pub open spec fn file_models(v: Seq<GitFileChange>) -> Seq<FileModel> {
    v.map_values(|f: GitFileChange| f.model())
}

pub open spec fn file_of(m: Mutation) -> FileModel {
    FileModel {
        path: m.path,
        category: m.category,
        counts: CodeLineCounts {
            unclassified_lines_written: m.written,
            ..CodeLineCounts::classified_spec(
                m.category,
                m.additions.len() as u64,
                m.deletions.len() as u64,
            )
        },
        added: fingerprints(m.additions),
        deleted: fingerprints(m.deletions),
    }
}

/// The code files that a patch changes.
pub open spec fn patch_files(patch: Seq<char>) -> Seq<FileModel> {
    read_patch(None, patch).edits.map_values(|m: Mutation| file_of(m))
}

/// The code files that a patch changes, without where the patch comes from.
pub fn git_files_from_patch(patch: &str) -> (r: Vec<GitFileChange>)
    ensures
        file_models(r@) == patch_files(patch@),
{
    let source = SourceId("git".to_owned());
    let context = TraceEditContext {
        provider: "git",
        source_id: &source,
        cache_key: "git",
        conversation_id: "git",
        source_record_id: "git",
        occurred_at: None,
        project: None,
        repository_path: None,
    };
    let parsed = parse_unified_patch(&context, patch);
    let ghost m = read_patch(None, patch@).edits;
    let edits = parsed.edits;
    let mut out: Vec<GitFileChange> = Vec::new();
    let mut i: usize = 0;
    while i < edits.len()
        invariant
            records_all(edits@, context, m),
            i <= edits.len(),
            out.len() == i,
            forall|k: int| 0 <= k < i ==> (#[trigger] out@[k]).model() == file_of(m[k]),
        decreases edits.len() - i,
    {
        let edit = &edits[i];
        proof {
            assert(records(edits@[i as int], context, m[i as int]));
        }
        out.push(
            GitFileChange {
                relative_path: edit.relative_path.clone(),
                category: edit.category,
                counts: edit.counts,
                added_line_fingerprints: copy_texts(&edit.added_line_fingerprints),
                deleted_line_fingerprints: copy_texts(&edit.deleted_line_fingerprints),
            },
        );
        i = i + 1;
    }
    proof {
        assert(file_models(out@) =~= patch_files(patch@));
    }
    out
}

/// The files of one commit.
#[derive(Debug, Clone, PartialEq, Eq)]
pub struct CommitPatch {
    pub commit_hash: String,
    pub files: Vec<GitFileChange>,
}

impl CommitPatch {
    pub open spec fn model(self) -> (Seq<char>, Seq<FileModel>) {
        (self.commit_hash@, file_models(self.files@))
    }
}

pub open spec fn patch_models(v: Seq<CommitPatch>) -> Seq<(Seq<char>, Seq<FileModel>)> {
    v.map_values(|p: CommitPatch| p.model())
}

/// The commits' files among the first `n` records of a patch log. A record
/// without the mark between hash and patch is none.
pub open spec fn records_upto(parts: Seq<Seq<char>>, n: int) -> Seq<(Seq<char>, Seq<FileModel>)>
    decreases n,
{
    if n <= 1 {
        Seq::empty()
    } else {
        let before = records_upto(parts, n - 1);
        match split_first(parts[n - 1], "\u{1f}"@) {
            Some(p) => before.push((trimmed(p.0), patch_files(p.1))),
            None => before,
        }
    }
}

/// The commits' files that a patch log holds. Each record starts with a mark;
/// what precedes the first one is none.
pub open spec fn patch_log_spec(output: Seq<char>) -> Seq<(Seq<char>, Seq<FileModel>)> {
    let parts = split_on(output, '\u{1e}');
    records_upto(parts, parts.len() as int)
}

pub fn read_patch_log(output: &str) -> (r: Vec<CommitPatch>)
    ensures
        patch_models(r@) == patch_log_spec(output@),
{
    let parts = split_char(output, '\u{1e}');
    let ghost all = split_on(output@, '\u{1e}');
    let mut out: Vec<CommitPatch> = Vec::new();
    let mut i: usize = 1;
    proof {
        assert(all.len() == parts@.len());
        assert(patch_models(out@) =~= Seq::empty());
    }
    while i < parts.len()
        invariant
            all == texts(parts@),
            all == split_on(output@, '\u{1e}'),
            1 <= i <= parts.len(),
            patch_models(out@) == records_upto(all, i as int),
        decreases parts.len() - i,
    {
        proof {
            assert(all[i as int] == parts@[i as int]@);
        }
        match split_once(parts[i].as_str(), "\u{1f}") {
            Some((hash, patch)) => {
                let ghost before = patch_models(out@);
                let record = CommitPatch {
                    commit_hash: trim(hash.as_str()),
                    files: git_files_from_patch(patch.as_str()),
                };
                out.push(record);
                proof {
                    assert(patch_models(out@) =~= before.push(record.model()));
                }
            },
            None => {},
        }
        i = i + 1;
    }
    out
}

// ---------------------------------------------------------------------------
// Scanning
// ---------------------------------------------------------------------------

/// Whether `out` are, in order, the identities known before and the one of the
/// address configured now.
pub open spec fn are_identities(out: Seq<Seq<char>>, known: Seq<Seq<char>>, email: Seq<char>) -> bool {
    &&& texts_increase(out)
    &&& forall|x: Seq<char>|
        out.contains(x) == (known.contains(x) || (!blank(email) && x == identity_hash(
            trimmed(email),
        )))
}

/// The committers whose commits count in a scan of the repository at `root`.
/// Fails where none was ever known.
pub fn scan_identities(root: &str, known: &[String], configured_email: &str) -> (r: Result<
    Vec<String>,
    GitScanError,
>)
    ensures
        match r {
            Ok(v) => are_identities(texts(v@), texts(known@), configured_email@) && v@.len() > 0,
            Err(e) => known@.len() == 0 && blank(configured_email@) && (
            e matches GitScanError::UnknownCommitterIdentity(p) && p@ == root@),
        },
{
    let mut out: Vec<String> = Vec::new();
    let ghost all = texts(known@);
    let mut i: usize = 0;
    proof {
        assert(texts(out@) =~= Seq::empty());
        assert(all.take(0) =~= Seq::empty());
    }
    while i < known.len()
        invariant
            all == texts(known@),
            i <= known.len(),
            texts_increase(texts(out@)),
            forall|x: Seq<char>| texts(out@).contains(x) == all.take(i as int).contains(x),
        decreases known.len() - i,
    {
        let ghost before = texts(out@);
        insert_text(&mut out, known[i].as_str());
        proof {
            let now = all.take(i as int);
            let next = all.take(i + 1);
            assert(next =~= now.push(all[i as int]));
            assert(all[i as int] == known@[i as int]@);
            assert forall|x: Seq<char>| texts(out@).contains(x) == next.contains(x) by {
                if now.contains(x) {
                    let k = choose|k: int| 0 <= k < now.len() && now[k] == x;
                    assert(next[k] == x);
                }
                if x == all[i as int] {
                    assert(next[i as int] == x);
                }
                if next.contains(x) {
                    let k = choose|k: int| 0 <= k < next.len() && next[k] == x;
                    if k < i {
                        assert(now[k] == x);
                    }
                }
            }
        }
        i = i + 1;
    }
    proof {
        assert(all.take(i as int) =~= all);
    }
    let email = trim(configured_email);
    if !email.as_str().is_empty() {
        let h = committer_identity_hash(email.as_str());
        insert_text(&mut out, h.as_str());
        proof {
            assert(texts(out@).contains(h@));
        }
    }
    proof {
        assert(texts(out@).len() == out@.len());
        if known@.len() > 0 {
            assert(all[0] == known@[0]@);
            assert(all.contains(all[0]));
            assert(texts(out@).contains(all[0]));
        }
    }
    if out.len() == 0 {
        Err(GitScanError::UnknownCommitterIdentity(root.to_owned()))
    } else {
        Ok(out)
    }
}

#[verifier::ext_equal]
pub struct CommitModel {
    pub deduplication_id: Seq<char>,
    pub repository_hash: Seq<char>,
    pub commit_hash: Seq<char>,
    pub committed_at: Timestamp,
    pub authored_at: Option<Timestamp>,
    pub parent_count: int,
    pub project_id: Option<Seq<char>>,
    pub files: Seq<FileModel>,
}

impl GitCommitChange {
    pub open spec fn model(self) -> CommitModel {
        CommitModel {
            deduplication_id: self.deduplication_id@,
            repository_hash: self.repository_hash@,
            commit_hash: self.commit_hash@,
            committed_at: self.committed_at,
            authored_at: self.authored_at,
            parent_count: self.parent_count as int,
            project_id: opt_text(self.project_id),
            files: file_models(self.files@),
        }
    }
}

pub open spec fn commit_models(v: Seq<GitCommitChange>) -> Seq<CommitModel> {
    v.map_values(|c: GitCommitChange| c.model())
}

/// The files of the last of the commits with this hash.
pub open spec fn cached_files(cached: Seq<CommitModel>, hash: Seq<char>) -> Option<Seq<FileModel>>
    decreases cached.len(),
{
    if cached.len() == 0 {
        None
    } else if cached.last().commit_hash == hash {
        Some(cached.last().files)
    } else {
        cached_files(cached.drop_last(), hash)
    }
}

/// The files of the last of the patches with this hash.
pub open spec fn patched_files(patches: Seq<(Seq<char>, Seq<FileModel>)>, hash: Seq<char>) -> Option<
    Seq<FileModel>,
>
    decreases patches.len(),
{
    if patches.len() == 0 {
        None
    } else if patches.last().0 == hash {
        Some(patches.last().1)
    } else {
        patched_files(patches.drop_last(), hash)
    }
}

pub open spec fn hash_before(heads: Seq<HeadModel>, n: int) -> bool {
    exists|k: int| 0 <= k < n && (#[trigger] heads[k]).commit_hash == heads[n].commit_hash
}

/// The files of the commit at `n`: those of an earlier scan, else those of its
/// patch, which serves one commit only.
pub open spec fn files_for(
    heads: Seq<HeadModel>,
    n: int,
    cached: Seq<CommitModel>,
    patches: Seq<(Seq<char>, Seq<FileModel>)>,
) -> Option<Seq<FileModel>> {
    match cached_files(cached, heads[n].commit_hash) {
        Some(f) => Some(f),
        None => if hash_before(heads, n) {
            None
        } else {
            patched_files(patches, heads[n].commit_hash)
        },
    }
}

pub open spec fn deduplication_spec(repository: Seq<char>, hash: Seq<char>) -> Seq<char> {
    hash_of(key_of(seq!["git-commit.v1"@, repository, hash]))
}

pub open spec fn commit_of(
    head: HeadModel,
    repository: Seq<char>,
    project: Option<Seq<char>>,
    files: Seq<FileModel>,
) -> CommitModel {
    CommitModel {
        deduplication_id: deduplication_spec(repository, head.commit_hash),
        repository_hash: repository,
        commit_hash: head.commit_hash,
        committed_at: head.committed_at,
        authored_at: head.authored_at,
        parent_count: head.parent_count,
        project_id: project,
        files,
    }
}

/// Whether the files of every commit are at hand.
pub open spec fn all_at_hand(
    heads: Seq<HeadModel>,
    cached: Seq<CommitModel>,
    patches: Seq<(Seq<char>, Seq<FileModel>)>,
) -> bool {
    forall|n: int| 0 <= n < heads.len() ==> #[trigger] files_for(heads, n, cached, patches) is Some
}

/// The commits of a scan.
pub open spec fn scanned_commits(
    heads: Seq<HeadModel>,
    repository: Seq<char>,
    project: Option<Seq<char>>,
    cached: Seq<CommitModel>,
    patches: Seq<(Seq<char>, Seq<FileModel>)>,
) -> Seq<CommitModel> {
    Seq::new(
        heads.len(),
        |n: int| commit_of(heads[n], repository, project, files_for(heads, n, cached, patches)->0),
    )
}

/// The first commit whose files are not at hand.
pub open spec fn first_missing(
    heads: Seq<HeadModel>,
    n: int,
    cached: Seq<CommitModel>,
    patches: Seq<(Seq<char>, Seq<FileModel>)>,
) -> bool {
    &&& 0 <= n < heads.len()
    &&& files_for(heads, n, cached, patches) is None
    &&& forall|k: int| 0 <= k < n ==> #[trigger] files_for(heads, k, cached, patches) is Some
}

fn copy_file(f: &GitFileChange) -> (r: GitFileChange)
    ensures
        r.model() == f.model(),
{
    GitFileChange {
        relative_path: f.relative_path.clone(),
        category: f.category,
        counts: f.counts,
        added_line_fingerprints: copy_texts(&f.added_line_fingerprints),
        deleted_line_fingerprints: copy_texts(&f.deleted_line_fingerprints),
    }
}

fn copy_files(v: &[GitFileChange]) -> (r: Vec<GitFileChange>)
    ensures
        file_models(r@) == file_models(v@),
{
    let mut out: Vec<GitFileChange> = Vec::new();
    let mut i: usize = 0;
    while i < v.len()
        invariant
            i <= v.len(),
            out.len() == i,
            forall|k: int| 0 <= k < i ==> (#[trigger] out@[k]).model() == v@[k].model(),
        decreases v.len() - i,
    {
        out.push(copy_file(&v[i]));
        i = i + 1;
    }
    proof {
        assert(file_models(out@) =~= file_models(v@));
    }
    out
}

fn find_cached(cached: &[GitCommitChange], hash: &str) -> (r: Option<Vec<GitFileChange>>)
    ensures
        match r {
            Some(f) => cached_files(commit_models(cached@), hash@) == Some(file_models(f@)),
            None => cached_files(commit_models(cached@), hash@) is None,
        },
{
    let ghost all = commit_models(cached@);
    let mut n: usize = cached.len();
    proof {
        assert(all.take(n as int) =~= all);
    }
    while n > 0
        invariant
            all == commit_models(cached@),
            n <= cached.len(),
            cached_files(all, hash@) == cached_files(all.take(n as int), hash@),
        decreases n,
    {
        proof {
            assert(all.take(n as int).last() == cached@[n - 1].model());
            assert(all.take(n as int).drop_last() =~= all.take(n - 1));
        }
        if same_text(cached[n - 1].commit_hash.as_str(), hash) {
            return Some(copy_files(&cached[n - 1].files));
        }
        n = n - 1;
    }
    None
}

fn find_patch(patches: &[CommitPatch], hash: &str) -> (r: Option<Vec<GitFileChange>>)
    ensures
        match r {
            Some(f) => patched_files(patch_models(patches@), hash@) == Some(file_models(f@)),
            None => patched_files(patch_models(patches@), hash@) is None,
        },
{
    let ghost all = patch_models(patches@);
    let mut n: usize = patches.len();
    proof {
        assert(all.take(n as int) =~= all);
    }
    while n > 0
        invariant
            all == patch_models(patches@),
            n <= patches.len(),
            patched_files(all, hash@) == patched_files(all.take(n as int), hash@),
        decreases n,
    {
        proof {
            assert(all.take(n as int).last() == patches@[n - 1].model());
            assert(all.take(n as int).drop_last() =~= all.take(n - 1));
        }
        if same_text(patches[n - 1].commit_hash.as_str(), hash) {
            return Some(copy_files(&patches[n - 1].files));
        }
        n = n - 1;
    }
    None
}

fn seen_before(heads: &[CommitHead], n: usize) -> (r: bool)
    requires
        n < heads@.len(),
    ensures
        r == hash_before(head_models(heads@), n as int),
{
    let ghost all = head_models(heads@);
    let mut i: usize = 0;
    while i < n
        invariant
            all == head_models(heads@),
            i <= n < heads@.len(),
            forall|k: int| 0 <= k < i ==> (#[trigger] all[k]).commit_hash != all[n as int].commit_hash,
        decreases n - i,
    {
        proof {
            assert(all[i as int] == heads@[i as int].model());
            assert(all[n as int] == heads@[n as int].model());
        }
        if same_text(heads[i].commit_hash.as_str(), heads[n].commit_hash.as_str()) {
            return true;
        }
        i = i + 1;
    }
    false
}

/// The hashes of the commits whose files no earlier scan holds, in order: those
/// whose patches Git is to be asked for.
pub open spec fn uncached_spec(heads: Seq<HeadModel>, cached: Seq<CommitModel>) -> Seq<Seq<char>>
    decreases heads.len(),
{
    if heads.len() == 0 {
        Seq::empty()
    } else {
        let before = uncached_spec(heads.drop_last(), cached);
        if cached_files(cached, heads.last().commit_hash) is Some {
            before
        } else {
            before.push(heads.last().commit_hash)
        }
    }
}

pub fn uncached_hashes(heads: &[CommitHead], cached: &[GitCommitChange]) -> (r: Vec<String>)
    ensures
        texts(r@) == uncached_spec(head_models(heads@), commit_models(cached@)),
{
    let ghost all = head_models(heads@);
    let ghost c = commit_models(cached@);
    let mut out: Vec<String> = Vec::new();
    let mut i: usize = 0;
    proof {
        assert(all.take(0) =~= Seq::empty());
        assert(texts(out@) =~= Seq::empty());
    }
    while i < heads.len()
        invariant
            all == head_models(heads@),
            c == commit_models(cached@),
            i <= heads.len(),
            texts(out@) == uncached_spec(all.take(i as int), c),
        decreases heads.len() - i,
    {
        proof {
            assert(all.take(i + 1).drop_last() =~= all.take(i as int));
            assert(all.take(i + 1).last() == heads@[i as int].model());
        }
        match find_cached(cached, heads[i].commit_hash.as_str()) {
            Some(_) => {},
            None => {
                let ghost before = texts(out@);
                out.push(heads[i].commit_hash.clone());
                proof {
                    assert(texts(out@) =~= before.push(heads@[i as int].commit_hash@));
                }
            },
        }
        i = i + 1;
    }
    proof {
        assert(all.take(i as int) =~= all);
    }
    out
}

/// What a scan of one repository found, as a value.
pub open spec fn is_scan(
    scan: GitScan,
    root: Seq<char>,
    repository: Seq<char>,
    identities: Seq<Seq<char>>,
    log: LogModel,
    commits: Seq<CommitModel>,
) -> bool {
    &&& scan.repository_root@ == root
    &&& scan.repository_hash@ == repository
    &&& texts(scan.committer_identities@) == identities
    &&& commit_models(scan.commits@) == commits
    &&& scan.coverage == if log.ahead {
        CoverageStatus::Partial
    } else {
        CoverageStatus::Complete
    }
}

/// Puts a scan together from commits that count and the patches of those that no
/// earlier scan holds. `ahead` says whether a commit was left out as dated too
/// far ahead. Fails where a commit's patch is missing.
pub fn scan_of_heads(
    root: &str,
    repository_hash: &str,
    project_id: Option<&str>,
    cached_commits: &[GitCommitChange],
    committer_identities: &[String],
    heads: &[CommitHead],
    ahead: bool,
    patches: &[CommitPatch],
) -> (r: Result<GitScan, GitScanError>)
    requires
        forall|i: int| 0 <= i < heads@.len() ==> head_wf(#[trigger] heads@[i]),
    ensures
        ({
            let h = head_models(heads@);
            let m = LogModel { heads: h, ahead, unreadable: None };
            let cached = commit_models(cached_commits@);
            let p = patch_models(patches@);
            match r {
                Ok(scan) => {
                    &&& all_at_hand(h, cached, p)
                    &&& is_scan(
                        scan,
                        root@,
                        repository_hash@,
                        texts(committer_identities@),
                        m,
                        scanned_commits(h, repository_hash@, opt_str(project_id), cached, p),
                    )
                    &&& scans_wf(seq![scan])
                },
                Err(GitScanError::Command { command, message }) => {
                    &&& command@ == "git log --patch"@
                    &&& exists|n: int| #[trigger]
                        first_missing(h, n, cached, p) && message@
                            == "batched patch output omitted commit "@ + h[n].commit_hash
                },
                Err(_) => false,
            }
        }),
{
    let ghost hm = head_models(heads@);
    let ghost cached = commit_models(cached_commits@);
    let ghost pm = patch_models(patches@);
    let ghost project = opt_str(project_id);
    let mut commits: Vec<GitCommitChange> = Vec::new();
    let mut n: usize = 0;
    while n < heads.len()
        invariant
            hm == head_models(heads@),
            cached == commit_models(cached_commits@),
            pm == patch_models(patches@),
            project == opt_str(project_id),
            forall|i: int| 0 <= i < heads@.len() ==> head_wf(#[trigger] heads@[i]),
            n <= heads.len(),
            commits.len() == n,
            forall|k: int| 0 <= k < n ==> #[trigger] files_for(hm, k, cached, pm) is Some,
            forall|k: int|
                0 <= k < n ==> (#[trigger] commits@[k]).model() == commit_of(
                    hm[k],
                    repository_hash@,
                    project,
                    files_for(hm, k, cached, pm)->0,
                ) && commit_times_wf(commits@[k]),
        decreases heads.len() - n,
    {
        let head = &heads[n];
        proof {
            assert(hm[n as int] == head.model());
            assert(head_wf(heads@[n as int]));
        }
        let files = match find_cached(cached_commits, head.commit_hash.as_str()) {
            Some(f) => Some(f),
            None => {
                if seen_before(heads, n) {
                    None
                } else {
                    find_patch(patches, head.commit_hash.as_str())
                }
            },
        };
        match files {
            Some(files) => {
                let parts: [&str; 3] = ["git-commit.v1", repository_hash, head.commit_hash.as_str()];
                proof {
                    assert(strs(parts@) =~= seq![
                        "git-commit.v1"@,
                        repository_hash@,
                        head.commit_hash@,
                    ]);
                }
                let key = key_text(&parts);
                let commit = GitCommitChange {
                    deduplication_id: hash_text(key.as_str()),
                    repository_hash: repository_hash.to_owned(),
                    commit_hash: head.commit_hash.clone(),
                    committed_at: head.committed_at,
                    authored_at: head.authored_at,
                    parent_count: head.parent_count,
                    project_id: match project_id {
                        Some(p) => Some(p.to_owned()),
                        None => None,
                    },
                    files,
                };
                proof {
                    assert(commit.model() == commit_of(
                        hm[n as int],
                        repository_hash@,
                        project,
                        files_for(hm, n as int, cached, pm)->0,
                    ));
                }
                commits.push(commit);
            },
            None => {
                let message = concat2(
                    "batched patch output omitted commit ",
                    head.commit_hash.as_str(),
                );
                proof {
                    assert(first_missing(hm, n as int, cached, pm));
                }
                return Err(
                    GitScanError::Command { command: "git log --patch".to_owned(), message },
                );
            },
        }
        n = n + 1;
    }
    proof {
        assert(commit_models(commits@) =~= scanned_commits(
            hm,
            repository_hash@,
            project,
            cached,
            pm,
        ));
    }
    let scan = GitScan {
        repository_root: root.to_owned(),
        repository_hash: repository_hash.to_owned(),
        commits,
        committer_identities: copy_texts(committer_identities),
        coverage: if ahead {
            CoverageStatus::Partial
        } else {
            CoverageStatus::Complete
        },
    };
    proof {
        assert forall|i: int, j: int|
            0 <= i < seq![scan].len() && 0 <= j < seq![scan][i].commits@.len() implies commit_times_wf(
            #[trigger] seq![scan][i].commits@[j],
        ) by {
            assert(seq![scan][i] == scan);
        }
    }
    Ok(scan)
}

/// Puts a scan together from what Git printed: the log, and the patches of the
/// commits that no earlier scan holds. A commit dated too far ahead is left out
/// and makes the coverage partial. Fails at a time that cannot be read, and where
/// a commit's patch is missing.
pub fn scan_local_git_repository_cached(
    root: &str,
    repository_hash: &str,
    project_id: Option<&str>,
    cached_commits: &[GitCommitChange],
    committer_identities: &[String],
    now: Timestamp,
    log: &str,
    patches: &[CommitPatch],
) -> (r: Result<GitScan, GitScanError>)
    requires
        now.wf(),
        now.secs + MAX_REPORTABLE_FUTURE_DAYS * 86_400 <= MAX_SECONDS,
    ensures
        ({
            let m = read_log_spec(
                log@,
                texts(committer_identities@),
                now.day_spec() + MAX_REPORTABLE_FUTURE_DAYS,
            );
            let cached = commit_models(cached_commits@);
            let p = patch_models(patches@);
            match r {
                Ok(scan) => {
                    &&& m.unreadable is None
                    &&& all_at_hand(m.heads, cached, p)
                    &&& is_scan(
                        scan,
                        root@,
                        repository_hash@,
                        texts(committer_identities@),
                        m,
                        scanned_commits(m.heads, repository_hash@, opt_str(project_id), cached, p),
                    )
                    &&& scans_wf(seq![scan])
                },
                Err(GitScanError::InvalidTimestamp { value }) => m.unreadable == Some(value@),
                Err(GitScanError::Command { command, message }) => {
                    &&& m.unreadable is None
                    &&& command@ == "git log --patch"@
                    &&& exists|n: int| #[trigger]
                        first_missing(m.heads, n, cached, p) && message@
                            == "batched patch output omitted commit "@ + m.heads[n].commit_hash
                },
                Err(_) => false,
            }
        }),
{
    let last_day: i64 = max_reportable_day(now);
    let (heads, ahead) = match read_log(log, committer_identities, last_day) {
        Ok(p) => p,
        Err(e) => return Err(e),
    };
    scan_of_heads(
        root,
        repository_hash,
        project_id,
        cached_commits,
        committer_identities,
        &heads,
        ahead,
        patches,
    )
}

// ---------------------------------------------------------------------------
// What holds of every scan
// ---------------------------------------------------------------------------

proof fn lemma_log_heads(
    lines: Seq<Seq<char>>,
    identities: Seq<Seq<char>>,
    last_day: int,
    n: int,
)
    ensures
        forall|k: int|
            0 <= k < log_upto(lines, identities, last_day, n).heads.len() ==> (
            #[trigger] log_upto(lines, identities, last_day, n).heads[k]).parent_count <= 1
                && log_upto(lines, identities, last_day, n).heads[k].committed_at.day_spec()
                <= last_day,
    decreases n,
{
    if n > 0 {
        lemma_log_heads(lines, identities, last_day, n - 1);
    }
}

/// A scan holds no merge, and no commit dated beyond the last reportable day.
pub proof fn scans_hold_no_merges_and_no_commits_ahead(
    log: Seq<char>,
    identities: Seq<Seq<char>>,
    last_day: int,
    repository: Seq<char>,
    project: Option<Seq<char>>,
    cached: Seq<CommitModel>,
    patches: Seq<(Seq<char>, Seq<FileModel>)>,
    k: int,
)
    requires
        0 <= k < scanned_commits(
            read_log_spec(log, identities, last_day).heads,
            repository,
            project,
            cached,
            patches,
        ).len(),
    ensures
        ({
            let c = scanned_commits(
                read_log_spec(log, identities, last_day).heads,
                repository,
                project,
                cached,
                patches,
            )[k];
            c.parent_count <= 1 && c.committed_at.day_spec() <= last_day
        }),
{
    let lines = ended_lines(log);
    lemma_log_heads(lines, identities, last_day, lines.len() as int);
}

proof fn lemma_cached_drop(cached: Seq<CommitModel>, hash: Seq<char>, n: int)
    requires
        0 <= n < cached.len(),
        cached[n].commit_hash == hash,
    ensures
        cached_files(cached, hash) is Some,
    decreases cached.len(),
{
    if cached.last().commit_hash != hash {
        lemma_cached_drop(cached.drop_last(), hash, n);
    }
}

proof fn lemma_uncached_empty(heads: Seq<HeadModel>, cached: Seq<CommitModel>)
    requires
        forall|k: int|
            0 <= k < heads.len() ==> cached_files(cached, (#[trigger] heads[k]).commit_hash) is Some,
    ensures
        uncached_spec(heads, cached).len() == 0,
    decreases heads.len(),
{
    if heads.len() > 0 {
        assert forall|k: int| 0 <= k < heads.drop_last().len() implies cached_files(
            cached,
            (#[trigger] heads.drop_last()[k]).commit_hash,
        ) is Some by {
            assert(heads.drop_last()[k] == heads[k]);
        }
        lemma_uncached_empty(heads.drop_last(), cached);
        assert(heads.last() == heads[heads.len() - 1]);
    }
}

/// A second scan of the same commits, with the commits of the first at hand, asks
/// Git for no patch.
pub proof fn a_repeated_scan_asks_for_no_patch(heads: Seq<HeadModel>, cached: Seq<CommitModel>)
    requires
        forall|k: int|
            0 <= k < heads.len() ==> exists|n: int|
                0 <= n < cached.len() && (#[trigger] cached[n]).commit_hash == (
                #[trigger] heads[k]).commit_hash,
    ensures
        uncached_spec(heads, cached).len() == 0,
{
    assert forall|k: int| 0 <= k < heads.len() implies cached_files(
        cached,
        (#[trigger] heads[k]).commit_hash,
    ) is Some by {
        let n = choose|n: int|
            0 <= n < cached.len() && (#[trigger] cached[n]).commit_hash == heads[k].commit_hash;
        lemma_cached_drop(cached, heads[k].commit_hash, n);
    }
    lemma_uncached_empty(heads, cached);
}

/// A scan that reuses nothing of an earlier one.
pub fn scan_local_git_repository(
    root: &str,
    repository_hash: &str,
    project_id: Option<&str>,
    committer_identities: &[String],
    now: Timestamp,
    log: &str,
    patches: &[CommitPatch],
) -> (r: Result<GitScan, GitScanError>)
    requires
        now.wf(),
        now.secs + MAX_REPORTABLE_FUTURE_DAYS * 86_400 <= MAX_SECONDS,
    ensures
        ({
            let m = read_log_spec(
                log@,
                texts(committer_identities@),
                now.day_spec() + MAX_REPORTABLE_FUTURE_DAYS,
            );
            let none = commit_models(Seq::empty());
            let p = patch_models(patches@);
            match r {
                Ok(scan) => {
                    &&& m.unreadable is None
                    &&& all_at_hand(m.heads, none, p)
                    &&& is_scan(
                        scan,
                        root@,
                        repository_hash@,
                        texts(committer_identities@),
                        m,
                        scanned_commits(m.heads, repository_hash@, opt_str(project_id), none, p),
                    )
                    &&& scans_wf(seq![scan])
                },
                Err(GitScanError::InvalidTimestamp { value }) => m.unreadable == Some(value@),
                Err(GitScanError::Command { command, message }) => {
                    &&& m.unreadable is None
                    &&& command@ == "git log --patch"@
                    &&& exists|n: int| #[trigger]
                        first_missing(m.heads, n, none, p) && message@
                            == "batched patch output omitted commit "@ + m.heads[n].commit_hash
                },
                Err(_) => false,
            }
        }),
{
    let none: Vec<GitCommitChange> = Vec::new();
    scan_local_git_repository_cached(
        root,
        repository_hash,
        project_id,
        &none,
        committer_identities,
        now,
        log,
        patches,
    )
}

} // verus!
