use statsai::code_types::{
    CodeChangeMetricKind, CoverageStatus, GitCommitChange, GitScan, GitScanError,
};
use statsai::git::{
    committer_identity_hash, normalize_git_remote, observation_argument, output_text,
    read_log, read_patch_log, repository_identity_hash, resolve_git_repository_root,
    scan_identities, scan_local_git_repository, scan_local_git_repository_cached,
    uncached_hashes, CommitPatch, GIT_PATCH_BATCH_SIZE,
};
use statsai::metrics::{build_code_change_metrics, CommittedMetricId};
use statsai::time::{parse_rfc3339, Timestamp};

fn at(text: &str) -> Timestamp {
    parse_rfc3339(text).unwrap()
}

fn now() -> Timestamp {
    at("2026-08-10T12:00:00Z")
}

/// A commit as the log prints it.
fn entry(hash: &str, committed: &str, parents: &str, email: &str) -> String {
    format!("{hash}\t{committed}\t{committed}\t{parents}\t{email}\n")
}

/// A commit's patch as the log prints it: one new file with these lines.
fn new_file(hash: &str, path: &str, lines: &[&str]) -> String {
    let body: String = lines.iter().map(|line| format!("+{line}\n")).collect();
    format!(
        "\u{1e}{hash}\u{1f}\n\ndiff --git a/{path} b/{path}\nnew file mode 100644\n\
         index 0000000..1111111\n--- /dev/null\n+++ b/{path}\n@@ -0,0 +1,{} @@\n{body}",
        lines.len()
    )
}

fn identities(email: &str) -> Vec<String> {
    scan_identities("/repo", &[], email).unwrap()
}

fn scan_with(
    repository_hash: &str,
    project: Option<&str>,
    identities: &[String],
    log: &str,
    patches: &str,
) -> GitScan {
    let patches = read_patch_log(patches);
    scan_local_git_repository(
        "/repo",
        repository_hash,
        project,
        identities,
        now(),
        log,
        &patches,
    )
    .unwrap()
}

const ME: &str = "test@example.com";

#[test]
fn local_git_scan_counts_commits_without_remote_access() {
    let scan = scan_with(
        "hash",
        Some("project"),
        &identities(ME),
        &entry("c1", "2026-08-09T10:00:00+00:00", "", ME),
        &new_file("c1", "src/lib.rs", &["one", "two"]),
    );
    assert_eq!(scan.commits.len(), 1);
    assert_eq!(scan.commits[0].files[0].counts.source_additions, 2);
    assert_eq!(scan.commits[0].files[0].counts.source_deletions, 0);
    assert_eq!(scan.commits[0].project_id.as_deref(), Some("project"));
}

#[test]
fn git_scan_fails_only_when_no_committer_identity_has_ever_been_known() {
    let known = identities(ME);
    // A repository seen for the first time without an identity cannot say whose
    // commits it holds.
    let unknown = scan_identities("/repo", &[], " \n");
    assert!(matches!(
        unknown,
        Err(GitScanError::UnknownCommitterIdentity(_))
    ));
    // One remembered identity answers it.
    let remembered = scan_identities("/repo", &known, "").unwrap();
    let scan = scan_with(
        "hash",
        None,
        &remembered,
        &entry("c1", "2026-08-09T10:00:00+00:00", "", ME),
        &new_file("c1", "lib.rs", &["one"]),
    );
    assert_eq!(scan.commits.len(), 1);
    assert_eq!(scan.coverage, CoverageStatus::Complete);
    assert_eq!(scan.committer_identities, [committer_identity_hash(ME)]);
}

#[test]
fn git_scan_matches_every_identity_the_repository_is_known_by() {
    let log = entry("c2", "2026-08-09T11:00:00+00:00", "c1", "second@example.com")
        + &entry("c1", "2026-08-09T10:00:00+00:00", "", "first@example.com");
    let patches =
        new_file("c2", "b.rs", &["two"]) + &new_file("c1", "a.rs", &["one"]);
    let configured_only = scan_with(
        "hash",
        None,
        &identities("second@example.com"),
        &log,
        &patches,
    );
    assert_eq!(configured_only.commits.len(), 1);

    let known = identities("first@example.com");
    let both = scan_identities("/repo", &known, "second@example.com").unwrap();
    let scan = scan_with("hash", None, &both, &log, &patches);
    assert_eq!(scan.commits.len(), 2);
    let mut expected = vec![
        committer_identity_hash("first@example.com"),
        committer_identity_hash("second@example.com"),
    ];
    expected.sort();
    assert_eq!(scan.committer_identities, expected);
}

#[test]
fn committer_identity_hash_ignores_case_and_surrounding_space() {
    assert_eq!(
        committer_identity_hash("  Test@Example.COM \n"),
        committer_identity_hash("test@example.com")
    );
    assert_ne!(
        committer_identity_hash("test@example.com"),
        committer_identity_hash("other@example.com")
    );
}

#[test]
fn git_scan_only_counts_recent_local_branch_commits_from_configured_identity() {
    assert_eq!(
        observation_argument(now()),
        "--since=2026-05-12T12:00:00+00:00"
    );
    let log = entry("c2", "2026-08-09T10:00:00+00:00", "c1", ME)
        + &entry("c1", "2026-08-08T10:00:00+00:00", "c0", "other@example.com");
    let patches = new_file("c2", "recent.rs", &["recent"]);
    let scan = scan_with("hash", None, &identities(ME), &log, &patches);

    assert_eq!(scan.commits.len(), 1);
    assert!(scan.commits[0]
        .files
        .iter()
        .any(|file| file.relative_path == "recent.rs"));
}

#[test]
fn cached_git_scan_reuses_reachable_commits_and_inspects_new_commits() {
    let first = entry("c1", "2026-08-08T10:00:00+00:00", "", ME);
    let mut cached = scan_with(
        "hash",
        None,
        &identities(ME),
        &first,
        &new_file("c1", "first.rs", &["first"]),
    );
    cached.commits[0].files[0].counts.source_additions = 99;

    let log = entry("c2", "2026-08-09T10:00:00+00:00", "c1", ME) + &first;
    let (heads, _) = read_log(&log, &identities(ME), now().day() + 1).unwrap();
    assert_eq!(uncached_hashes(&heads, &cached.commits), vec!["c2"]);
    let patches = read_patch_log(&new_file("c2", "second.rs", &["second"]));
    let refreshed = scan_local_git_repository_cached(
        "/repo",
        "hash",
        None,
        &cached.commits,
        &identities(ME),
        now(),
        &log,
        &patches,
    )
    .unwrap();
    assert_eq!(refreshed.commits.len(), 2);
    let reused = refreshed
        .commits
        .iter()
        .find(|commit| commit.commit_hash == "c1")
        .expect("cached commit remains reachable");
    assert_eq!(reused.files[0].counts.source_additions, 99);
    assert!(refreshed.commits.iter().any(|commit| {
        commit
            .files
            .iter()
            .any(|file| file.relative_path == "second.rs")
    }));
    let (heads, _) = read_log(&log, &identities(ME), now().day() + 1).unwrap();
    assert!(uncached_hashes(&heads, &refreshed.commits).is_empty());
}

#[test]
fn initial_git_scan_batches_uncached_commit_patches() {
    let mut log = String::new();
    let mut patches = String::new();
    for index in 0..3 {
        let hash = format!("c{index}");
        log += &entry(&hash, "2026-08-09T10:00:00+00:00", "p", ME);
        patches += &new_file(&hash, &format!("file-{index}.rs"), &["x"]);
    }
    let (heads, _) = read_log(&log, &identities(ME), now().day() + 1).unwrap();
    let wanted = uncached_hashes(&heads, &[]);
    assert_eq!(wanted.len(), 3);
    assert_eq!(wanted.chunks(GIT_PATCH_BATCH_SIZE).count(), 1);
    let scan = scan_with("hash", None, &identities(ME), &log, &patches);
    assert_eq!(scan.commits.len(), 3);
}

#[test]
fn git_scan_handles_renames_and_excludes_binary_files() {
    let log = entry("c3", "2026-08-09T12:00:00+00:00", "c2", ME)
        + &entry("c2", "2026-08-09T11:00:00+00:00", "c1", ME)
        + &entry("c1", "2026-08-09T10:00:00+00:00", "", ME);
    let renamed = "\u{1e}c3\u{1f}\n\ndiff --git a/src/lib.rs b/src/main.rs\nsimilarity index 57%\n\
        rename from src/lib.rs\nrename to src/main.rs\nindex 814f4a4..4cb29ea 100644\n\
        --- a/src/lib.rs\n+++ b/src/main.rs\n@@ -2,0 +3 @@ two\n+three\n";
    let binary = "\u{1e}c2\u{1f}\n\ndiff --git a/image.bin b/image.bin\nnew file mode 100644\n\
        index 0000000..1d83f6b\nBinary files /dev/null and b/image.bin differ\n";
    let patches = renamed.to_string() + binary + &new_file("c1", "src/lib.rs", &["one", "two"]);
    let scan = scan_with("hash", None, &identities(ME), &log, &patches);
    assert_eq!(scan.commits.len(), 3);
    let binary_commit = scan
        .commits
        .iter()
        .find(|commit| commit.files.is_empty())
        .expect("binary-only commit is excluded");
    assert_eq!(binary_commit.commit_hash, "c2");
    let renamed = scan
        .commits
        .iter()
        .flat_map(|commit| &commit.files)
        .find(|file| file.relative_path == "src/main.rs")
        .expect("renamed file");
    assert_eq!(renamed.counts.source_additions, 1);
}

#[test]
fn git_scan_handles_linked_worktrees_branches_and_merges() {
    // Both trees see the same branches; only what their heads name comes first.
    let base = entry("c0", "2026-08-09T09:00:00+00:00", "", ME);
    let feature = entry("c1", "2026-08-09T10:00:00+00:00", "c0", ME);
    let main = entry("c2", "2026-08-09T11:00:00+00:00", "c0", ME);
    let merge = entry("m", "2026-08-09T12:00:00+00:00", "c2 c1", ME);
    let patches = new_file("c2", "main.rs", &["main"])
        + &new_file("c1", "feature.rs", &["feature"])
        + &new_file("c0", "base.rs", &["base"]);
    let scan = |tree: &str, log: &str| {
        let root = resolve_git_repository_root(tree, &format!("{tree}\n")).unwrap();
        let hash = repository_identity_hash(&root, "", "c0\n");
        scan_local_git_repository(
            &root,
            &hash,
            None,
            &identities(ME),
            now(),
            log,
            &read_patch_log(&patches),
        )
        .unwrap()
    };
    let main_scan = scan("/repository", &format!("{merge}{main}{feature}{base}"));
    let worktree_scan = scan("/feature-worktree", &format!("{feature}{merge}{main}{base}"));
    assert_eq!(main_scan.repository_hash, worktree_scan.repository_hash);
    assert_eq!(main_scan.commits.len(), worktree_scan.commits.len());
    assert_eq!(main_scan.commits.len(), 3);
    assert!(
        main_scan
            .commits
            .iter()
            .all(|commit| commit.parent_count <= 1),
        "merge commits replay branch churn and must not be counted"
    );
    assert_eq!(
        main_scan
            .commits
            .iter()
            .flat_map(|commit| &commit.files)
            .filter(|file| file.relative_path == "feature.rs")
            .map(|file| file.counts.source_additions)
            .sum::<u64>(),
        1,
        "a merged branch's additions are counted once"
    );
    assert_eq!(
        resolve_git_repository_root("/repo/src", "/repo\n"),
        Ok("/repo".to_string())
    );
}

#[test]
fn repository_identity_normalizes_ssh_and_https_origin_urls() {
    let ssh = repository_identity_hash("/repo", "git@github.com:Owner/Repo.git", "");
    let https = repository_identity_hash("/repo", "https://github.com/Owner/Repo.git\n", "");
    assert_eq!(ssh, https);
    assert_eq!(
        normalize_git_remote("ssh://git@github.com/Owner/Repo.git/").as_deref(),
        Some("github.com/owner/repo")
    );
    assert_eq!(normalize_git_remote(" / "), None);
    assert_eq!(normalize_git_remote("repo"), None);
    let log = entry("c1", "2026-08-09T10:00:00+00:00", "", ME);
    let patches = new_file("c1", "main.rs", &["fn main() {}"]);
    let a = scan_with(&ssh, None, &identities(ME), &log, &patches);
    let b = scan_with(&https, None, &identities(ME), &log, &patches);
    assert_eq!(a.repository_hash, b.repository_hash);
    assert_eq!(a.commits[0].deduplication_id, b.commits[0].deduplication_id);
}

#[test]
fn remote_repository_identity_ignores_different_local_root_sets() {
    let remote = "https://github.com/owner/repository.git";
    let initial_hash = repository_identity_hash("/repo", remote, "root1\n");
    let expanded_hash = repository_identity_hash("/repo", remote, "root1\nroot2\n");
    let shared = entry("root1", "2026-08-09T10:00:00+00:00", "", ME);
    let shared_patch = new_file("root1", "main.rs", &["fn main() {}"]);
    let initial_scan =
        scan_with(&initial_hash, None, &identities(ME), &shared, &shared_patch);
    let expanded_scan = scan_with(
        &expanded_hash,
        None,
        &identities(ME),
        &(entry("root2", "2026-08-09T11:00:00+00:00", "", ME) + &shared),
        &(new_file("root2", "unrelated.rs", &["pub fn unrelated() {}"]) + &shared_patch),
    );

    assert_eq!(initial_scan.repository_hash, expanded_scan.repository_hash);
    assert_eq!(expanded_scan.commits.len(), 2);
    let metric_key = |scan: &GitScan| {
        scan.commits
            .iter()
            .find(|commit| commit.commit_hash == "root1")
            .unwrap()
            .deduplication_id
            .clone()
    };
    assert_eq!(metric_key(&initial_scan), metric_key(&expanded_scan));
}

#[test]
fn rebased_commits_replace_unreachable_ids_and_deduplicate_across_devices() {
    let log = entry("new", "2026-08-09T11:00:00+00:00", "base", ME)
        + &entry("base", "2026-08-09T10:00:00+00:00", "", ME);
    let patches =
        new_file("new", "feature.rs", &["after"]) + &new_file("base", "base.rs", &["base"]);
    let old = GitCommitChange {
        deduplication_id: "old".to_string(),
        repository_hash: "hash".to_string(),
        commit_hash: "old".to_string(),
        committed_at: at("2026-08-09T10:30:00Z"),
        authored_at: None,
        parent_count: 1,
        project_id: None,
        files: Vec::new(),
    };
    let scan = scan_local_git_repository_cached(
        "/repo",
        "hash",
        None,
        &[old],
        &identities(ME),
        now(),
        &log,
        &read_patch_log(&patches),
    )
    .unwrap();
    assert!(scan.commits.iter().any(|commit| commit.commit_hash == "new"));
    assert!(!scan.commits.iter().any(|commit| commit.commit_hash == "old"));
    let ids: Vec<CommittedMetricId> = scan
        .commits
        .iter()
        .enumerate()
        .map(|(index, commit)| CommittedMetricId {
            deduplication_id: commit.deduplication_id.clone(),
            metric_id: format!("opaque-commit-{index}"),
        })
        .collect();
    let committed = |device: &str| {
        let build = build_code_change_metrics(
            now(),
            device,
            &[],
            std::slice::from_ref(&scan),
            &[],
            &ids,
            CoverageStatus::Unavailable,
            &[],
        )
        .unwrap();
        let mut metric_ids: Vec<String> = build
            .metrics
            .into_iter()
            .filter(|metric| metric.kind == CodeChangeMetricKind::Committed)
            .map(|metric| metric.metric_id)
            .collect();
        metric_ids.sort();
        metric_ids
    };
    assert_eq!(committed("device-a").len(), 2);
    assert_eq!(committed("device-a"), committed("device-b"));
    assert!(build_code_change_metrics(
        now(),
        "device",
        &[],
        std::slice::from_ref(&scan),
        &[],
        &[],
        CoverageStatus::Unavailable,
        &[],
    )
    .is_err());
}

#[test]
fn commitless_repositories_without_a_remote_do_not_share_one_identity() {
    let first = repository_identity_hash("/first", "", "");
    let second = repository_identity_hash("/second", "\n", "");
    assert_ne!(
        first, second,
        "unrelated repositories must not merge before their first commit"
    );
    let committed = repository_identity_hash("/first", "", "root1\n");
    assert_ne!(committed, first);
    assert_eq!(
        repository_identity_hash("/elsewhere", "", "b\na\n"),
        repository_identity_hash("/first", "", "a\nb\n")
    );
}

#[test]
fn clock_skewed_commits_are_left_unmeasured_instead_of_poisoning_the_batch() {
    let log = entry("skewed", "2026-09-09T10:00:00+00:00", "current", ME)
        + &entry("current", "2026-08-10T10:00:00+00:00", "", ME);
    let patches = new_file("current", "now.rs", &["now"]);
    let scan = scan_with("hash", None, &identities(ME), &log, &patches);

    assert_eq!(scan.commits.len(), 1);
    assert!(scan
        .commits
        .iter()
        .flat_map(|commit| &commit.files)
        .all(|file| file.relative_path != "skewed.rs"));
    assert_eq!(scan.coverage, CoverageStatus::Partial);
}

#[test]
fn broken_git_output_is_an_error() {
    let none: [CommitPatch; 0] = [];
    let log = entry("c1", "yesterday", "", ME);
    let result = scan_local_git_repository("/r", "h", None, &identities(ME), now(), &log, &none);
    assert_eq!(
        result,
        Err(GitScanError::InvalidTimestamp {
            value: "yesterday".to_string()
        })
    );
    let log = entry("c1", "2026-08-10T10:00:00+00:00", "", ME);
    let result = scan_local_git_repository("/r", "h", None, &identities(ME), now(), &log, &none);
    assert_eq!(
        result,
        Err(GitScanError::Command {
            command: "git log --patch".to_string(),
            message: "batched patch output omitted commit c1".to_string()
        })
    );
    let failed = |stderr: &str, allow: bool| {
        output_text("git log", false, "out".to_string(), stderr, allow)
    };
    assert!(matches!(
        failed("fatal: not a git repository", false),
        Err(GitScanError::NotRepository(_))
    ));
    assert!(matches!(failed(" broken \n", false), Err(GitScanError::Command { .. })));
    assert_eq!(failed("broken", true), Ok("out".to_string()));
}
