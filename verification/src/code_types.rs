//! The records of code-change measurement.
use crate::binary64::Binary64;
use crate::ids::SourceId;
use crate::text::{concat2, concat3, copy_opt};
use crate::time::{MAX_SECONDS, MIN_SECONDS, Timestamp};
use vstd::prelude::*;

verus! {

pub const CODE_CHANGE_METRIC_SCHEMA_VERSION: &'static str = "code_change_metric.v1";

pub const TRACE_EDIT_SCHEMA_VERSION: &'static str = "trace_edit.v1";

/// How many days of Git history a scan reads.
pub const GIT_COMMIT_OBSERVATION_DAYS: i64 = 90;

/// How many days ahead of now a metric's day may lie.
pub const MAX_REPORTABLE_FUTURE_DAYS: i64 = 1;

#[derive(Debug, Clone, Copy, PartialEq, Eq, Structural)]
pub enum CodeCategory {
    Source,
    Test,
}

impl CodeCategory {
    pub fn as_str(self) -> (r: &'static str)
        ensures
            r@ == match self {
                CodeCategory::Source => "source"@,
                CodeCategory::Test => "test"@,
            },
    {
        match self {
            CodeCategory::Source => "source",
            CodeCategory::Test => "test",
        }
    }
}

#[derive(Debug, Clone, Copy, PartialEq, Eq, Structural)]
pub enum MutationKind {
    UnifiedPatch,
    StructuredEdit,
    FileCreation,
    FileWrite,
}

impl MutationKind {
    pub fn as_str(self) -> (r: &'static str)
        ensures
            r@ == match self {
                MutationKind::UnifiedPatch => "unified_patch"@,
                MutationKind::StructuredEdit => "structured_edit"@,
                MutationKind::FileCreation => "file_creation"@,
                MutationKind::FileWrite => "file_write"@,
            },
    {
        match self {
            MutationKind::UnifiedPatch => "unified_patch",
            MutationKind::StructuredEdit => "structured_edit",
            MutationKind::FileCreation => "file_creation",
            MutationKind::FileWrite => "file_write",
        }
    }
}

#[derive(Debug, Clone, Copy, PartialEq, Eq, Structural)]
pub enum CodeChangeMetricKind {
    AgentEdit,
    Committed,
    TraceMatchedCommitted,
}

impl CodeChangeMetricKind {
    /// The kind's place in the order of kinds.
    pub open spec fn rank_spec(self) -> int {
        match self {
            CodeChangeMetricKind::AgentEdit => 0,
            CodeChangeMetricKind::Committed => 1,
            CodeChangeMetricKind::TraceMatchedCommitted => 2,
        }
    }

    pub fn rank(self) -> (r: u8)
        ensures
            r == self.rank_spec(),
    {
        match self {
            CodeChangeMetricKind::AgentEdit => 0,
            CodeChangeMetricKind::Committed => 1,
            CodeChangeMetricKind::TraceMatchedCommitted => 2,
        }
    }
}

#[derive(Debug, Clone, Copy, PartialEq, Eq, Structural)]
pub enum AttributionConfidence {
    High,
    Medium,
}

/// How much of what happened a measurement has seen.
#[derive(Debug, Clone, Copy, PartialEq, Eq, Structural)]
pub enum CoverageStatus {
    Complete,
    Partial,
    Unavailable,
}

impl CoverageStatus {
    /// Inputs that agree keep their coverage; inputs that differ are partial.
    pub open spec fn combine_spec(self, other: CoverageStatus) -> CoverageStatus {
        if self == other {
            self
        } else {
            CoverageStatus::Partial
        }
    }

    pub fn combine(self, other: Self) -> (r: Self)
        ensures
            r == self.combine_spec(other),
    {
        match (self, other) {
            (CoverageStatus::Unavailable, CoverageStatus::Unavailable) => CoverageStatus::Unavailable,
            (CoverageStatus::Partial, _) => CoverageStatus::Partial,
            (_, CoverageStatus::Partial) => CoverageStatus::Partial,
            (CoverageStatus::Unavailable, CoverageStatus::Complete) => CoverageStatus::Partial,
            (CoverageStatus::Complete, CoverageStatus::Unavailable) => CoverageStatus::Partial,
            _ => CoverageStatus::Complete,
        }
    }
}

/// Combining coverage does not depend on order or grouping, and repeating an
/// input changes nothing.
pub proof fn coverage_combines_in_any_order(a: CoverageStatus, b: CoverageStatus, c: CoverageStatus)
    ensures
        a.combine_spec(b) == b.combine_spec(a),
        a.combine_spec(b.combine_spec(c)) == a.combine_spec(b).combine_spec(c),
        a.combine_spec(a) == a,
{
}

/// The sum of two counters, held at the largest number they can show.
pub open spec fn sat_add(a: u64, b: u64) -> u64 {
    if a + b > u64::MAX {
        u64::MAX
    } else {
        (a + b) as u64
    }
}

#[derive(Debug, Clone, Copy, PartialEq, Eq, Structural)]
pub struct CodeLineCounts {
    pub source_additions: u64,
    pub source_deletions: u64,
    pub test_additions: u64,
    pub test_deletions: u64,
    pub unclassified_lines_written: u64,
}

impl Default for CodeLineCounts {
    fn default() -> (r: Self)
        ensures
            r == CodeLineCounts::zero(),
    {
        CodeLineCounts {
            source_additions: 0,
            source_deletions: 0,
            test_additions: 0,
            test_deletions: 0,
            unclassified_lines_written: 0,
        }
    }
}

/// A counter read as a signed one: beyond the greatest signed number it starts
/// again at the least.
pub open spec fn as_signed(n: u64) -> int {
    if n <= i64::MAX {
        n as int
    } else {
        n - 0x1_0000_0000_0000_0000
    }
}

fn signed(n: u64) -> (r: i64)
    ensures
        r == as_signed(n),
{
    if n <= i64::MAX as u64 {
        n as i64
    } else {
        (n - 0x8000_0000_0000_0000) as i64 + i64::MIN
    }
}

impl CodeLineCounts {
    pub open spec fn zero() -> CodeLineCounts {
        CodeLineCounts {
            source_additions: 0,
            source_deletions: 0,
            test_additions: 0,
            test_deletions: 0,
            unclassified_lines_written: 0,
        }
    }

    pub open spec fn additions_spec(self) -> u64 {
        sat_add(self.source_additions, self.test_additions)
    }

    pub open spec fn deletions_spec(self) -> u64 {
        sat_add(self.source_deletions, self.test_deletions)
    }

    pub open spec fn plus(self, other: CodeLineCounts) -> CodeLineCounts {
        CodeLineCounts {
            source_additions: sat_add(self.source_additions, other.source_additions),
            source_deletions: sat_add(self.source_deletions, other.source_deletions),
            test_additions: sat_add(self.test_additions, other.test_additions),
            test_deletions: sat_add(self.test_deletions, other.test_deletions),
            unclassified_lines_written: sat_add(
                self.unclassified_lines_written,
                other.unclassified_lines_written,
            ),
        }
    }

    pub open spec fn classified_spec(category: CodeCategory, added: u64, deleted: u64) -> CodeLineCounts {
        match category {
            CodeCategory::Source => CodeLineCounts {
                source_additions: added,
                source_deletions: deleted,
                ..CodeLineCounts::zero()
            },
            CodeCategory::Test => CodeLineCounts {
                test_additions: added,
                test_deletions: deleted,
                ..CodeLineCounts::zero()
            },
        }
    }

    pub fn additions(self) -> (r: u64)
        ensures
            r == self.additions_spec(),
    {
        self.source_additions.saturating_add(self.test_additions)
    }

    pub fn deletions(self) -> (r: u64)
        ensures
            r == self.deletions_spec(),
    {
        self.source_deletions.saturating_add(self.test_deletions)
    }

    pub fn churn(self) -> (r: u64)
        ensures
            r == sat_add(self.additions_spec(), self.deletions_spec()),
    {
        self.additions().saturating_add(self.deletions())
    }

    /// Lines added less lines deleted, both read as signed counters.
    pub fn net(self) -> (r: i64)
        requires
            i64::MIN <= as_signed(self.additions_spec()) - as_signed(self.deletions_spec())
                <= i64::MAX,
        ensures
            r == as_signed(self.additions_spec()) - as_signed(self.deletions_spec()),
    {
        signed(self.additions()) - signed(self.deletions())
    }

    pub fn add(&mut self, other: Self)
        ensures
            *final(self) == old(self).plus(other),
    {
        self.source_additions = self.source_additions.saturating_add(other.source_additions);
        self.source_deletions = self.source_deletions.saturating_add(other.source_deletions);
        self.test_additions = self.test_additions.saturating_add(other.test_additions);
        self.test_deletions = self.test_deletions.saturating_add(other.test_deletions);
        self.unclassified_lines_written = self.unclassified_lines_written.saturating_add(
            other.unclassified_lines_written,
        );
    }

    pub fn classified(category: CodeCategory, additions: u64, deletions: u64) -> (r: Self)
        ensures
            r == CodeLineCounts::classified_spec(category, additions, deletions),
            r.additions_spec() == additions,
            r.deletions_spec() == deletions,
    {
        match category {
            CodeCategory::Source => CodeLineCounts {
                source_additions: additions,
                source_deletions: deletions,
                test_additions: 0,
                test_deletions: 0,
                unclassified_lines_written: 0,
            },
            CodeCategory::Test => CodeLineCounts {
                source_additions: 0,
                source_deletions: 0,
                test_additions: additions,
                test_deletions: deletions,
                unclassified_lines_written: 0,
            },
        }
    }
}

/// Adding counts does not depend on order or grouping.
pub proof fn line_counts_add_in_any_order(a: CodeLineCounts, b: CodeLineCounts, c: CodeLineCounts)
    ensures
        a.plus(b) == b.plus(a),
        a.plus(b).plus(c) == a.plus(b.plus(c)),
        a.plus(CodeLineCounts::zero()) == a,
{
}

/// A project that work belongs to.
#[derive(Debug, PartialEq, Eq)]
pub struct ProjectInfo {
    pub project_id: String,
    pub project_label: Option<String>,
    pub repo_remote_hash: Option<String>,
    pub repo_label: Option<String>,
    pub branch_hash: Option<String>,
    pub branch_label: Option<String>,
    pub path_hash: Option<String>,
    pub path_label: Option<String>,
}

impl Clone for ProjectInfo {
    fn clone(&self) -> (r: Self)
        ensures
            r == *self,
    {
        ProjectInfo {
            project_id: self.project_id.clone(),
            project_label: copy_opt(&self.project_label),
            repo_remote_hash: copy_opt(&self.repo_remote_hash),
            repo_label: copy_opt(&self.repo_label),
            branch_hash: copy_opt(&self.branch_hash),
            branch_label: copy_opt(&self.branch_label),
            path_hash: copy_opt(&self.path_hash),
            path_label: copy_opt(&self.path_label),
        }
    }
}

/// Where a recorded edit comes from.
pub struct TraceEditContext<'a> {
    pub provider: &'a str,
    pub source_id: &'a SourceId,
    /// Scan cache key of the archive file that holds the edit.
    pub cache_key: &'a str,
    pub conversation_id: &'a str,
    pub source_record_id: &'a str,
    pub occurred_at: Option<Timestamp>,
    pub project: Option<&'a ProjectInfo>,
    pub repository_path: Option<&'a str>,
}

/// One recorded edit of one file.
#[derive(Debug, Clone, PartialEq, Eq)]
pub struct TraceEdit {
    pub schema_version: String,
    pub trace_edit_id: String,
    pub provider: String,
    pub source_id: SourceId,
    /// Scan cache key of the archive file that holds the edit. Local only.
    pub cache_key: String,
    pub conversation_id: String,
    pub source_record_id: String,
    pub occurred_at: Option<Timestamp>,
    pub project_id: Option<String>,
    /// Local only: never part of a sync payload.
    pub repository_path: Option<String>,
    /// Local only: never part of a sync payload.
    pub relative_path: String,
    pub category: CodeCategory,
    pub mutation_kind: MutationKind,
    pub counts: CodeLineCounts,
    /// Local only: fingerprints of the added lines, in order.
    pub added_line_fingerprints: Vec<String>,
    /// Local only: fingerprints of the deleted lines, in order.
    pub deleted_line_fingerprints: Vec<String>,
}

#[derive(Debug, Clone, PartialEq, Eq)]
pub struct ParsedMutation {
    pub edits: Vec<TraceEdit>,
    pub coverage: CoverageStatus,
    pub unsupported_sections: u64,
}

/// The change of one file in a commit.
#[derive(Debug, Clone, PartialEq, Eq)]
pub struct GitFileChange {
    pub relative_path: String,
    pub category: CodeCategory,
    pub counts: CodeLineCounts,
    pub added_line_fingerprints: Vec<String>,
    pub deleted_line_fingerprints: Vec<String>,
}

/// One commit's changes.
#[derive(Debug, Clone, PartialEq, Eq)]
pub struct GitCommitChange {
    pub deduplication_id: String,
    pub repository_hash: String,
    pub commit_hash: String,
    pub committed_at: Timestamp,
    /// When the change was first written, which survives rewritten history.
    pub authored_at: Option<Timestamp>,
    pub parent_count: usize,
    pub project_id: Option<String>,
    pub files: Vec<GitFileChange>,
}

/// What a scan of one repository found.
#[derive(Debug, Clone, PartialEq, Eq)]
pub struct GitScan {
    pub repository_root: String,
    pub repository_hash: String,
    pub commits: Vec<GitCommitChange>,
    /// The blinded committer addresses that the scan counted, sorted.
    pub committer_identities: Vec<String>,
    pub coverage: CoverageStatus,
}

/// A recorded edit and the commit that it became.
#[derive(Debug, Clone, PartialEq, Eq)]
pub struct CodeChangeMatch {
    pub match_id: String,
    pub trace_edit_id: String,
    pub commit_deduplication_id: String,
    pub commit_hash: String,
    pub repository_hash: String,
    pub relative_path: String,
    pub committed_at: Timestamp,
    pub confidence: AttributionConfidence,
    /// The share of the edit's changed lines that the commit holds in order.
    pub ordered_line_overlap: Binary64,
    pub counts: CodeLineCounts,
}

/// A day of measured change, as it is published.
#[derive(Debug, PartialEq, Eq)]
pub struct CodeChangeMetric {
    pub schema_version: String,
    pub metric_id: String,
    pub device_id: String,
    /// Counted in days from 1970-01-01.
    pub day: i64,
    pub project_id: Option<String>,
    pub repository_hash: Option<String>,
    /// Local only: never part of a sync payload.
    pub commit_hash: Option<String>,
    pub kind: CodeChangeMetricKind,
    pub counts: CodeLineCounts,
    pub attribution_confidence: Option<AttributionConfidence>,
    pub trace_coverage: CoverageStatus,
    pub git_coverage: CoverageStatus,
}

impl Clone for CodeChangeMetric {
    fn clone(&self) -> (r: Self)
        ensures
            r == *self,
    {
        CodeChangeMetric {
            schema_version: self.schema_version.clone(),
            metric_id: self.metric_id.clone(),
            device_id: self.device_id.clone(),
            day: self.day,
            project_id: copy_opt(&self.project_id),
            repository_hash: copy_opt(&self.repository_hash),
            commit_hash: copy_opt(&self.commit_hash),
            kind: self.kind,
            counts: self.counts,
            attribution_confidence: self.attribution_confidence,
            trace_coverage: self.trace_coverage,
            git_coverage: self.git_coverage,
        }
    }
}

/// The metric as it may leave the device: no commit hash, and no project or
/// repository unless they are to be included.
pub fn sanitize_code_change_metric_for_sync(
    metric: CodeChangeMetric,
    include_projects: bool,
) -> (r: CodeChangeMetric)
    ensures
        r == (CodeChangeMetric {
            commit_hash: None,
            project_id: if include_projects {
                metric.project_id
            } else {
                None
            },
            repository_hash: if include_projects {
                metric.repository_hash
            } else {
                None
            },
            ..metric
        }),
{
    let mut out = metric;
    out.commit_hash = None;
    if !include_projects {
        out.project_id = None;
        out.repository_hash = None;
    }
    out
}

#[derive(Debug, Clone, Copy, PartialEq, Eq, Structural)]
pub enum CodeChangeMetricBuildError {
    /// A commit has no persisted identifier for its metric.
    MissingCommittedMetricId,
}

#[derive(Debug, Clone, PartialEq, Eq)]
pub enum GitScanError {
    /// The path lies in no Git repository.
    NotRepository(String),
    /// No committer address was ever known for the repository.
    UnknownCommitterIdentity(String),
    /// A Git command failed.
    Command { command: String, message: String },
    /// Git gave a time that cannot be read.
    InvalidTimestamp { value: String },
}

impl GitScanError {
    pub open spec fn text_spec(self) -> Seq<char> {
        match self {
            GitScanError::NotRepository(path) => "path is not inside a Git repository: "@ + path@,
            GitScanError::UnknownCommitterIdentity(path) =>
                "no committer identity is known for the Git repository: "@ + path@,
            GitScanError::Command { command, message } => "Git command failed ("@ + command@ + "): "@
                + message@,
            GitScanError::InvalidTimestamp { value } => "invalid Git timestamp `"@ + value@ + "`"@,
        }
    }

    /// The error in words.
    pub fn text(&self) -> (r: String)
        ensures
            r@ == self.text_spec(),
    {
        match self {
            GitScanError::NotRepository(path) => concat2(
                "path is not inside a Git repository: ",
                path.as_str(),
            ),
            GitScanError::UnknownCommitterIdentity(path) => concat2(
                "no committer identity is known for the Git repository: ",
                path.as_str(),
            ),
            GitScanError::Command { command, message } => {
                let head = concat3("Git command failed (", command.as_str(), "): ");
                concat2(head.as_str(), message.as_str())
            },
            GitScanError::InvalidTimestamp { value } => concat3(
                "invalid Git timestamp `",
                value.as_str(),
                "`",
            ),
        }
    }
}

/// The first day that a scan at `now` still reads.
pub fn git_observation_start_day(now: Timestamp) -> (r: i64)
    requires
        now.wf(),
        MIN_SECONDS <= now.secs - GIT_COMMIT_OBSERVATION_DAYS * 86_400,
    ensures
        r == now.shifted(-GIT_COMMIT_OBSERVATION_DAYS as int).day_spec(),
{
    match now.plus_days(-GIT_COMMIT_OBSERVATION_DAYS) {
        Some(start) => start.day(),
        None => now.day(),
    }
}

/// The last day that a metric built at `now` may name.
pub fn max_reportable_day(now: Timestamp) -> (r: i64)
    requires
        now.wf(),
        now.secs + MAX_REPORTABLE_FUTURE_DAYS * 86_400 <= MAX_SECONDS,
    ensures
        r == now.day_spec() + MAX_REPORTABLE_FUTURE_DAYS,
{
    now.day() + MAX_REPORTABLE_FUTURE_DAYS
}

} // verus!
