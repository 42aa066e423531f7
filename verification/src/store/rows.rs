//! The records that callers exchange with the store, and the rows it keeps.
//! Rows hold times in whole seconds since the epoch and paths as text.

use crate::cleaner::CleanAttemptOutcome;
use crate::identity::{FilesystemIdentity, IdentityModel};
use crate::path::PathBuf;
use crate::safety::{ProjectReview, ReviewSummary};
use crate::time::SystemTime;
use vstd::prelude::*;

verus! {

/// A known project.
#[derive(Debug, PartialEq, Eq)]
pub struct Project {
    pub path: String,
    pub discovered_at: SystemTime,
    pub last_seen_at: SystemTime,
    pub last_cleaned_at: Option<SystemTime>,
}

/// A cleanup run.
#[derive(Debug, Clone, Copy, PartialEq, Eq, Structural)]
pub struct Run {
    pub id: i64,
    pub started_at: SystemTime,
    pub finished_at: Option<SystemTime>,
    pub projects_cleaned: i64,
    pub bytes_recovered: i64,
    pub errors_count: i64,
}

/// One attempt to clean a project.
#[derive(Debug, PartialEq, Eq)]
pub struct CleanEvent {
    pub id: i64,
    pub run_id: i64,
    pub ts: SystemTime,
    pub path: String,
    pub bytes_before: i64,
    pub bytes_after: i64,
    pub duration_ms: i64,
    pub exit_code: Option<i32>,
    pub stderr_excerpt: String,
    pub outcome: CleanAttemptOutcome,
    pub measurement_failed: bool,
}

/// A recorded problem.
#[derive(Debug, PartialEq, Eq)]
pub struct ErrorRecord {
    pub id: i64,
    pub ts: SystemTime,
    pub category: String,
    pub path: Option<String>,
    pub message: String,
}

/// The bytes recovered from a project.
#[derive(Debug, PartialEq, Eq)]
pub struct ProjectBytes {
    pub path: String,
    pub bytes: i64,
}

/// The last review of all projects.
#[derive(Debug, PartialEq, Eq)]
pub struct ReviewStatus {
    pub reviewed_at: SystemTime,
    pub source: String,
    pub summary: ReviewSummary,
}

/// When the scheduler acts next.
#[derive(Debug, Clone, Copy, PartialEq, Eq, Structural)]
pub struct SchedulerStatus {
    pub updated_at: SystemTime,
    pub next_clean_at: SystemTime,
    pub next_scan_at: SystemTime,
}

/// One discovery of projects under one policy.
#[derive(Debug, PartialEq, Eq)]
pub struct DiscoveryGeneration {
    pub id: i64,
    pub created_at: SystemTime,
    pub policy_hash: String,
    pub boot_session_id: Option<String>,
}

/// What a discovery starts from.
#[derive(Debug, Clone, Copy, PartialEq, Eq, Structural)]
pub enum DiscoveryOriginKind {
    ScanRoot,
    ExplicitProject,
}

/// The label of an origin's kind.
pub open spec fn origin_label(kind: DiscoveryOriginKind) -> Seq<char> {
    match kind {
        DiscoveryOriginKind::ScanRoot => "scan_root"@,
        DiscoveryOriginKind::ExplicitProject => "explicit_project"@,
    }
}

impl DiscoveryOriginKind {
    /// The label of the kind.
    pub fn as_str(self) -> (label: &'static str)
        ensures
            label@ == origin_label(self),
    {
        match self {
            DiscoveryOriginKind::ScanRoot => "scan_root",
            DiscoveryOriginKind::ExplicitProject => "explicit_project",
        }
    }

    /// The kind with a label.
    pub fn from_label(label: &str) -> (kind: Option<DiscoveryOriginKind>)
        ensures
            kind matches Some(k) ==> origin_label(k) == label@,
            kind is None ==> label@ != origin_label(DiscoveryOriginKind::ScanRoot) && label@ != origin_label(
                DiscoveryOriginKind::ExplicitProject,
            ),
    {
        if crate::text::text_equal(label, "scan_root") {
            Some(DiscoveryOriginKind::ScanRoot)
        } else if crate::text::text_equal(label, "explicit_project") {
            Some(DiscoveryOriginKind::ExplicitProject)
        } else {
            None
        }
    }
}

/// An origin of a stored discovery.
#[derive(Debug, PartialEq, Eq)]
pub struct DiscoveryOriginRecord {
    pub id: i64,
    pub generation_id: i64,
    pub kind: DiscoveryOriginKind,
    pub configured_path: PathBuf,
    pub canonical_path: Option<PathBuf>,
    pub completed: bool,
    pub error: Option<String>,
}

/// A project that a stored discovery saw.
#[derive(Debug, PartialEq, Eq)]
pub struct ProjectObservation {
    pub generation_id: i64,
    pub origin_id: i64,
    pub project_path: PathBuf,
    pub project_identity: FilesystemIdentity,
    pub target_identity: Option<FilesystemIdentity>,
    pub boot_session_id: Option<String>,
    pub observed_at: SystemTime,
    pub authorized: bool,
    pub blocked_reason: Option<String>,
}

/// A project that a discovery saw, to be stored.
#[derive(Debug, PartialEq, Eq)]
pub struct ObservationReconciliation {
    pub project_path: PathBuf,
    pub project_identity: FilesystemIdentity,
    pub target_identity: Option<FilesystemIdentity>,
    pub observed_at: SystemTime,
    pub authorized: bool,
    pub blocked_reason: Option<String>,
}

/// An origin of a discovery, to be stored.
#[derive(Debug, PartialEq, Eq)]
pub struct OriginReconciliation {
    pub kind: DiscoveryOriginKind,
    pub configured_path: PathBuf,
    pub canonical_path: Option<PathBuf>,
    pub completed: bool,
    pub error: Option<String>,
    pub observations: Vec<ObservationReconciliation>,
}

/// A discovery, to be stored.
#[derive(Debug, PartialEq, Eq)]
pub struct GenerationReconciliation {
    pub policy_hash: String,
    pub boot_session_id: Option<String>,
    pub origins: Vec<OriginReconciliation>,
}

/// What asking a repository for its linked worktrees gave.
#[derive(Debug, PartialEq, Eq)]
pub enum WorktreeReconciliation {
    Success { primary: PathBuf, linked: Vec<PathBuf>, excluded: Vec<PathBuf>, out_of_scope: Vec<PathBuf> },
    Failure { primary: PathBuf, message: String },
}

/// Everything that a scan publishes at once.
#[derive(Debug, PartialEq, Eq)]
pub struct ScanPublication {
    pub generation: GenerationReconciliation,
    pub worktrees: Vec<WorktreeReconciliation>,
    pub diagnostics: Vec<ErrorRecord>,
}

/// A target of a cleanup plan.
#[derive(Debug, PartialEq, Eq)]
pub struct ReviewPlanTarget {
    pub ordinal: usize,
    pub review: ProjectReview,
}

/// A persisted cleanup plan.
#[derive(Debug, PartialEq, Eq)]
pub struct ReviewPlan {
    pub id: i64,
    pub created_at: SystemTime,
    pub expires_at: SystemTime,
    pub policy_hash: String,
    pub generation_id: i64,
    pub coverage_incomplete: bool,
    pub candidate_bytes: i64,
    pub targets: Vec<ReviewPlanTarget>,
}

// ---------------------------------------------------------------------- rows

/// The contents of an optional text.
pub open spec fn optional_text(text: Option<String>) -> Option<Seq<char>> {
    match text {
        Some(t) => Some(t@),
        None => None,
    }
}

/// A copy of an optional text.
pub fn copy_text(text: &Option<String>) -> (copy: Option<String>)
    ensures
        copy == *text,
{
    match text {
        Some(t) => Some(t.clone()),
        None => None,
    }
}

/// Whether two optional texts are both there and the same.
pub fn texts_match(a: &Option<String>, b: &Option<String>) -> (same: bool)
    ensures
        same == (optional_text(*a) is Some && optional_text(*a) == optional_text(*b)),
{
    match (a, b) {
        (Some(x), Some(y)) => *x == *y,
        _ => false,
    }
}

/// Whether an optional text is there and the given one.
pub fn text_is(a: &Option<String>, b: &str) -> (same: bool)
    ensures
        same == (optional_text(*a) == Some(b@)),
{
    match a {
        Some(x) => crate::text::text_equal(x.as_str(), b),
        None => false,
    }
}

#[derive(Debug)]
pub struct ProjectRow {
    pub path: String,
    pub discovered_at: i64,
    pub last_seen_at: i64,
    pub last_cleaned_at: Option<i64>,
}

pub struct ProjectModel {
    pub path: Seq<char>,
    pub discovered_at: i64,
    pub last_seen_at: i64,
    pub last_cleaned_at: Option<i64>,
}

impl View for ProjectRow {
    type V = ProjectModel;

    open spec fn view(&self) -> ProjectModel {
        ProjectModel {
            path: self.path@,
            discovered_at: self.discovered_at,
            last_seen_at: self.last_seen_at,
            last_cleaned_at: self.last_cleaned_at,
        }
    }
}

#[derive(Debug, Clone, Copy, PartialEq, Eq, Structural)]
pub struct RunRow {
    pub id: i64,
    pub started_at: i64,
    pub finished_at: Option<i64>,
    pub projects_cleaned: i64,
    pub bytes_recovered: i64,
    pub errors_count: i64,
}

impl View for RunRow {
    type V = RunRow;

    open spec fn view(&self) -> RunRow {
        *self
    }
}

#[derive(Debug)]
pub struct EventRow {
    pub id: i64,
    pub run_id: i64,
    pub ts: i64,
    pub path: String,
    pub bytes_before: i64,
    pub bytes_after: i64,
    pub duration_ms: i64,
    pub exit_code: Option<i32>,
    pub stderr_excerpt: String,
    pub outcome: CleanAttemptOutcome,
    pub measurement_failed: bool,
}

pub struct EventModel {
    pub id: i64,
    pub run_id: i64,
    pub ts: i64,
    pub path: Seq<char>,
    pub bytes_before: i64,
    pub bytes_after: i64,
    pub duration_ms: i64,
    pub exit_code: Option<i32>,
    pub stderr_excerpt: Seq<char>,
    pub outcome: CleanAttemptOutcome,
    pub measurement_failed: bool,
}

impl View for EventRow {
    type V = EventModel;

    open spec fn view(&self) -> EventModel {
        EventModel {
            id: self.id,
            run_id: self.run_id,
            ts: self.ts,
            path: self.path@,
            bytes_before: self.bytes_before,
            bytes_after: self.bytes_after,
            duration_ms: self.duration_ms,
            exit_code: self.exit_code,
            stderr_excerpt: self.stderr_excerpt@,
            outcome: self.outcome,
            measurement_failed: self.measurement_failed,
        }
    }
}

#[derive(Debug)]
pub struct ErrorRow {
    pub id: i64,
    pub ts: i64,
    pub category: String,
    pub path: Option<String>,
    pub message: String,
}

pub struct ErrorModel {
    pub id: i64,
    pub ts: i64,
    pub category: Seq<char>,
    pub path: Option<Seq<char>>,
    pub message: Seq<char>,
}

impl View for ErrorRow {
    type V = ErrorModel;

    open spec fn view(&self) -> ErrorModel {
        ErrorModel {
            id: self.id,
            ts: self.ts,
            category: self.category@,
            path: optional_text(self.path),
            message: self.message@,
        }
    }
}

#[derive(Debug)]
pub struct StatusRow {
    pub reviewed_at: i64,
    pub source: String,
    pub summary: ReviewSummary,
}

pub struct StatusModel {
    pub reviewed_at: i64,
    pub source: Seq<char>,
    pub summary: ReviewSummary,
}

impl View for StatusRow {
    type V = StatusModel;

    open spec fn view(&self) -> StatusModel {
        StatusModel { reviewed_at: self.reviewed_at, source: self.source@, summary: self.summary }
    }
}

#[derive(Debug, Clone, Copy, PartialEq, Eq, Structural)]
pub struct SchedulerRow {
    pub updated_at: i64,
    pub next_clean_at: i64,
    pub next_scan_at: i64,
    pub last_forced_scan_at: Option<i64>,
    pub scan_retry_at: Option<i64>,
}

#[derive(Debug)]
pub struct LinkedRow {
    pub primary: String,
    pub linked: String,
    pub canonical_primary: Option<String>,
}

pub struct LinkedModel {
    pub primary: Seq<char>,
    pub linked: Seq<char>,
    pub canonical_primary: Option<Seq<char>>,
}

impl View for LinkedRow {
    type V = LinkedModel;

    open spec fn view(&self) -> LinkedModel {
        LinkedModel {
            primary: self.primary@,
            linked: self.linked@,
            canonical_primary: optional_text(self.canonical_primary),
        }
    }
}

#[derive(Debug)]
pub struct FailureRow {
    pub primary: String,
    pub failed_at: i64,
    pub message: String,
    pub canonical_primary: Option<String>,
}

pub struct FailureModel {
    pub primary: Seq<char>,
    pub failed_at: i64,
    pub message: Seq<char>,
    pub canonical_primary: Option<Seq<char>>,
}

impl View for FailureRow {
    type V = FailureModel;

    open spec fn view(&self) -> FailureModel {
        FailureModel {
            primary: self.primary@,
            failed_at: self.failed_at,
            message: self.message@,
            canonical_primary: optional_text(self.canonical_primary),
        }
    }
}

#[derive(Debug)]
pub struct GenerationRow {
    pub id: i64,
    pub created_at: i64,
    pub policy_hash: String,
    pub boot_session_id: Option<String>,
    pub authority_valid: bool,
}

pub struct GenerationModel {
    pub id: i64,
    pub created_at: i64,
    pub policy_hash: Seq<char>,
    pub boot_session_id: Option<Seq<char>>,
    pub authority_valid: bool,
}

impl View for GenerationRow {
    type V = GenerationModel;

    open spec fn view(&self) -> GenerationModel {
        GenerationModel {
            id: self.id,
            created_at: self.created_at,
            policy_hash: self.policy_hash@,
            boot_session_id: optional_text(self.boot_session_id),
            authority_valid: self.authority_valid,
        }
    }
}

#[derive(Debug)]
pub struct OriginRow {
    pub id: i64,
    pub generation_id: i64,
    pub kind: DiscoveryOriginKind,
    pub configured_path: String,
    pub canonical_path: Option<String>,
    pub completed: bool,
    pub error: Option<String>,
}

pub struct OriginModel {
    pub id: i64,
    pub generation_id: i64,
    pub kind: DiscoveryOriginKind,
    pub configured_path: Seq<char>,
    pub canonical_path: Option<Seq<char>>,
    pub completed: bool,
    pub error: Option<Seq<char>>,
}

impl View for OriginRow {
    type V = OriginModel;

    open spec fn view(&self) -> OriginModel {
        OriginModel {
            id: self.id,
            generation_id: self.generation_id,
            kind: self.kind,
            configured_path: self.configured_path@,
            canonical_path: optional_text(self.canonical_path),
            completed: self.completed,
            error: optional_text(self.error),
        }
    }
}

#[derive(Debug)]
pub struct ObservationRow {
    pub generation_id: i64,
    pub origin_id: i64,
    pub project_path: String,
    pub project_identity: FilesystemIdentity,
    pub target_identity: Option<FilesystemIdentity>,
    pub observed_at: i64,
    pub authorized: bool,
    pub blocked_reason: Option<String>,
    pub boot_session_id: Option<String>,
}

pub struct ObservationModel {
    pub generation_id: i64,
    pub origin_id: i64,
    pub project_path: Seq<char>,
    pub project_identity: IdentityModel,
    pub target_identity: Option<IdentityModel>,
    pub observed_at: i64,
    pub authorized: bool,
    pub blocked_reason: Option<Seq<char>>,
    pub boot_session_id: Option<Seq<char>>,
}

/// The contents of an optional identity.
pub open spec fn optional_identity(identity: Option<FilesystemIdentity>) -> Option<IdentityModel> {
    match identity {
        Some(i) => Some(i@),
        None => None,
    }
}

/// A copy of an optional identity.
pub fn copy_identity(identity: &Option<FilesystemIdentity>) -> (copy: Option<FilesystemIdentity>)
    ensures
        copy == *identity,
{
    match identity {
        Some(i) => Some(i.clone()),
        None => None,
    }
}

impl View for ObservationRow {
    type V = ObservationModel;

    open spec fn view(&self) -> ObservationModel {
        ObservationModel {
            generation_id: self.generation_id,
            origin_id: self.origin_id,
            project_path: self.project_path@,
            project_identity: self.project_identity@,
            target_identity: optional_identity(self.target_identity),
            observed_at: self.observed_at,
            authorized: self.authorized,
            blocked_reason: optional_text(self.blocked_reason),
            boot_session_id: optional_text(self.boot_session_id),
        }
    }
}

/// A target of a plan in the columns that hold it.
#[derive(Debug)]
pub struct TargetRow {
    pub ordinal: i64,
    pub project_path: String,
    pub canonical_project_path: Option<String>,
    pub project_class: String,
    pub target_path: String,
    pub project_device: Option<i64>,
    pub project_inode: Option<i64>,
    pub project_mount_id: Option<String>,
    pub target_device: Option<i64>,
    pub target_inode: Option<i64>,
    pub target_mount_id: Option<String>,
    pub review_boot_session_id: Option<String>,
    pub reviewed_bytes: i64,
    pub decision: String,
    pub skip_reason: Option<String>,
    pub skip_newest_age_secs: Option<i64>,
}

pub struct TargetModel {
    pub ordinal: i64,
    pub project_path: Seq<char>,
    pub canonical_project_path: Option<Seq<char>>,
    pub project_class: Seq<char>,
    pub target_path: Seq<char>,
    pub project_device: Option<i64>,
    pub project_inode: Option<i64>,
    pub project_mount_id: Option<Seq<char>>,
    pub target_device: Option<i64>,
    pub target_inode: Option<i64>,
    pub target_mount_id: Option<Seq<char>>,
    pub review_boot_session_id: Option<Seq<char>>,
    pub reviewed_bytes: i64,
    pub decision: Seq<char>,
    pub skip_reason: Option<Seq<char>>,
    pub skip_newest_age_secs: Option<i64>,
}

impl View for TargetRow {
    type V = TargetModel;

    open spec fn view(&self) -> TargetModel {
        TargetModel {
            ordinal: self.ordinal,
            project_path: self.project_path@,
            canonical_project_path: optional_text(self.canonical_project_path),
            project_class: self.project_class@,
            target_path: self.target_path@,
            project_device: self.project_device,
            project_inode: self.project_inode,
            project_mount_id: optional_text(self.project_mount_id),
            target_device: self.target_device,
            target_inode: self.target_inode,
            target_mount_id: optional_text(self.target_mount_id),
            review_boot_session_id: optional_text(self.review_boot_session_id),
            reviewed_bytes: self.reviewed_bytes,
            decision: self.decision@,
            skip_reason: optional_text(self.skip_reason),
            skip_newest_age_secs: self.skip_newest_age_secs,
        }
    }
}

/// A plan with its targets in their order.
#[derive(Debug)]
pub struct PlanRow {
    pub id: i64,
    pub created_at: i64,
    pub expires_at: i64,
    pub policy_hash: String,
    pub generation_id: i64,
    pub coverage_incomplete: bool,
    pub candidate_bytes: i64,
    pub targets: Vec<TargetRow>,
}

pub struct PlanModel {
    pub id: i64,
    pub created_at: i64,
    pub expires_at: i64,
    pub policy_hash: Seq<char>,
    pub generation_id: i64,
    pub coverage_incomplete: bool,
    pub candidate_bytes: i64,
    pub targets: Seq<TargetModel>,
}

impl View for PlanRow {
    type V = PlanModel;

    open spec fn view(&self) -> PlanModel {
        PlanModel {
            id: self.id,
            created_at: self.created_at,
            expires_at: self.expires_at,
            policy_hash: self.policy_hash@,
            generation_id: self.generation_id,
            coverage_incomplete: self.coverage_incomplete,
            candidate_bytes: self.candidate_bytes,
            targets: crate::store::table::rows_view(self.targets@),
        }
    }
}

} // verus!
