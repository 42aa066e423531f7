//! The background process: when it scans and cleans, and what a cycle does.

use crate::path::{copy_paths, path_views, same_path, PathBuf};
use crate::policy::{among, is_among};
use crate::resolve::optional_path;
use crate::scanner::{DiscoveryOriginResult, ScanError, ScanErrorKind, ScanReport, WorktreeDiscovery};
use crate::store::rows::{
    copy_identity, copy_text, optional_identity, optional_text, ErrorRecord, GenerationReconciliation,
    ObservationReconciliation, OriginReconciliation, ScanPublication, WorktreeReconciliation,
};
use crate::time::{Duration, SystemTime};
use vstd::prelude::*;
use vstd::utf8::*;

pub mod cycle;
pub mod laws;
pub mod outcomes;
pub mod run;
pub mod schedule;
pub mod turns;

verus! {

/// A request to stop.
#[derive(Debug, Clone, Copy, PartialEq, Eq)]
pub struct ShutdownFlag {
    pub requested: bool,
}

impl ShutdownFlag {
    /// No request yet.
    pub fn new() -> (flag: ShutdownFlag)
        ensures
            !flag.requested,
    {
        ShutdownFlag { requested: false }
    }

    /// Asks to stop.
    pub fn request(&mut self)
        ensures
            final(self).requested,
    {
        self.requested = true;
    }

    /// Whether it was asked to stop.
    pub fn is_requested(&self) -> (requested: bool)
        ensures
            requested == self.requested,
    {
        self.requested
    }
}

impl Default for ShutdownFlag {
    fn default() -> (flag: Self)
        ensures
            !flag.requested,
    {
        ShutdownFlag::new()
    }
}

/// How often the process acts, and how long a target has to be quiet.
#[derive(Debug, Clone, Copy)]
pub struct DaemonOptions {
    pub clean_interval: Duration,
    pub scan_interval: Duration,
    pub target_quiet_period: Duration,
}

impl Default for DaemonOptions {
    fn default() -> (options: Self)
        ensures
            options.clean_interval@ == 24 * 3600 * 1_000_000_000nat,
            options.scan_interval@ == 24 * 3600 * 1_000_000_000nat,
            options.target_quiet_period@ == 2 * 3600 * 1_000_000_000nat,
    {
        DaemonOptions {
            clean_interval: Duration::from_secs(24 * 60 * 60),
            scan_interval: Duration::from_secs(24 * 60 * 60),
            target_quiet_period: Duration::from_secs(2 * 60 * 60),
        }
    }
}

/// What a cleanup cycle did.
#[derive(Debug, Clone, Copy, PartialEq, Eq, Structural)]
pub struct RunCycleResult {
    pub run_id: i64,
    pub cleaned: i64,
    pub skipped: i64,
    pub bytes_recovered: i64,
    pub errors: i64,
    pub cargo_failures: i64,
    pub measurement_failures: i64,
    pub cleanup_failures: i64,
    pub coverage_incomplete: bool,
}

/// What a scan cycle did.
#[derive(Debug, PartialEq, Eq)]
pub struct ScanCycleResult {
    pub errors: usize,
    pub generation: i64,
    pub policy_hash: String,
    pub origins: Vec<DiscoveryOriginResult>,
}

/// Where the targets of a run come from.
#[derive(Debug, Clone, Copy, PartialEq, Eq, Structural)]
pub enum RunSource {
    /// Whatever the current discovery authorizes.
    Dynamic,
    /// A plan that was reviewed before.
    Reviewed,
}

/// The label of a source.
pub open spec fn source_label(source: RunSource) -> Seq<char> {
    match source {
        RunSource::Dynamic => "run"@,
        RunSource::Reviewed => "reviewed-run"@,
    }
}

impl RunSource {
    /// The label of the source.
    pub fn label(self) -> (label: &'static str)
        ensures
            label@ == source_label(self),
    {
        match self {
            RunSource::Dynamic => "run",
            RunSource::Reviewed => "reviewed-run",
        }
    }
}

// ------------------------------------------------------------------ discovery

/// Whether an earlier project of a completed origin has this path: one of an
/// earlier origin, or an earlier one of origin `i`.
pub open spec fn seen_before(origins: Seq<DiscoveryOriginResult>, i: int, j: int, path: Seq<u8>) -> bool {
    exists|a: int, b: int| #[trigger] observed_at(origins, a, b, path) && (a < i || (a == i && b < j))
}

/// Whether project `b` of the completed origin `a` has this path.
pub open spec fn observed_at(origins: Seq<DiscoveryOriginResult>, a: int, b: int, path: Seq<u8>) -> bool {
    0 <= a < origins.len() && origins[a].completed && 0 <= b < origins[a].projects@.len() && same_path(
        origins[a].projects@[b].path@,
        path,
    )
}

/// Whether project `j` of origin `i` is authorized: its origin is completed, and
/// no earlier one counts for it.
pub open spec fn authorized_at(origins: Seq<DiscoveryOriginResult>, i: int, j: int) -> bool {
    origins[i].completed && !seen_before(origins, i, j, origins[i].projects@[j].path@)
}

/// Whether an observation to be stored is project `j` of origin `i`.
pub open spec fn reconciles_project(
    observation: ObservationReconciliation,
    origins: Seq<DiscoveryOriginResult>,
    i: int,
    j: int,
    observed_at_time: SystemTime,
) -> bool {
    let project = origins[i].projects@[j];
    &&& observation.project_path@ == project.path@
    &&& observation.project_identity@ == project.project_identity@
    &&& optional_identity(observation.target_identity) == optional_identity(project.target_identity)
    &&& observation.observed_at == observed_at_time
    &&& observation.authorized == authorized_at(origins, i, j)
    &&& optional_text(observation.blocked_reason) == (if origins[i].completed && !authorized_at(origins, i, j) {
        Some("duplicate observation from overlapping origin"@)
    } else {
        None
    })
}

/// Whether an origin to be stored is origin `i`.
pub open spec fn reconciles_origin(
    origin: OriginReconciliation,
    origins: Seq<DiscoveryOriginResult>,
    i: int,
    observed_at_time: SystemTime,
) -> bool {
    &&& origin.kind == origins[i].kind
    &&& origin.configured_path@ == origins[i].configured_path@
    &&& optional_path(origin.canonical_path) == optional_path(origins[i].canonical_path)
    &&& origin.completed == origins[i].completed
    &&& optional_text(origin.error) == optional_text(origins[i].error)
    &&& origin.observations@.len() == origins[i].projects@.len()
    &&& forall|j: int|
        0 <= j < origin.observations@.len() ==> reconciles_project(
            #[trigger] origin.observations@[j],
            origins,
            i,
            j,
            observed_at_time,
        )
}

fn copy_path(path: &Option<PathBuf>) -> (copy: Option<PathBuf>)
    ensures
        optional_path(copy) == optional_path(*path),
{
    match path {
        Some(p) => Some(p.clone()),
        None => None,
    }
}

/// The generation that a discovery stores: each project once, for the first
/// completed origin that saw it.
pub fn generation_reconciliation(
    origins: &Vec<DiscoveryOriginResult>,
    policy_hash: &str,
    boot_session_id: &Option<String>,
    observed_at_time: SystemTime,
) -> (generation: GenerationReconciliation)
    ensures
        generation.policy_hash@ == policy_hash@,
        optional_text(generation.boot_session_id) == optional_text(*boot_session_id),
        generation.origins@.len() == origins@.len(),
        forall|i: int|
            0 <= i < origins@.len() ==> reconciles_origin(
                #[trigger] generation.origins@[i],
                origins@,
                i,
                observed_at_time,
            ),
{
    let ghost all = origins@;
    let mut authorized: Vec<PathBuf> = Vec::new();
    let mut list: Vec<OriginReconciliation> = Vec::new();
    let mut i: usize = 0;
    while i < origins.len()
        invariant
            i <= origins.len(),
            all == origins@,
            list@.len() == i,
            forall|k: int| 0 <= k < i ==> reconciles_origin(#[trigger] list@[k], all, k, observed_at_time),
            forall|path: Seq<u8>| among(path, authorized@) <==> #[trigger] seen_before(all, i as int, 0, path),
        decreases origins.len() - i,
    {
        let origin = &origins[i];
        let mut observations: Vec<ObservationReconciliation> = Vec::new();
        let mut j: usize = 0;
        while j < origin.projects.len()
            invariant
                i < origins.len(),
                all == origins@,
                *origin == all[i as int],
                j <= origin.projects.len(),
                observations@.len() == j,
                forall|k: int|
                    0 <= k < j ==> reconciles_project(
                        #[trigger] observations@[k],
                        all,
                        i as int,
                        k,
                        observed_at_time,
                    ),
                forall|path: Seq<u8>|
                    among(path, authorized@) <==> #[trigger] seen_before(all, i as int, j as int, path),
            decreases origin.projects.len() - j,
        {
            let project = &origin.projects[j];
            let is_new = origin.completed && !is_among(&project.path, &authorized);
            assert(is_new == authorized_at(all, i as int, j as int)) by {
                assert(among(project.path@, authorized@) <==> seen_before(
                    all,
                    i as int,
                    j as int,
                    project.path@,
                ));
            }
            let ghost before = authorized@;
            if is_new {
                authorized.push(project.path.clone());
            }
            proof {
                assert forall|path: Seq<u8>|
                    among(path, authorized@) <==> #[trigger] seen_before(all, i as int, j + 1, path) by {
                    assert(among(path, before) <==> seen_before(all, i as int, j as int, path));
                    if seen_before(all, i as int, j as int, path) {
                        let (a, b) = choose|a: int, b: int|
                            #[trigger] observed_at(all, a, b, path) && (a < i || (a == i && b < j));
                        assert(observed_at(all, a, b, path));
                        let k = choose|k: int| 0 <= k < before.len() && same_path(path, (#[trigger] before[k])@);
                        assert(authorized@[k] == before[k]);
                    }
                    if among(path, authorized@) {
                        let k = choose|k: int|
                            0 <= k < authorized@.len() && same_path(path, (#[trigger] authorized@[k])@);
                        if k < before.len() {
                            assert(authorized@[k] == before[k]);
                            assert(among(path, before));
                            let (a, b) = choose|a: int, b: int|
                                #[trigger] observed_at(all, a, b, path) && (a < i || (a == i && b < j));
                            assert(observed_at(all, a, b, path));
                        } else {
                            assert(observed_at(all, i as int, j as int, path));
                        }
                    }
                    if seen_before(all, i as int, j + 1, path) {
                        let (a, b) = choose|a: int, b: int|
                            #[trigger] observed_at(all, a, b, path) && (a < i || (a == i && b < j + 1));
                        assert(observed_at(all, a, b, path));
                        if a == i && b == j {
                            if is_new {
                                assert(same_path(path, authorized@[authorized@.len() - 1]@));
                            } else {
                                assert(among(project.path@, before));
                                let k = choose|k: int|
                                    0 <= k < before.len() && same_path(project.path@, (#[trigger] before[k])@);
                                assert(same_path(path, before[k]@));
                                assert(authorized@[k] == before[k]);
                            }
                        } else {
                            assert(seen_before(all, i as int, j as int, path));
                            let k = choose|k: int| 0 <= k < before.len() && same_path(path, (#[trigger] before[k])@);
                            assert(authorized@[k] == before[k]);
                        }
                    }
                }
            }
            observations.push(
                ObservationReconciliation {
                    project_path: project.path.clone(),
                    project_identity: project.project_identity.clone(),
                    target_identity: copy_identity(&project.target_identity),
                    observed_at: observed_at_time,
                    authorized: is_new,
                    blocked_reason: if !is_new && origin.completed {
                        Some("duplicate observation from overlapping origin".to_owned())
                    } else {
                        None
                    },
                },
            );
            j += 1;
        }
        proof {
            assert forall|path: Seq<u8>| among(path, authorized@) <==> #[trigger] seen_before(all, i + 1, 0, path) by {
                assert(among(path, authorized@) <==> seen_before(all, i as int, j as int, path));
                if seen_before(all, i as int, j as int, path) {
                    let (a, b) = choose|a: int, b: int|
                        #[trigger] observed_at(all, a, b, path) && (a < i || (a == i && b < j));
                    assert(observed_at(all, a, b, path));
                }
                if seen_before(all, i + 1, 0, path) {
                    let (a, b) = choose|a: int, b: int|
                        #[trigger] observed_at(all, a, b, path) && (a < i + 1 || (a == i + 1 && b < 0));
                    assert(observed_at(all, a, b, path));
                }
            }
        }
        list.push(
            OriginReconciliation {
                kind: origin.kind,
                configured_path: origin.configured_path.clone(),
                canonical_path: copy_path(&origin.canonical_path),
                completed: origin.completed,
                error: copy_text(&origin.error),
                observations,
            },
        );
        i += 1;
    }
    GenerationReconciliation {
        policy_hash: policy_hash.to_owned(),
        boot_session_id: copy_text(boot_session_id),
        origins: list,
    }
}

/// No project is authorized twice in one discovery.
pub proof fn projects_are_authorized_once(origins: Seq<DiscoveryOriginResult>, i: int, j: int, a: int, b: int)
    requires
        0 <= i < origins.len(),
        0 <= j < origins[i].projects@.len(),
        0 <= a < origins.len(),
        0 <= b < origins[a].projects@.len(),
        a < i || (a == i && b < j),
        same_path(origins[a].projects@[b].path@, origins[i].projects@[j].path@),
    ensures
        !(authorized_at(origins, i, j) && authorized_at(origins, a, b)),
{
    if authorized_at(origins, a, b) {
        assert(observed_at(origins, a, b, origins[i].projects@[j].path@));
    }
}

/// The category under which an error of a scan is recorded.
pub open spec fn error_category(kind: ScanErrorKind) -> Seq<char> {
    match kind {
        ScanErrorKind::Scan => "scan"@,
        ScanErrorKind::WorktreeDiscovery => "worktree_discovery"@,
    }
}

/// The text of a path, if it is one.
pub open spec fn path_text(path: Seq<u8>) -> Option<Seq<char>> {
    if valid_utf8(path) {
        Some(decode_utf8(path))
    } else {
        None
    }
}

/// Whether a record is the one of a scan's error.
pub open spec fn records_scan_error(record: ErrorRecord, error: ScanError, now: SystemTime) -> bool {
    &&& record.id == 0
    &&& record.ts == now
    &&& record.category@ == error_category(error.kind)
    &&& optional_text(record.path) == path_text(error.path@)
    &&& record.message@ == error.message@
}

/// Whether a reconciliation is the one of a discovery.
pub open spec fn reconciles_worktrees(reconciliation: WorktreeReconciliation, discovery: WorktreeDiscovery) -> bool {
    match discovery {
        WorktreeDiscovery::Success { primary, linked, excluded, out_of_scope } => reconciliation matches
            WorktreeReconciliation::Success { primary: p, linked: l, excluded: e, out_of_scope: o } && p@ == primary@
            && path_views(l@) == path_views(linked@) && path_views(e@) == path_views(excluded@) && path_views(o@)
            == path_views(out_of_scope@),
        WorktreeDiscovery::Failure { primary, message } => reconciliation matches WorktreeReconciliation::Failure {
            primary: p,
            message: m,
        } && p@ == primary@ && m@ == message@,
    }
}

/// Everything that a scan publishes.
pub fn scan_publication(report: &ScanReport, generation: GenerationReconciliation, now: SystemTime) -> (publication: ScanPublication)
    ensures
        publication.generation == generation,
        publication.worktrees@.len() == report.worktree_discoveries@.len(),
        forall|i: int|
            0 <= i < report.worktree_discoveries@.len() ==> reconciles_worktrees(
                #[trigger] publication.worktrees@[i],
                report.worktree_discoveries@[i],
            ),
        publication.diagnostics@.len() == report.errors@.len(),
        forall|i: int|
            0 <= i < report.errors@.len() ==> records_scan_error(
                #[trigger] publication.diagnostics@[i],
                report.errors@[i],
                now,
            ),
{
    let mut worktrees: Vec<WorktreeReconciliation> = Vec::new();
    let mut i: usize = 0;
    while i < report.worktree_discoveries.len()
        invariant
            i <= report.worktree_discoveries.len(),
            worktrees@.len() == i,
            forall|k: int|
                0 <= k < i ==> reconciles_worktrees(#[trigger] worktrees@[k], report.worktree_discoveries@[k]),
        decreases report.worktree_discoveries.len() - i,
    {
        worktrees.push(
            match &report.worktree_discoveries[i] {
                WorktreeDiscovery::Success { primary, linked, excluded, out_of_scope } =>
                    WorktreeReconciliation::Success {
                    primary: primary.clone(),
                    linked: copy_paths(linked),
                    excluded: copy_paths(excluded),
                    out_of_scope: copy_paths(out_of_scope),
                },
                WorktreeDiscovery::Failure { primary, message } => WorktreeReconciliation::Failure {
                    primary: primary.clone(),
                    message: message.clone(),
                },
            },
        );
        i += 1;
    }
    let mut diagnostics: Vec<ErrorRecord> = Vec::new();
    let mut j: usize = 0;
    while j < report.errors.len()
        invariant
            j <= report.errors.len(),
            diagnostics@.len() == j,
            forall|k: int|
                0 <= k < j ==> records_scan_error(#[trigger] diagnostics@[k], report.errors@[k], now),
        decreases report.errors.len() - j,
    {
        let error = &report.errors[j];
        diagnostics.push(
            ErrorRecord {
                id: 0,
                ts: now,
                category: match error.kind {
                    ScanErrorKind::Scan => "scan".to_owned(),
                    ScanErrorKind::WorktreeDiscovery => "worktree_discovery".to_owned(),
                },
                path: error.path.to_str(),
                message: error.message.clone(),
            },
        );
        j += 1;
    }
    ScanPublication { generation, worktrees, diagnostics }
}

} // verus!
