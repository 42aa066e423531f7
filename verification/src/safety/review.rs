//! Reviewing one project, gate by gate. A review asks for one fact after the
//! other; each is looked up only when every gate before it has been passed.

use crate::activity::{path_is_within, ActivitySignal};
use crate::identity::{copy_session, BootSessionId, FilesystemIdentity, ReviewedIdentity};
use crate::path::{path_join, path_starts_with, PathBuf};
use crate::policy::{among, is_among};
use crate::resolve::{optional_path, Answer, Finding, Resolutions, Resolved};
use crate::safety::{classify_project, project_class, CleanDecision, ProjectClass, ProjectReview, SafetyOptions, SkipReason};
use crate::storage::HostPlatform;
use crate::time::SystemTime;
use vstd::prelude::*;
use vstd::utf8::encode_utf8;

verus! {

/// What stands at the place of a project's target directory.
#[derive(Debug, Clone, Copy, PartialEq, Eq, Structural)]
pub enum TargetEntry {
    Missing,
    Directory,
    /// A file, a symbolic link, or something that could not be read.
    Other,
}

/// One fact that a review asks for.
#[derive(Debug, Clone, Copy, PartialEq, Eq, Structural)]
pub enum ReviewProbe {
    /// Whether the manifest is a regular file, not followed through a link.
    Manifest,
    /// Whether the project is a directory, not followed through a link.
    ProjectDirectory,
    ProjectIdentity,
    TargetEntry,
    TargetIdentity,
    BootSession,
    /// The bytes in the target directory.
    TargetBytes,
    /// The physical path of the project, to compare with blocked paths.
    BlockedPath,
    /// The newest write in the target directory.
    NewestWrite,
    /// The physical path of the project, to record in the review.
    CanonicalPath,
}

/// The facts that a review has so far. The outer `None` of a fact says that it
/// has not been looked up, an inner one that looking it up failed.
#[derive(Debug)]
pub struct ReviewFacts {
    pub manifest: Option<bool>,
    pub project_directory: Option<bool>,
    pub project_identity: Option<Option<FilesystemIdentity>>,
    pub target_entry: Option<TargetEntry>,
    pub target_identity: Option<Option<FilesystemIdentity>>,
    pub boot_session: Option<Option<BootSessionId>>,
    pub target_bytes: Option<Option<u64>>,
    pub blocked_path: Option<Option<PathBuf>>,
    pub newest_write: Option<Option<Option<SystemTime>>>,
    pub canonical_path: Option<Option<PathBuf>>,
}

/// What a review does next.
#[derive(Debug, PartialEq, Eq)]
pub enum ReviewStep {
    /// Resolve this path, to find the class of the project.
    Resolve(PathBuf),
    Probe(ReviewProbe),
    Reviewed(ProjectReview),
}

/// What the gates say on the facts so far.
pub enum Gate {
    /// A fact is missing.
    Ask(ReviewProbe),
    /// The measured bytes, the identities seen, and the decision.
    Decide(u64, Option<ReviewedIdentity>, CleanDecision),
}

/// The target directory of a project.
pub open spec fn target_of(project: Seq<u8>) -> Seq<u8> {
    path_join(project, encode_utf8("target"@))
}

/// Whether a scan met a problem above or below the project or its target.
pub open spec fn related_scan_error(project: Seq<u8>, errors: Seq<PathBuf>) -> bool {
    exists|i: int|
        0 <= i < errors.len() && {
            let error = (#[trigger] errors[i])@;
            ||| path_starts_with(error, project)
            ||| path_starts_with(project, error)
            ||| path_starts_with(error, target_of(project))
            ||| path_starts_with(target_of(project), error)
        }
}

/// Whether a process works in the project.
pub open spec fn has_activity(project: Seq<u8>, activity: Seq<ActivitySignal>) -> bool {
    exists|i: int| 0 <= i < activity.len() && path_starts_with((#[trigger] activity[i]).project_path@, project)
}

/// How long ago the newest write was, in nanoseconds; a write in the future
/// counts as one just now.
pub open spec fn age_of(now: int, newest: int) -> int {
    if now >= newest {
        now - newest
    } else {
        0
    }
}

/// A skip before the target is measured.
pub open spec fn refuse(reason: SkipReason) -> Gate {
    Gate::Decide(0, None, CleanDecision::Skipped(reason))
}

/// The gates that concern what the project is: a manifest, a directory, and a
/// target directory on the same device and mount.
pub open spec fn identity_gate(facts: ReviewFacts) -> Result<ReviewedIdentity, Gate> {
    match facts.manifest {
        None => Err(Gate::Ask(ReviewProbe::Manifest)),
        Some(false) => Err(refuse(SkipReason::InvalidManifest)),
        Some(true) => match facts.project_directory {
            None => Err(Gate::Ask(ReviewProbe::ProjectDirectory)),
            Some(false) => Err(refuse(SkipReason::ProjectIdentityUnavailable)),
            Some(true) => match facts.project_identity {
                None => Err(Gate::Ask(ReviewProbe::ProjectIdentity)),
                Some(None) => Err(refuse(SkipReason::ProjectIdentityUnavailable)),
                Some(Some(project)) => match facts.target_entry {
                    None => Err(Gate::Ask(ReviewProbe::TargetEntry)),
                    Some(TargetEntry::Missing) => Err(refuse(SkipReason::NoTarget)),
                    Some(TargetEntry::Other) => Err(refuse(SkipReason::TargetIdentityUnavailable)),
                    Some(TargetEntry::Directory) => match facts.target_identity {
                        None => Err(Gate::Ask(ReviewProbe::TargetIdentity)),
                        Some(None) => Err(refuse(SkipReason::TargetIdentityUnavailable)),
                        Some(Some(target)) => if project.device != target.device {
                            Err(refuse(SkipReason::CrossDeviceTarget))
                        } else if project.mount.0@ != target.mount.0@ {
                            Err(refuse(SkipReason::CrossMountTarget))
                        } else {
                            match facts.boot_session {
                                None => Err(Gate::Ask(ReviewProbe::BootSession)),
                                Some(boot_session) => Ok(ReviewedIdentity { project, target, boot_session }),
                            }
                        },
                    },
                },
            },
        },
    }
}

/// The barrier against managed storage, which forcing does not open.
pub open spec fn storage_gate(class: ProjectClass, opts: SafetyOptions) -> Option<SkipReason> {
    if opts.include_managed_cache {
        None
    } else {
        match class {
            ProjectClass::ManagedCache => Some(SkipReason::ManagedCache),
            ProjectClass::ContainerStorage => Some(SkipReason::ContainerStorage),
            ProjectClass::Workspace => None,
        }
    }
}

/// The barrier against incomplete discovery: a related scan error, or a block on
/// exactly this project. `Err` asks for the project's physical path.
pub open spec fn discovery_gate(
    project: Seq<u8>,
    errors: Seq<PathBuf>,
    blocks: Seq<PathBuf>,
    facts: ReviewFacts,
) -> Result<bool, ReviewProbe> {
    if related_scan_error(project, errors) || among(project, blocks) {
        Ok(true)
    } else {
        match facts.blocked_path {
            None => Err(ReviewProbe::BlockedPath),
            Some(None) => Ok(false),
            Some(Some(physical)) => Ok(among(physical@, blocks)),
        }
    }
}

/// The barrier against recent writes.
pub open spec fn quiet_gate(now: int, opts: SafetyOptions, facts: ReviewFacts) -> Result<Option<SkipReason>, ReviewProbe> {
    match facts.newest_write {
        None => Err(ReviewProbe::NewestWrite),
        Some(None) => Ok(Some(SkipReason::TargetReadError)),
        Some(Some(None)) => Ok(None),
        Some(Some(Some(newest))) => {
            let age = age_of(now, newest@);
            if age < opts.target_quiet_period@ {
                Ok(Some(SkipReason::ActiveRecentWrite { newest_age_secs: (age / 1_000_000_000) as u64 }))
            } else {
                Ok(None)
            }
        },
    }
}

/// All gates in their order: what the project is, whether the target can be
/// measured, managed storage; and unless the review is forced, discovery,
/// running processes and recent writes.
pub open spec fn review_gate(
    project: Seq<u8>,
    class: ProjectClass,
    errors: Seq<PathBuf>,
    blocks: Seq<PathBuf>,
    activity: Seq<ActivitySignal>,
    now: int,
    opts: SafetyOptions,
    facts: ReviewFacts,
) -> Gate {
    match identity_gate(facts) {
        Err(gate) => gate,
        Ok(identity) => match facts.target_bytes {
            None => Gate::Ask(ReviewProbe::TargetBytes),
            Some(None) => Gate::Decide(0, Some(identity), CleanDecision::Skipped(SkipReason::TargetReadError)),
            Some(Some(bytes)) => match storage_gate(class, opts) {
                Some(reason) => Gate::Decide(bytes, Some(identity), CleanDecision::Skipped(reason)),
                None => if opts.force {
                    Gate::Decide(bytes, Some(identity), CleanDecision::Cleanable)
                } else {
                    match discovery_gate(project, errors, blocks, facts) {
                        Err(probe) => Gate::Ask(probe),
                        Ok(true) => Gate::Decide(
                            bytes,
                            Some(identity),
                            CleanDecision::Skipped(SkipReason::ScanError),
                        ),
                        Ok(false) => if !opts.include_active && has_activity(project, activity) {
                            Gate::Decide(bytes, Some(identity), CleanDecision::Skipped(SkipReason::ActiveProcess))
                        } else {
                            match quiet_gate(now, opts, facts) {
                                Err(probe) => Gate::Ask(probe),
                                Ok(Some(reason)) => Gate::Decide(bytes, Some(identity), CleanDecision::Skipped(reason)),
                                Ok(None) => Gate::Decide(bytes, Some(identity), CleanDecision::Cleanable),
                            }
                        },
                    }
                },
            },
        },
    }
}

/// A cleanable project without a physical path is not cleanable after all.
pub open spec fn recorded_decision(decision: CleanDecision, canonical: Option<PathBuf>) -> CleanDecision {
    if canonical is None && decision == CleanDecision::Cleanable {
        CleanDecision::Skipped(SkipReason::ProjectIdentityUnavailable)
    } else {
        decision
    }
}

/// Whether a review records what the gates decided on a project.
pub open spec fn records(
    review: ProjectReview,
    project: Seq<u8>,
    class: ProjectClass,
    bytes: u64,
    identity: Option<ReviewedIdentity>,
    decision: CleanDecision,
    canonical: Option<PathBuf>,
) -> bool {
    &&& review.path@ == project
    &&& optional_path(review.canonical_path) == optional_path(canonical)
    &&& review.class == class
    &&& review.target_path@ == target_of(project)
    &&& review.target_bytes == bytes
    &&& review.reviewed_identity == identity
    &&& review.decision == recorded_decision(decision, canonical)
}

/// Whether a step is the right one on the facts so far.
pub open spec fn is_review_step(
    step: ReviewStep,
    project: Seq<u8>,
    class: ProjectClass,
    errors: Seq<PathBuf>,
    blocks: Seq<PathBuf>,
    activity: Seq<ActivitySignal>,
    now: int,
    opts: SafetyOptions,
    facts: ReviewFacts,
) -> bool {
    match review_gate(project, class, errors, blocks, activity, now, opts, facts) {
        Gate::Ask(probe) => step == ReviewStep::Probe(probe),
        Gate::Decide(bytes, identity, decision) => match facts.canonical_path {
            None => step == ReviewStep::Probe(ReviewProbe::CanonicalPath),
            Some(canonical) => step matches ReviewStep::Reviewed(review) && records(
                review,
                project,
                class,
                bytes,
                identity,
                decision,
                canonical,
            ),
        },
    }
}

/// Whether a step is the right one for a project whose class follows from where it
/// lies, on the facts and the resolved paths so far.
pub open spec fn is_project_step(
    step: ReviewStep,
    project: Seq<u8>,
    home: Seq<u8>,
    platform: HostPlatform,
    known: Map<Seq<u8>, Resolved>,
    errors: Seq<PathBuf>,
    blocks: Seq<PathBuf>,
    activity: Seq<ActivitySignal>,
    now: int,
    opts: SafetyOptions,
    facts: ReviewFacts,
) -> bool {
    match project_class(known, project, home, platform) {
        Finding::Unresolved(path) => step matches ReviewStep::Resolve(asked) && asked@ == path,
        Finding::Known(class) => is_review_step(
            step,
            project,
            class,
            errors,
            blocks,
            activity,
            now,
            opts,
            facts,
        ),
    }
}

fn has_related_scan_error(project: &PathBuf, target_path: &PathBuf, scan_error_paths: &Vec<PathBuf>) -> (related: bool)
    requires
        target_path@ == target_of(project@),
    ensures
        related == related_scan_error(project@, scan_error_paths@),
{
    let mut i: usize = 0;
    while i < scan_error_paths.len()
        invariant
            i <= scan_error_paths.len(),
            target_path@ == target_of(project@),
            forall|k: int|
                0 <= k < i ==> {
                    let error = (#[trigger] scan_error_paths@[k])@;
                    &&& !path_starts_with(error, project@)
                    &&& !path_starts_with(project@, error)
                    &&& !path_starts_with(error, target_of(project@))
                    &&& !path_starts_with(target_of(project@), error)
                },
        decreases scan_error_paths.len() - i,
    {
        let error = &scan_error_paths[i];
        if path_is_within(error, project) || path_is_within(project, error) || path_is_within(error, target_path)
            || path_is_within(target_path, error) {
            assert(scan_error_paths@[i as int]@ == error@);
            return true;
        }
        i += 1;
    }
    false
}

fn has_project_activity(project: &PathBuf, activity: &Vec<ActivitySignal>) -> (active: bool)
    ensures
        active == has_activity(project@, activity@),
{
    let mut i: usize = 0;
    while i < activity.len()
        invariant
            i <= activity.len(),
            forall|k: int| 0 <= k < i ==> !path_starts_with((#[trigger] activity@[k]).project_path@, project@),
        decreases activity.len() - i,
    {
        if path_is_within(&activity[i].project_path, project) {
            assert(path_starts_with(activity@[i as int].project_path@, project@));
            return true;
        }
        i += 1;
    }
    false
}

/// What the identity gates give: the identities, or a step that ends the review
/// or goes on with it.
enum Checked {
    Passed(ReviewedIdentity),
    Ask(ReviewProbe),
    Refused(SkipReason),
}

fn check_identity(facts: &ReviewFacts) -> (checked: Checked)
    ensures
        match identity_gate(*facts) {
            Ok(identity) => checked == Checked::Passed(identity),
            Err(Gate::Ask(probe)) => checked == Checked::Ask(probe),
            Err(gate) => checked matches Checked::Refused(reason) && gate == refuse(reason),
        },
{
    match facts.manifest {
        None => return Checked::Ask(ReviewProbe::Manifest),
        Some(false) => return Checked::Refused(SkipReason::InvalidManifest),
        Some(true) => {},
    }
    match facts.project_directory {
        None => return Checked::Ask(ReviewProbe::ProjectDirectory),
        Some(false) => return Checked::Refused(SkipReason::ProjectIdentityUnavailable),
        Some(true) => {},
    }
    let project = match &facts.project_identity {
        None => return Checked::Ask(ReviewProbe::ProjectIdentity),
        Some(None) => return Checked::Refused(SkipReason::ProjectIdentityUnavailable),
        Some(Some(identity)) => identity,
    };
    match facts.target_entry {
        None => return Checked::Ask(ReviewProbe::TargetEntry),
        Some(TargetEntry::Missing) => return Checked::Refused(SkipReason::NoTarget),
        Some(TargetEntry::Other) => return Checked::Refused(SkipReason::TargetIdentityUnavailable),
        Some(TargetEntry::Directory) => {},
    }
    let target = match &facts.target_identity {
        None => return Checked::Ask(ReviewProbe::TargetIdentity),
        Some(None) => return Checked::Refused(SkipReason::TargetIdentityUnavailable),
        Some(Some(identity)) => identity,
    };
    if project.device != target.device {
        return Checked::Refused(SkipReason::CrossDeviceTarget);
    }
    if project.mount.0 != target.mount.0 {
        return Checked::Refused(SkipReason::CrossMountTarget);
    }
    match &facts.boot_session {
        None => Checked::Ask(ReviewProbe::BootSession),
        Some(boot_session) => Checked::Passed(
            ReviewedIdentity {
                project: project.clone(),
                target: target.clone(),
                boot_session: copy_session(boot_session),
            },
        ),
    }
}

fn finish_review(
    project: &PathBuf,
    class: ProjectClass,
    target_bytes: u64,
    reviewed_identity: Option<ReviewedIdentity>,
    decision: CleanDecision,
    facts: &ReviewFacts,
) -> (step: ReviewStep)
    ensures
        match facts.canonical_path {
            None => step == ReviewStep::Probe(ReviewProbe::CanonicalPath),
            Some(canonical) => step matches ReviewStep::Reviewed(review) && records(
                review,
                project@,
                class,
                target_bytes,
                reviewed_identity,
                decision,
                canonical,
            ),
        },
{
    let canonical_path = match &facts.canonical_path {
        None => return ReviewStep::Probe(ReviewProbe::CanonicalPath),
        Some(Some(path)) => Some(path.clone()),
        Some(None) => None,
    };
    let decision = if canonical_path.is_none() && decision == CleanDecision::Cleanable {
        CleanDecision::Skipped(SkipReason::ProjectIdentityUnavailable)
    } else {
        decision
    };
    ReviewStep::Reviewed(
        ProjectReview {
            path: project.clone(),
            canonical_path,
            class,
            target_path: project.join(&PathBuf::new("target")),
            target_bytes,
            reviewed_identity,
            decision,
        },
    )
}

/// The next step in the review of a project of a known class: the fact to look up,
/// or the finished review.
pub fn review_classified_project(
    project: &PathBuf,
    class: ProjectClass,
    scan_error_paths: &Vec<PathBuf>,
    discovery_blocked_paths: &Vec<PathBuf>,
    activity: &Vec<ActivitySignal>,
    now: SystemTime,
    opts: &SafetyOptions,
    facts: &ReviewFacts,
) -> (step: ReviewStep)
    ensures
        is_review_step(
            step,
            project@,
            class,
            scan_error_paths@,
            discovery_blocked_paths@,
            activity@,
            now@,
            *opts,
            *facts,
        ),
{
    let identity = match check_identity(facts) {
        Checked::Ask(probe) => return ReviewStep::Probe(probe),
        Checked::Refused(reason) => {
            return finish_review(project, class, 0, None, CleanDecision::Skipped(reason), facts);
        },
        Checked::Passed(identity) => identity,
    };
    let reviewed = Some(identity);
    let bytes: u64 = match facts.target_bytes {
        None => return ReviewStep::Probe(ReviewProbe::TargetBytes),
        Some(None) => {
            return finish_review(
                project,
                class,
                0,
                reviewed,
                CleanDecision::Skipped(SkipReason::TargetReadError),
                facts,
            );
        },
        Some(Some(bytes)) => bytes,
    };
    if !opts.include_managed_cache {
        match class {
            ProjectClass::ManagedCache => {
                return finish_review(
                    project,
                    class,
                    bytes,
                    reviewed,
                    CleanDecision::Skipped(SkipReason::ManagedCache),
                    facts,
                );
            },
            ProjectClass::ContainerStorage => {
                return finish_review(
                    project,
                    class,
                    bytes,
                    reviewed,
                    CleanDecision::Skipped(SkipReason::ContainerStorage),
                    facts,
                );
            },
            ProjectClass::Workspace => {},
        }
    }
    if opts.force {
        return finish_review(project, class, bytes, reviewed, CleanDecision::Cleanable, facts);
    }
    let target_path = project.join(&PathBuf::new("target"));
    let blocked = if has_related_scan_error(project, &target_path, scan_error_paths) || is_among(
        project,
        discovery_blocked_paths,
    ) {
        true
    } else {
        match &facts.blocked_path {
            None => return ReviewStep::Probe(ReviewProbe::BlockedPath),
            Some(None) => false,
            Some(Some(physical)) => is_among(physical, discovery_blocked_paths),
        }
    };
    if blocked {
        return finish_review(
            project,
            class,
            bytes,
            reviewed,
            CleanDecision::Skipped(SkipReason::ScanError),
            facts,
        );
    }
    if !opts.include_active && has_project_activity(project, activity) {
        return finish_review(
            project,
            class,
            bytes,
            reviewed,
            CleanDecision::Skipped(SkipReason::ActiveProcess),
            facts,
        );
    }
    match facts.newest_write {
        None => return ReviewStep::Probe(ReviewProbe::NewestWrite),
        Some(None) => {
            return finish_review(
                project,
                class,
                bytes,
                reviewed,
                CleanDecision::Skipped(SkipReason::TargetReadError),
                facts,
            );
        },
        Some(Some(None)) => {},
        Some(Some(Some(newest))) => {
            let age = match now.duration_since(&newest) {
                Some(age) => age,
                None => crate::time::Duration::from_secs(0),
            };
            if age.is_shorter(&opts.target_quiet_period) {
                let newest_age_secs: u64 = age.as_secs();
                return finish_review(
                    project,
                    class,
                    bytes,
                    reviewed,
                    CleanDecision::Skipped(SkipReason::ActiveRecentWrite { newest_age_secs }),
                    facts,
                );
            }
        },
    }
    finish_review(project, class, bytes, reviewed, CleanDecision::Cleanable, facts)
}

/// The next step in the review of a project: the path to resolve or the fact to
/// look up, or the finished review. The class of the project is settled first.
pub fn review_project_with_identity_provider(
    project: &PathBuf,
    home: &PathBuf,
    platform: HostPlatform,
    known: &Resolutions,
    scan_error_paths: &Vec<PathBuf>,
    discovery_blocked_paths: &Vec<PathBuf>,
    activity: &Vec<ActivitySignal>,
    now: SystemTime,
    opts: &SafetyOptions,
    facts: &ReviewFacts,
) -> (step: ReviewStep)
    ensures
        is_project_step(
            step,
            project@,
            home@,
            platform,
            known@,
            scan_error_paths@,
            discovery_blocked_paths@,
            activity@,
            now@,
            *opts,
            *facts,
        ),
{
    match classify_project(project, home, platform, known) {
        Answer::Unresolved(path) => ReviewStep::Resolve(path),
        Answer::Known(class) => review_classified_project(
            project,
            class,
            scan_error_paths,
            discovery_blocked_paths,
            activity,
            now,
            opts,
            facts,
        ),
    }
}

/// The next step in the review of a project, with paths that discovery blocks.
pub fn review_project_with_discovery_blocks(
    project: &PathBuf,
    home: &PathBuf,
    platform: HostPlatform,
    known: &Resolutions,
    scan_error_paths: &Vec<PathBuf>,
    discovery_blocked_paths: &Vec<PathBuf>,
    activity: &Vec<ActivitySignal>,
    now: SystemTime,
    opts: &SafetyOptions,
    facts: &ReviewFacts,
) -> (step: ReviewStep)
    ensures
        is_project_step(
            step,
            project@,
            home@,
            platform,
            known@,
            scan_error_paths@,
            discovery_blocked_paths@,
            activity@,
            now@,
            *opts,
            *facts,
        ),
{
    review_project_with_identity_provider(
        project,
        home,
        platform,
        known,
        scan_error_paths,
        discovery_blocked_paths,
        activity,
        now,
        opts,
        facts,
    )
}

/// The next step in the review of a project that discovery does not block.
pub fn review_project(
    project: &PathBuf,
    home: &PathBuf,
    platform: HostPlatform,
    known: &Resolutions,
    scan_error_paths: &Vec<PathBuf>,
    activity: &Vec<ActivitySignal>,
    now: SystemTime,
    opts: &SafetyOptions,
    facts: &ReviewFacts,
) -> (step: ReviewStep)
    ensures
        is_project_step(
            step,
            project@,
            home@,
            platform,
            known@,
            scan_error_paths@,
            seq![],
            activity@,
            now@,
            *opts,
            *facts,
        ),
{
    let none: Vec<PathBuf> = Vec::new();
    assert(none@ =~= seq![]);
    review_project_with_discovery_blocks(
        project,
        home,
        platform,
        known,
        scan_error_paths,
        &none,
        activity,
        now,
        opts,
        facts,
    )
}

/// Whether the facts show a project that passes every gate.
pub open spec fn passes_every_gate(
    project: Seq<u8>,
    class: ProjectClass,
    errors: Seq<PathBuf>,
    blocks: Seq<PathBuf>,
    activity: Seq<ActivitySignal>,
    now: int,
    opts: SafetyOptions,
    facts: ReviewFacts,
) -> bool {
    &&& facts.manifest == Some(true)
    &&& facts.project_directory == Some(true)
    &&& facts.target_entry == Some(TargetEntry::Directory)
    &&& facts.project_identity matches Some(Some(project_identity))
    &&& facts.target_identity matches Some(Some(target_identity))
    &&& project_identity.device == target_identity.device
    &&& project_identity.mount.0@ == target_identity.mount.0@
    &&& facts.boot_session is Some
    &&& facts.target_bytes matches Some(Some(bytes))
    &&& class == ProjectClass::Workspace || opts.include_managed_cache
    &&& !opts.force ==> {
        &&& !related_scan_error(project, errors)
        &&& !among(project, blocks)
        &&& facts.blocked_path matches Some(physical)
        &&& physical matches Some(p) ==> !among(p@, blocks)
        &&& opts.include_active || !has_activity(project, activity)
        &&& facts.newest_write matches Some(Some(newest))
        &&& newest matches Some(time) ==> age_of(now, time@) >= opts.target_quiet_period@
    }
    &&& facts.canonical_path matches Some(Some(_))
}

/// A review finds a project cleanable exactly if it passes every gate of the class
/// that it has by where it lies: nothing else makes it so, and passing them all is
/// enough.
pub proof fn cleanable_means_every_gate(
    step: ReviewStep,
    project: Seq<u8>,
    home: Seq<u8>,
    platform: HostPlatform,
    known: Map<Seq<u8>, Resolved>,
    errors: Seq<PathBuf>,
    blocks: Seq<PathBuf>,
    activity: Seq<ActivitySignal>,
    now: int,
    opts: SafetyOptions,
    facts: ReviewFacts,
)
    requires
        is_project_step(step, project, home, platform, known, errors, blocks, activity, now, opts, facts),
    ensures
        (step matches ReviewStep::Reviewed(review) && review.decision == CleanDecision::Cleanable) <==> (project_class(
            known,
            project,
            home,
            platform,
        ) matches Finding::Known(class) && passes_every_gate(
            project,
            class,
            errors,
            blocks,
            activity,
            now,
            opts,
            facts,
        )),
        step matches ReviewStep::Reviewed(review) ==> (review.decision == CleanDecision::Cleanable
            ==> review.reviewed_identity is Some && review.canonical_path is Some),
{
}

/// Forcing a review does not admit managed storage: without the option that
/// includes it, no project that lies there is cleanable.
pub proof fn force_does_not_admit_managed_storage(
    step: ReviewStep,
    project: Seq<u8>,
    home: Seq<u8>,
    platform: HostPlatform,
    known: Map<Seq<u8>, Resolved>,
    errors: Seq<PathBuf>,
    blocks: Seq<PathBuf>,
    activity: Seq<ActivitySignal>,
    now: int,
    opts: SafetyOptions,
    facts: ReviewFacts,
)
    requires
        is_project_step(step, project, home, platform, known, errors, blocks, activity, now, opts, facts),
        project_class(known, project, home, platform) != Finding::Known(ProjectClass::Workspace),
        !opts.include_managed_cache,
    ensures
        step matches ReviewStep::Reviewed(review) ==> review.decision != CleanDecision::Cleanable,
{
}

/// A fact that has not been asked for does not matter: once a review is finished,
/// learning more facts leaves it as it is.
pub proof fn finished_review_is_stable(
    project: Seq<u8>,
    class: ProjectClass,
    errors: Seq<PathBuf>,
    blocks: Seq<PathBuf>,
    activity: Seq<ActivitySignal>,
    now: int,
    opts: SafetyOptions,
    facts: ReviewFacts,
    more: ReviewFacts,
)
    requires
        review_gate(project, class, errors, blocks, activity, now, opts, facts) is Decide,
        facts.manifest is Some ==> more.manifest == facts.manifest,
        facts.project_directory is Some ==> more.project_directory == facts.project_directory,
        facts.project_identity is Some ==> more.project_identity == facts.project_identity,
        facts.target_entry is Some ==> more.target_entry == facts.target_entry,
        facts.target_identity is Some ==> more.target_identity == facts.target_identity,
        facts.boot_session is Some ==> more.boot_session == facts.boot_session,
        facts.target_bytes is Some ==> more.target_bytes == facts.target_bytes,
        facts.blocked_path is Some ==> more.blocked_path == facts.blocked_path,
        facts.newest_write is Some ==> more.newest_write == facts.newest_write,
    ensures
        review_gate(project, class, errors, blocks, activity, now, opts, more) == review_gate(
            project,
            class,
            errors,
            blocks,
            activity,
            now,
            opts,
            facts,
        ),
{
}

} // verus!
