//! The last checks before a reviewed project is cleaned.

use crate::activity::ActivitySignal;
use crate::identity::{
    compare_persisted, comparison, same_file, BootSessionId, FilesystemIdentity, IdentityComparison, ReviewedIdentity,
};
use crate::path::{same_path, PathBuf};
use crate::policy::{views_of_roots, ProtectedRootKind, RootView, ScopePolicy};
use crate::resolve::{optional_path, physical_path, Answer, Finding, Resolutions, Resolved};
use crate::safety::review::{
    passes_every_gate, recorded_decision, review_gate, review_project_with_identity_provider, Gate, ReviewFacts, ReviewProbe,
    ReviewStep,
};
use crate::safety::{project_class, CleanDecision, ExecutionDecision, ProjectReview, SafetyOptions, SkipReason};
use crate::storage::{lies_in, lies_in_root, HostPlatform};
use crate::time::SystemTime;
use vstd::prelude::*;

verus! {

/// How a review relates to the observation that gave authority to clean.
#[derive(Debug, Clone, Copy, PartialEq, Eq, Structural)]
pub enum ObservationIdentityStatus {
    Current,
    ReverifiedAcrossBoot,
    Rejected,
}

/// Whether a physical path is the path itself.
pub open spec fn is_itself(canonical: Option<PathBuf>, path: PathBuf) -> bool {
    canonical matches Some(c) && same_path(c@, path@)
}

/// What a comparison of the observed target with the current one gives; a target
/// that was not observed is replaced, unless the observation is from an earlier
/// session.
pub open spec fn target_comparison(
    project: IdentityComparison,
    observed_boot: Option<BootSessionId>,
    current_boot: Option<BootSessionId>,
    observed: Option<FilesystemIdentity>,
    current: FilesystemIdentity,
) -> IdentityComparison {
    match observed {
        Some(identity) => comparison(observed_boot, current_boot, identity, current),
        None => if project == IdentityComparison::StaleAcrossBoot {
            IdentityComparison::StaleAcrossBoot
        } else {
            IdentityComparison::Replaced
        },
    }
}

/// The decision and the status of a review once it is bound to an observation.
pub open spec fn binding(
    review: ProjectReview,
    observed_project: FilesystemIdentity,
    observed_target: Option<FilesystemIdentity>,
    observed_boot: Option<BootSessionId>,
) -> (CleanDecision, ObservationIdentityStatus) {
    if review.decision != CleanDecision::Cleanable {
        (review.decision, ObservationIdentityStatus::Rejected)
    } else {
        match review.reviewed_identity {
            None => (
                CleanDecision::Skipped(SkipReason::ProjectIdentityUnavailable),
                ObservationIdentityStatus::Rejected,
            ),
            Some(current) => {
                let project = comparison(observed_boot, current.boot_session, observed_project, current.project);
                let target = target_comparison(
                    project,
                    observed_boot,
                    current.boot_session,
                    observed_target,
                    current.target,
                );
                if !is_itself(review.canonical_path, review.path) || project == IdentityComparison::Replaced {
                    (
                        CleanDecision::Skipped(SkipReason::ProjectIdentityChanged),
                        ObservationIdentityStatus::Rejected,
                    )
                } else if target == IdentityComparison::Replaced {
                    (
                        CleanDecision::Skipped(SkipReason::TargetIdentityChanged),
                        ObservationIdentityStatus::Rejected,
                    )
                } else if project == IdentityComparison::StaleAcrossBoot || target
                    == IdentityComparison::StaleAcrossBoot {
                    (CleanDecision::Cleanable, ObservationIdentityStatus::ReverifiedAcrossBoot)
                } else {
                    (CleanDecision::Cleanable, ObservationIdentityStatus::Current)
                }
            },
        }
    }
}

fn is_path_itself(canonical: &Option<PathBuf>, path: &PathBuf) -> (same: bool)
    ensures
        same == is_itself(*canonical, *path),
{
    match canonical {
        Some(c) => *c == *path,
        None => false,
    }
}

/// Binds a review to an observation: where the project or the target is not the
/// observed one any more, the review skips it.
pub fn bind_review_to_observation(
    review: &mut ProjectReview,
    observed_project: &FilesystemIdentity,
    observed_target: &Option<FilesystemIdentity>,
    observed_boot: &Option<BootSessionId>,
) -> (status: ObservationIdentityStatus)
    ensures
        (final(review).decision, status) == binding(
            *old(review),
            *observed_project,
            *observed_target,
            *observed_boot,
        ),
        *final(review) == (ProjectReview { decision: final(review).decision, ..*old(review) }),
{
    if review.decision != CleanDecision::Cleanable {
        return ObservationIdentityStatus::Rejected;
    }
    let compared = match &review.reviewed_identity {
        None => None,
        Some(current) => {
            let project = compare_persisted(
                observed_boot,
                &current.boot_session,
                observed_project,
                &current.project,
            );
            let target = match observed_target {
                Some(observed) => compare_persisted(observed_boot, &current.boot_session, observed, &current.target),
                None => if project == IdentityComparison::StaleAcrossBoot {
                    IdentityComparison::StaleAcrossBoot
                } else {
                    IdentityComparison::Replaced
                },
            };
            Some((project, target))
        },
    };
    let (project, target) = match compared {
        None => {
            review.decision = CleanDecision::Skipped(SkipReason::ProjectIdentityUnavailable);
            return ObservationIdentityStatus::Rejected;
        },
        Some(pair) => pair,
    };
    if !is_path_itself(&review.canonical_path, &review.path) || project == IdentityComparison::Replaced {
        review.decision = CleanDecision::Skipped(SkipReason::ProjectIdentityChanged);
        return ObservationIdentityStatus::Rejected;
    }
    if target == IdentityComparison::Replaced {
        review.decision = CleanDecision::Skipped(SkipReason::TargetIdentityChanged);
        return ObservationIdentityStatus::Rejected;
    }
    if project == IdentityComparison::StaleAcrossBoot || target == IdentityComparison::StaleAcrossBoot {
        ObservationIdentityStatus::ReverifiedAcrossBoot
    } else {
        ObservationIdentityStatus::Current
    }
}

/// Binding never makes a skipped review cleanable, and a review that stays
/// cleanable is of a project that is the observed one, or was seen in an earlier
/// session.
pub proof fn binding_never_admits(
    review: ProjectReview,
    observed_project: FilesystemIdentity,
    observed_target: Option<FilesystemIdentity>,
    observed_boot: Option<BootSessionId>,
)
    ensures
        ({
            let (decision, status) = binding(review, observed_project, observed_target, observed_boot);
            &&& decision == CleanDecision::Cleanable ==> review.decision == CleanDecision::Cleanable
            &&& decision == CleanDecision::Cleanable <==> status != ObservationIdentityStatus::Rejected
            &&& status == ObservationIdentityStatus::Current ==> {
                &&& review.reviewed_identity matches Some(current)
                &&& same_file(observed_project, current.project)
                &&& observed_target matches Some(target)
                &&& same_file(target, current.target)
            }
        }),
{
}

// -------------------------------------------------------------------- policy

/// The kind of the first protected directory of a policy that a path lies in.
pub open spec fn first_policy_root(
    known: Map<Seq<u8>, Resolved>,
    path: Seq<u8>,
    physical: Option<Seq<u8>>,
    roots: Seq<RootView>,
) -> Finding<Option<ProtectedRootKind>>
    decreases roots.len(),
{
    if roots.len() == 0 {
        Finding::Known(None)
    } else {
        match lies_in_root(known, path, physical, roots[0].path) {
            Finding::Known(true) => Finding::Known(Some(roots[0].kind)),
            Finding::Known(false) => first_policy_root(known, path, physical, roots.drop_first()),
            Finding::Unresolved(p) => Finding::Unresolved(p),
        }
    }
}

/// The reason for skipping a project in a protected directory of this kind.
pub open spec fn protection_reason(kind: ProtectedRootKind) -> SkipReason {
    match kind {
        ProtectedRootKind::Container => SkipReason::ContainerStorage,
        _ => SkipReason::ManagedCache,
    }
}

/// The reason for which a policy protects a path, if it does.
pub open spec fn policy_protection(
    known: Map<Seq<u8>, Resolved>,
    policy: ScopePolicy,
    path: Seq<u8>,
) -> Finding<Option<SkipReason>> {
    match physical_path(known, path) {
        Finding::Unresolved(p) => Finding::Unresolved(p),
        Finding::Known(physical) => match first_policy_root(
            known,
            path,
            physical,
            views_of_roots(policy.protected_roots@),
        ) {
            Finding::Unresolved(p) => Finding::Unresolved(p),
            Finding::Known(None) => Finding::Known(None),
            Finding::Known(Some(kind)) => Finding::Known(Some(protection_reason(kind))),
        },
    }
}

/// The reason for which a policy keeps a reviewed project from being cleaned, if
/// it does.
pub open spec fn policy_block(
    known: Map<Seq<u8>, Resolved>,
    policy: ScopePolicy,
    review: ProjectReview,
    opts: SafetyOptions,
) -> Finding<Option<SkipReason>> {
    match review.canonical_path {
        None => Finding::Known(Some(SkipReason::ProjectIdentityUnavailable)),
        Some(project) => if !same_path(project@, review.path@) {
            Finding::Known(Some(SkipReason::ProjectIdentityChanged))
        } else {
            match physical_path(known, review.target_path@) {
                Finding::Unresolved(p) => Finding::Unresolved(p),
                Finding::Known(target) => if !policy.contains(project@) {
                    Finding::Known(Some(SkipReason::OutOfScope))
                } else if policy.excludes(project@) || (target matches Some(t) && policy.excludes(t)) {
                    Finding::Known(Some(SkipReason::Excluded))
                } else if opts.include_managed_cache {
                    Finding::Known(None)
                } else {
                    policy_protection(known, policy, project@)
                },
            }
        },
    }
}

fn policy_protected_class(policy: &ScopePolicy, path: &PathBuf, known: &Resolutions) -> (answer: Answer<
    Option<SkipReason>,
>)
    ensures
        answer.finding() == policy_protection(known@, *policy, path@),
{
    let physical = match known.physical(path) {
        Answer::Unresolved(p) => return Answer::Unresolved(p),
        Answer::Known(physical) => physical,
    };
    let ghost all = views_of_roots(policy.protected_roots@);
    let ghost seen = optional_path(physical);
    let ghost total = first_policy_root(known@, path@, seen, all);
    let mut i: usize = 0;
    assert(all.skip(0) =~= all);
    while i < policy.protected_roots.len()
        invariant
            i <= policy.protected_roots.len(),
            all == views_of_roots(policy.protected_roots@),
            seen == optional_path(physical),
            physical_path(known@, path@) == Finding::<Option<Seq<u8>>>::Known(seen),
            total == first_policy_root(known@, path@, seen, all),
            total == first_policy_root(known@, path@, seen, all.skip(i as int)),
        decreases policy.protected_roots.len() - i,
    {
        let root = &policy.protected_roots[i];
        proof {
            assert(all.skip(i as int)[0] == root@);
            assert(all.skip(i as int).drop_first() =~= all.skip(i + 1));
        }
        match lies_in(known, path, &physical, &root.path) {
            Answer::Unresolved(p) => return Answer::Unresolved(p),
            Answer::Known(true) => {
                let reason = match root.kind {
                    ProtectedRootKind::Container => SkipReason::ContainerStorage,
                    ProtectedRootKind::Cargo | ProtectedRootKind::Rustup | ProtectedRootKind::GoModule
                    | ProtectedRootKind::Bun | ProtectedRootKind::ManagedCache => SkipReason::ManagedCache,
                };
                return Answer::Known(Some(reason));
            },
            Answer::Known(false) => {},
        }
        i += 1;
    }
    Answer::Known(None)
}

/// The reason for which a policy keeps a reviewed project from being cleaned, if
/// it does; `Unresolved` names a path that has to be resolved first.
pub fn policy_block_reason(
    policy: &ScopePolicy,
    review: &ProjectReview,
    opts: &SafetyOptions,
    known: &Resolutions,
) -> (answer: Answer<Option<SkipReason>>)
    ensures
        answer.finding() == policy_block(known@, *policy, *review, *opts),
{
    let project = match &review.canonical_path {
        None => return Answer::Known(Some(SkipReason::ProjectIdentityUnavailable)),
        Some(path) => path,
    };
    if *project != review.path {
        return Answer::Known(Some(SkipReason::ProjectIdentityChanged));
    }
    let target = match known.physical(&review.target_path) {
        Answer::Unresolved(p) => return Answer::Unresolved(p),
        Answer::Known(target) => target,
    };
    if !policy.contains_project(project) {
        return Answer::Known(Some(SkipReason::OutOfScope));
    }
    let target_excluded = match &target {
        Some(t) => policy.is_excluded(t),
        None => false,
    };
    if policy.is_excluded(project) || target_excluded {
        return Answer::Known(Some(SkipReason::Excluded));
    }
    if opts.include_managed_cache {
        return Answer::Known(None);
    }
    policy_protected_class(policy, project, known)
}

// -------------------------------------------------------------- revalidation

/// One thing that a revalidation asks for.
#[derive(Debug, PartialEq, Eq)]
pub enum RevalidationProbe {
    /// Resolve this path for the first check against the policy.
    Resolve(PathBuf),
    /// Resolve this path for the fresh review.
    ResolveForReview(PathBuf),
    /// Look up this fact for the fresh review.
    Review(ReviewProbe),
    Manifest,
    ProjectDirectory,
    TargetDirectory,
    ProjectIdentity,
    TargetIdentity,
    /// Resolve this path for the second check against the policy.
    ResolveAgain(PathBuf),
    FinalProject,
    FinalTarget,
}

/// What a revalidation has so far. The outer `None` of a fact says that it has
/// not been looked up, an inner one that looking it up failed.
#[derive(Debug)]
pub struct RevalidationFacts {
    pub before: Resolutions,
    pub review_known: Resolutions,
    pub review: ReviewFacts,
    pub manifest: Option<bool>,
    pub project_directory: Option<bool>,
    pub target_directory: Option<bool>,
    pub project_identity: Option<Option<FilesystemIdentity>>,
    pub target_identity: Option<Option<FilesystemIdentity>>,
    pub after: Resolutions,
    pub final_project: Option<Option<PathBuf>>,
    pub final_target: Option<Option<PathBuf>>,
}

/// What a revalidation does next.
#[derive(Debug, PartialEq, Eq)]
pub enum RevalidationStep {
    Probe(RevalidationProbe),
    Decided(ExecutionDecision),
}

/// The contents of a probe.
pub enum ProbeView {
    Resolve(Seq<u8>),
    ResolveForReview(Seq<u8>),
    Review(ReviewProbe),
    Manifest,
    ProjectDirectory,
    TargetDirectory,
    ProjectIdentity,
    TargetIdentity,
    ResolveAgain(Seq<u8>),
    FinalProject,
    FinalTarget,
}

/// The contents of a step.
pub enum StepView {
    Probe(ProbeView),
    Decided(ExecutionDecision),
}

impl View for RevalidationStep {
    type V = StepView;

    open spec fn view(&self) -> StepView {
        match self {
            RevalidationStep::Decided(decision) => StepView::Decided(*decision),
            RevalidationStep::Probe(probe) => StepView::Probe(
                match probe {
                    RevalidationProbe::Resolve(path) => ProbeView::Resolve(path@),
                    RevalidationProbe::ResolveForReview(path) => ProbeView::ResolveForReview(path@),
                    RevalidationProbe::Review(probe) => ProbeView::Review(*probe),
                    RevalidationProbe::Manifest => ProbeView::Manifest,
                    RevalidationProbe::ProjectDirectory => ProbeView::ProjectDirectory,
                    RevalidationProbe::TargetDirectory => ProbeView::TargetDirectory,
                    RevalidationProbe::ProjectIdentity => ProbeView::ProjectIdentity,
                    RevalidationProbe::TargetIdentity => ProbeView::TargetIdentity,
                    RevalidationProbe::ResolveAgain(path) => ProbeView::ResolveAgain(path@),
                    RevalidationProbe::FinalProject => ProbeView::FinalProject,
                    RevalidationProbe::FinalTarget => ProbeView::FinalTarget,
                },
            ),
        }
    }
}

/// A decision to skip.
pub open spec fn skip(reason: SkipReason) -> StepView {
    StepView::Decided(CleanDecision::Skipped(reason))
}

/// What surrounds a review: where the home is, what discovery left open, which
/// processes run, and the time.
pub struct Around {
    pub home: Seq<u8>,
    pub platform: HostPlatform,
    pub activity: Seq<ActivitySignal>,
    pub errors: Seq<PathBuf>,
    pub blocks: Seq<PathBuf>,
    pub now: int,
}

/// What a fresh review gives: a path to resolve, a fact to look up, or the decision
/// with the identities and the physical path that it rests on.
pub enum Fresh {
    Resolve(Seq<u8>),
    Ask(ReviewProbe),
    Reviewed(CleanDecision, Option<ReviewedIdentity>, Option<Seq<u8>>),
}

/// The fresh review of a project, by the same gates as the first and the class that
/// the project has now.
pub open spec fn fresh_review(
    project: Seq<u8>,
    around: Around,
    opts: SafetyOptions,
    known: Map<Seq<u8>, Resolved>,
    facts: ReviewFacts,
) -> Fresh {
    match project_class(known, project, around.home, around.platform) {
        Finding::Unresolved(path) => Fresh::Resolve(path),
        Finding::Known(class) => match review_gate(
            project,
            class,
            around.errors,
            around.blocks,
            around.activity,
            around.now,
            opts,
            facts,
        ) {
            Gate::Ask(probe) => Fresh::Ask(probe),
            Gate::Decide(_, identity, decision) => match facts.canonical_path {
                None => Fresh::Ask(ReviewProbe::CanonicalPath),
                Some(canonical) => Fresh::Reviewed(
                    recorded_decision(decision, canonical),
                    identity,
                    optional_path(canonical),
                ),
            },
        },
    }
}

/// Whether a fresh review is of the same project and target as the first.
pub open spec fn refreshed_step(
    review: ProjectReview,
    decision: CleanDecision,
    identity: Option<ReviewedIdentity>,
    canonical: Option<Seq<u8>>,
) -> Option<StepView> {
    if decision != CleanDecision::Cleanable {
        Some(StepView::Decided(decision))
    } else {
        match (identity, review.reviewed_identity) {
            (Some(now), Some(then)) => if !(canonical matches Some(c) && same_path(c, review.path@)) || !(match (
                canonical,
                review.canonical_path,
            ) {
                (Some(a), Some(b)) => same_path(a, b@),
                _ => false,
            }) || !same_file(now.project, then.project) {
                Some(skip(SkipReason::ProjectIdentityChanged))
            } else if !same_file(now.target, then.target) {
                Some(skip(SkipReason::TargetIdentityChanged))
            } else {
                None
            },
            _ => Some(skip(SkipReason::ProjectIdentityUnavailable)),
        }
    }
}

/// Whether manifest, project and target are still plain files and directories.
pub open spec fn plain_step(facts: RevalidationFacts) -> Option<StepView> {
    match facts.manifest {
        None => Some(StepView::Probe(ProbeView::Manifest)),
        Some(false) => Some(skip(SkipReason::ProjectIdentityUnavailable)),
        Some(true) => match facts.project_directory {
            None => Some(StepView::Probe(ProbeView::ProjectDirectory)),
            Some(false) => Some(skip(SkipReason::ProjectIdentityUnavailable)),
            Some(true) => match facts.target_directory {
                None => Some(StepView::Probe(ProbeView::TargetDirectory)),
                Some(false) => Some(skip(SkipReason::TargetIdentityUnavailable)),
                Some(true) => None,
            },
        },
    }
}

/// Whether project and target are still the reviewed ones.
pub open spec fn identity_step(review: ProjectReview, facts: RevalidationFacts) -> Option<StepView> {
    match facts.project_identity {
        None => Some(StepView::Probe(ProbeView::ProjectIdentity)),
        Some(None) => Some(skip(SkipReason::ProjectIdentityUnavailable)),
        Some(Some(project)) => match facts.target_identity {
            None => Some(StepView::Probe(ProbeView::TargetIdentity)),
            Some(None) => Some(skip(SkipReason::TargetIdentityUnavailable)),
            Some(Some(target)) => if project.device != target.device {
                Some(skip(SkipReason::CrossDeviceTarget))
            } else if project.mount.0@ != target.mount.0@ {
                Some(skip(SkipReason::CrossMountTarget))
            } else {
                match review.reviewed_identity {
                    None => Some(skip(SkipReason::ProjectIdentityUnavailable)),
                    Some(reviewed) => if !same_file(project, reviewed.project) {
                        Some(skip(SkipReason::ProjectIdentityChanged))
                    } else if !same_file(target, reviewed.target) {
                        Some(skip(SkipReason::TargetIdentityChanged))
                    } else {
                        None
                    },
                }
            },
        },
    }
}

/// Whether the physical paths are still in scope and not excluded.
pub open spec fn final_step(policy: ScopePolicy, review: ProjectReview, facts: RevalidationFacts) -> StepView {
    match facts.final_project {
        None => StepView::Probe(ProbeView::FinalProject),
        Some(None) => skip(SkipReason::ProjectIdentityUnavailable),
        Some(Some(project)) => if !same_path(project@, review.path@) {
            skip(SkipReason::ProjectIdentityChanged)
        } else {
            match facts.final_target {
                None => StepView::Probe(ProbeView::FinalTarget),
                Some(None) => skip(SkipReason::TargetIdentityUnavailable),
                Some(Some(target)) => if !policy.contains(project@) {
                    skip(SkipReason::OutOfScope)
                } else if policy.excludes(project@) || policy.excludes(target@) {
                    skip(SkipReason::Excluded)
                } else {
                    StepView::Decided(CleanDecision::Cleanable)
                },
            }
        },
    }
}

/// The next step of a revalidation.
pub open spec fn revalidation(
    review: ProjectReview,
    policy: ScopePolicy,
    around: Around,
    opts: SafetyOptions,
    facts: RevalidationFacts,
) -> StepView {
    if review.decision != CleanDecision::Cleanable {
        StepView::Decided(review.decision)
    } else if review.reviewed_identity is None {
        skip(SkipReason::ProjectIdentityUnavailable)
    } else {
        match policy_block(facts.before@, policy, review, opts) {
            Finding::Unresolved(p) => StepView::Probe(ProbeView::Resolve(p)),
            Finding::Known(Some(reason)) => skip(reason),
            Finding::Known(None) => match fresh_review(review.path@, around, opts, facts.review_known@, facts.review) {
                Fresh::Resolve(path) => StepView::Probe(ProbeView::ResolveForReview(path)),
                Fresh::Ask(probe) => StepView::Probe(ProbeView::Review(probe)),
                Fresh::Reviewed(decision, identity, canonical) => match refreshed_step(
                    review,
                    decision,
                    identity,
                    canonical,
                ) {
                    Some(step) => step,
                    None => match plain_step(facts) {
                        Some(step) => step,
                        None => match identity_step(review, facts) {
                            Some(step) => step,
                            None => match policy_block(facts.after@, policy, review, opts) {
                                Finding::Unresolved(p) => StepView::Probe(ProbeView::ResolveAgain(p)),
                                Finding::Known(Some(reason)) => skip(reason),
                                Finding::Known(None) => final_step(policy, review, facts),
                            },
                        },
                    },
                },
            },
        }
    }
}

fn decided_skip(reason: SkipReason) -> (step: RevalidationStep)
    ensures
        step@ == skip(reason),
{
    RevalidationStep::Decided(CleanDecision::Skipped(reason))
}

fn check_refreshed(review: &ProjectReview, refreshed: &ProjectReview) -> (step: Option<RevalidationStep>)
    ensures
        match refreshed_step(
            *review,
            refreshed.decision,
            refreshed.reviewed_identity,
            optional_path(refreshed.canonical_path),
        ) {
            Some(view) => step matches Some(s) && s@ == view,
            None => step is None,
        },
{
    if refreshed.decision != CleanDecision::Cleanable {
        return Some(RevalidationStep::Decided(refreshed.decision));
    }
    match (&refreshed.reviewed_identity, &review.reviewed_identity) {
        (Some(now), Some(then)) => {
            let same_canonical = match (&refreshed.canonical_path, &review.canonical_path) {
                (Some(a), Some(b)) => *a == *b,
                _ => false,
            };
            if !is_path_itself(&refreshed.canonical_path, &review.path) || !same_canonical || now.project
                != then.project {
                return Some(decided_skip(SkipReason::ProjectIdentityChanged));
            }
            if now.target != then.target {
                return Some(decided_skip(SkipReason::TargetIdentityChanged));
            }
            None
        },
        _ => Some(decided_skip(SkipReason::ProjectIdentityUnavailable)),
    }
}

fn check_plain(facts: &RevalidationFacts) -> (step: Option<RevalidationStep>)
    ensures
        match plain_step(*facts) {
            Some(view) => step matches Some(s) && s@ == view,
            None => step is None,
        },
{
    match facts.manifest {
        None => return Some(RevalidationStep::Probe(RevalidationProbe::Manifest)),
        Some(false) => return Some(decided_skip(SkipReason::ProjectIdentityUnavailable)),
        Some(true) => {},
    }
    match facts.project_directory {
        None => return Some(RevalidationStep::Probe(RevalidationProbe::ProjectDirectory)),
        Some(false) => return Some(decided_skip(SkipReason::ProjectIdentityUnavailable)),
        Some(true) => {},
    }
    match facts.target_directory {
        None => Some(RevalidationStep::Probe(RevalidationProbe::TargetDirectory)),
        Some(false) => Some(decided_skip(SkipReason::TargetIdentityUnavailable)),
        Some(true) => None,
    }
}

fn check_identities(review: &ProjectReview, facts: &RevalidationFacts) -> (step: Option<RevalidationStep>)
    ensures
        match identity_step(*review, *facts) {
            Some(view) => step matches Some(s) && s@ == view,
            None => step is None,
        },
{
    let project = match &facts.project_identity {
        None => return Some(RevalidationStep::Probe(RevalidationProbe::ProjectIdentity)),
        Some(None) => return Some(decided_skip(SkipReason::ProjectIdentityUnavailable)),
        Some(Some(identity)) => identity,
    };
    let target = match &facts.target_identity {
        None => return Some(RevalidationStep::Probe(RevalidationProbe::TargetIdentity)),
        Some(None) => return Some(decided_skip(SkipReason::TargetIdentityUnavailable)),
        Some(Some(identity)) => identity,
    };
    if project.device != target.device {
        return Some(decided_skip(SkipReason::CrossDeviceTarget));
    }
    if project.mount.0 != target.mount.0 {
        return Some(decided_skip(SkipReason::CrossMountTarget));
    }
    match &review.reviewed_identity {
        None => Some(decided_skip(SkipReason::ProjectIdentityUnavailable)),
        Some(reviewed) => {
            if *project != reviewed.project {
                Some(decided_skip(SkipReason::ProjectIdentityChanged))
            } else if *target != reviewed.target {
                Some(decided_skip(SkipReason::TargetIdentityChanged))
            } else {
                None
            }
        },
    }
}

fn check_final(policy: &ScopePolicy, review: &ProjectReview, facts: &RevalidationFacts) -> (step: RevalidationStep)
    ensures
        step@ == final_step(*policy, *review, *facts),
{
    let project = match &facts.final_project {
        None => return RevalidationStep::Probe(RevalidationProbe::FinalProject),
        Some(None) => return decided_skip(SkipReason::ProjectIdentityUnavailable),
        Some(Some(path)) => path,
    };
    if *project != review.path {
        return decided_skip(SkipReason::ProjectIdentityChanged);
    }
    let target = match &facts.final_target {
        None => return RevalidationStep::Probe(RevalidationProbe::FinalTarget),
        Some(None) => return decided_skip(SkipReason::TargetIdentityUnavailable),
        Some(Some(path)) => path,
    };
    if !policy.contains_project(project) {
        return decided_skip(SkipReason::OutOfScope);
    }
    if policy.is_excluded(project) || policy.is_excluded(target) {
        return decided_skip(SkipReason::Excluded);
    }
    RevalidationStep::Decided(CleanDecision::Cleanable)
}

/// The next step in revalidating a reviewed project: the fact to look up, or the
/// decision.
pub fn revalidate_before_clean(
    review: &ProjectReview,
    policy: &ScopePolicy,
    home: &PathBuf,
    platform: HostPlatform,
    activity: &Vec<ActivitySignal>,
    scan_error_paths: &Vec<PathBuf>,
    discovery_blocked_paths: &Vec<PathBuf>,
    now: SystemTime,
    opts: &SafetyOptions,
    facts: &RevalidationFacts,
) -> (step: RevalidationStep)
    ensures
        step@ == revalidation(
            *review,
            *policy,
            (Around {
                home: home@,
                platform,
                activity: activity@,
                errors: scan_error_paths@,
                blocks: discovery_blocked_paths@,
                now: now@,
            }),
            *opts,
            *facts,
        ),
{
    if review.decision != CleanDecision::Cleanable {
        return RevalidationStep::Decided(review.decision);
    }
    if review.reviewed_identity.is_none() {
        return decided_skip(SkipReason::ProjectIdentityUnavailable);
    }
    match policy_block_reason(policy, review, opts, &facts.before) {
        Answer::Unresolved(path) => return RevalidationStep::Probe(RevalidationProbe::Resolve(path)),
        Answer::Known(Some(reason)) => return decided_skip(reason),
        Answer::Known(None) => {},
    }
    match review_project_with_identity_provider(
        &review.path,
        home,
        platform,
        &facts.review_known,
        scan_error_paths,
        discovery_blocked_paths,
        activity,
        now,
        opts,
        &facts.review,
    ) {
        ReviewStep::Resolve(path) => return RevalidationStep::Probe(RevalidationProbe::ResolveForReview(path)),
        ReviewStep::Probe(probe) => return RevalidationStep::Probe(RevalidationProbe::Review(probe)),
        ReviewStep::Reviewed(refreshed) => match check_refreshed(review, &refreshed) {
            Some(step) => return step,
            None => {},
        },
    }
    match check_plain(facts) {
        Some(step) => return step,
        None => {},
    }
    match check_identities(review, facts) {
        Some(step) => return step,
        None => {},
    }
    match policy_block_reason(policy, review, opts, &facts.after) {
        Answer::Unresolved(path) => return RevalidationStep::Probe(RevalidationProbe::ResolveAgain(path)),
        Answer::Known(Some(reason)) => return decided_skip(reason),
        Answer::Known(None) => {},
    }
    check_final(policy, review, facts)
}

/// Revalidating never makes a skipped review cleanable. What it leaves cleanable
/// was cleanable in the first review, passes every gate once more under the class
/// that it has now, is in scope and not excluded, and has the reviewed project and
/// target still in place.
pub proof fn revalidation_never_admits(
    review: ProjectReview,
    policy: ScopePolicy,
    around: Around,
    opts: SafetyOptions,
    facts: RevalidationFacts,
)
    requires
        revalidation(review, policy, around, opts, facts) == StepView::Decided(CleanDecision::Cleanable),
    ensures
        review.decision == CleanDecision::Cleanable,
        project_class(facts.review_known@, review.path@, around.home, around.platform) matches Finding::Known(class)
            && passes_every_gate(
            review.path@,
            class,
            around.errors,
            around.blocks,
            around.activity,
            around.now,
            opts,
            facts.review,
        ),
        review.canonical_path matches Some(project) && policy.contains(project@) && !policy.excludes(project@),
        facts.final_project matches Some(Some(project)) && same_path(project@, review.path@) && policy.contains(
            project@,
        ) && !policy.excludes(project@),
        facts.final_target matches Some(Some(target)) && !policy.excludes(target@),
        review.reviewed_identity matches Some(reviewed) && facts.project_identity matches Some(Some(project))
            && facts.target_identity matches Some(Some(target)) && same_file(project, reviewed.project)
            && same_file(target, reviewed.target) && project.device == target.device,
        !opts.include_managed_cache ==> policy_protection(facts.after@, policy, review.canonical_path->0@)
            == Finding::<Option<SkipReason>>::Known(None),
{
}

} // verus!
