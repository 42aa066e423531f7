//! What holds a reviewed project back when it is looked at once more, and what does not.

use crate::identity::{
    comparison, BootSessionId, FilesystemIdentity, IdentityComparison, ReviewedIdentity,
};
use crate::path::{path_starts_with, same_path};
use crate::policy::{views_of_roots, ProtectedRootKind, RootView, ScopePolicy};
use crate::resolve::{physical_path, Finding, Resolved};
use crate::safety::revalidate::{
    binding, first_policy_root, fresh_review, policy_block, policy_protection, revalidation, Around, Fresh,
    ObservationIdentityStatus, RevalidationFacts, StepView,
};
use crate::safety::{CleanDecision, ProjectReview, SafetyOptions, SkipReason};
use vstd::prelude::*;

verus! {

// ------------------------------------------------------------------- identity

/// A file that was seen before is the same file exactly if it has the same number on the
/// same device and mount; and a file seen before the last restart is neither the same nor
/// another, as the numbers may have changed.
pub proof fn files_are_told_apart(
    observed_boot: Option<BootSessionId>,
    current_boot: Option<BootSessionId>,
    observed: FilesystemIdentity,
    current: FilesystemIdentity,
)
    ensures
        comparison(observed_boot, current_boot, observed, current) == IdentityComparison::StaleAcrossBoot <==> (
        observed_boot matches Some(a) && current_boot matches Some(b) && a.0@ != b.0@),
        !(observed_boot matches Some(a) && current_boot matches Some(b) && a.0@ != b.0@) ==> (comparison(
            observed_boot,
            current_boot,
            observed,
            current,
        ) == IdentityComparison::Matches <==> observed.device == current.device && observed.inode == current.inode
            && observed.mount.0@ == current.mount.0@),
{
}

/// Whether a file is the one that was seen before, or may be it after a restart.
pub open spec fn may_be(
    observed_boot: Option<BootSessionId>,
    current_boot: Option<BootSessionId>,
    observed: FilesystemIdentity,
    current: FilesystemIdentity,
) -> bool {
    (observed_boot matches Some(a) && current_boot matches Some(b) && a.0@ != b.0@) || (observed.device == current.device
        && observed.inode == current.inode && observed.mount.0@ == current.mount.0@)
}

/// A review that admits a project goes on to do so exactly if the project stands at its
/// own physical path and both it and its target are the files that were observed, or
/// were observed before a restart.
pub proof fn observed_projects_stay_admitted(
    review: ProjectReview,
    observed_project: FilesystemIdentity,
    observed_target: Option<FilesystemIdentity>,
    observed_boot: Option<BootSessionId>,
)
    ensures
        binding(review, observed_project, observed_target, observed_boot).0 == CleanDecision::Cleanable <==> {
            &&& review.decision == CleanDecision::Cleanable
            &&& review.reviewed_identity matches Some(current)
            &&& review.canonical_path matches Some(canonical)
            &&& same_path(canonical@, review.path@)
            &&& may_be(observed_boot, current.boot_session, observed_project, current.project)
            &&& match observed_target {
                Some(target) => may_be(observed_boot, current.boot_session, target, current.target),
                None => observed_boot matches Some(a) && current.boot_session matches Some(b) && a.0@ != b.0@,
            }
        },
        review.decision != CleanDecision::Cleanable ==> binding(
            review,
            observed_project,
            observed_target,
            observed_boot,
        ).0 == review.decision,
        binding(review, observed_project, observed_target, observed_boot).1 == ObservationIdentityStatus::Current ==> !(
        observed_boot matches Some(a) && review.reviewed_identity->0.boot_session matches Some(b) && a.0@ != b.0@),
{
}

// --------------------------------------------------------------------- policy

/// Whether a project lies in a directory, as it is written or by where it really is.
pub open spec fn stands_in(
    known: Map<Seq<u8>, Resolved>,
    path: Seq<u8>,
    physical: Option<Seq<u8>>,
    directory: Seq<u8>,
) -> bool {
    path_starts_with(path, directory) || (physical matches Some(p) && (path_starts_with(p, directory) || (physical_path(
        known,
        directory,
    ) matches Finding::Known(Some(there)) && path_starts_with(p, there))))
}

/// A project that stands in no protected directory of the policy is not held back on
/// that account; one that does is, as part of a container's storage or of a cache.
pub proof fn protected_directories_hold_back(known: Map<Seq<u8>, Resolved>, policy: ScopePolicy, path: Seq<u8>)
    requires
        policy_protection(known, policy, path) is Known,
        physical_path(known, path) is Known,
    ensures
        ({
            let physical = physical_path(known, path)->Known_0;
            let roots = policy.protected_roots@;
            &&& policy_protection(known, policy, path)->Known_0 is None <==> forall|i: int|
                0 <= i < roots.len() ==> !stands_in(known, path, physical, (#[trigger] roots[i]).path@)
            &&& (forall|i: int| 0 <= i < roots.len() ==> (#[trigger] roots[i]).kind != ProtectedRootKind::Container)
                ==> policy_protection(known, policy, path)->Known_0 != Some(SkipReason::ContainerStorage)
            &&& (forall|i: int|
                0 <= i < roots.len() && stands_in(known, path, physical, (#[trigger] roots[i]).path@) ==> roots[i].kind
                    == ProtectedRootKind::Container) ==> policy_protection(known, policy, path)->Known_0 != Some(
                SkipReason::ManagedCache,
            )
        }),
{
    let physical = physical_path(known, path)->Known_0;
    let views = views_of_roots(policy.protected_roots@);
    let roots = policy.protected_roots@;
    lemma_first_root(known, path, physical, views);
    match first_policy_root(known, path, physical, views)->Known_0 {
        None => {
            assert forall|i: int| 0 <= i < roots.len() implies !stands_in(known, path, physical, (#[trigger] roots[i]).path@) by {
                assert(views[i] == roots[i]@);
            }
        },
        Some(kind) => {
            let i = choose|i: int|
                0 <= i < views.len() && stands_in(known, path, physical, (#[trigger] views[i]).path) && views[i].kind == kind;
            assert(views[i] == roots[i]@);
            assert(stands_in(known, path, physical, roots[i].path@));
        },
    }
}

proof fn lemma_first_root(known: Map<Seq<u8>, Resolved>, path: Seq<u8>, physical: Option<Seq<u8>>, roots: Seq<RootView>)
    requires
        first_policy_root(known, path, physical, roots) is Known,
    ensures
        match first_policy_root(known, path, physical, roots)->Known_0 {
            None => forall|i: int| 0 <= i < roots.len() ==> !stands_in(known, path, physical, (#[trigger] roots[i]).path),
            Some(kind) => exists|i: int|
                0 <= i < roots.len() && stands_in(known, path, physical, (#[trigger] roots[i]).path) && roots[i].kind == kind,
        },
    decreases roots.len(),
{
    if roots.len() > 0 {
        let rest = roots.drop_first();
        if crate::storage::lies_in_root(known, path, physical, roots[0].path) == Finding::<bool>::Known(false) {
            lemma_first_root(known, path, physical, rest);
            match first_policy_root(known, path, physical, rest)->Known_0 {
                None => {
                    assert forall|i: int| 0 <= i < roots.len() implies !stands_in(
                        known,
                        path,
                        physical,
                        (#[trigger] roots[i]).path,
                    ) by {
                        if i > 0 {
                            assert(rest[i - 1] == roots[i]);
                        }
                    }
                },
                Some(kind) => {
                    let i = choose|i: int|
                        0 <= i < rest.len() && stands_in(known, path, physical, (#[trigger] rest[i]).path) && rest[i].kind
                            == kind;
                    assert(roots[i + 1] == rest[i]);
                },
            }
        } else {
            assert(stands_in(known, path, physical, roots[0].path));
        }
    }
}

/// The policy has nothing against a project exactly if the project stands at its own
/// physical path, in scope, with neither it nor its target excluded, and, unless caches
/// are included, in no protected directory. Otherwise the first of these that fails is
/// the reason.
pub proof fn policies_hold_back(known: Map<Seq<u8>, Resolved>, policy: ScopePolicy, review: ProjectReview, opts: SafetyOptions)
    requires
        policy_block(known, policy, review, opts) is Known,
    ensures
        ({
            let block = policy_block(known, policy, review, opts)->Known_0;
            let target = physical_path(known, review.target_path@)->Known_0;
            &&& review.canonical_path is None ==> block == Some(SkipReason::ProjectIdentityUnavailable)
            &&& review.canonical_path matches Some(project) ==> {
                &&& !same_path(project@, review.path@) ==> block == Some(SkipReason::ProjectIdentityChanged)
                &&& same_path(project@, review.path@) && !policy.contains(project@) ==> block == Some(SkipReason::OutOfScope)
                &&& same_path(project@, review.path@) && policy.contains(project@) && (policy.excludes(project@) || (
                target matches Some(t) && policy.excludes(t))) ==> block == Some(SkipReason::Excluded)
                &&& same_path(project@, review.path@) && policy.contains(project@) && !policy.excludes(project@) && !(
                target matches Some(t) && policy.excludes(t)) ==> {
                    &&& opts.include_managed_cache ==> block is None
                    &&& !opts.include_managed_cache ==> Finding::Known(block) == policy_protection(known, policy, project@)
                }
            }
        }),
{
}

// --------------------------------------------------------------- revalidation

/// A project whose review admitted it is still admitted if nothing has changed: the
/// policy has nothing against it before or after, a fresh review admits it as the same
/// files at the same place, it still has its manifest, its directory and its target, on
/// one device and mount, and at the end both stand where they did.
pub proof fn unchanged_projects_stay_admitted(
    review: ProjectReview,
    policy: ScopePolicy,
    around: Around,
    opts: SafetyOptions,
    facts: RevalidationFacts,
    fresh: ReviewedIdentity,
    canonical: Seq<u8>,
    project: FilesystemIdentity,
    target: FilesystemIdentity,
)
    requires
        review.decision == CleanDecision::Cleanable,
        review.reviewed_identity matches Some(reviewed) && fresh.project.device == reviewed.project.device
            && fresh.project.inode == reviewed.project.inode && fresh.project.mount.0@ == reviewed.project.mount.0@
            && fresh.target.device == reviewed.target.device && fresh.target.inode == reviewed.target.inode
            && fresh.target.mount.0@ == reviewed.target.mount.0@ && project.device == reviewed.project.device
            && project.inode == reviewed.project.inode && project.mount.0@ == reviewed.project.mount.0@ && target.device
            == reviewed.target.device && target.inode == reviewed.target.inode && target.mount.0@ == reviewed.target.mount.0@,
        project.device == target.device,
        project.mount.0@ == target.mount.0@,
        policy_block(facts.before@, policy, review, opts) == Finding::<Option<SkipReason>>::Known(None),
        policy_block(facts.after@, policy, review, opts) == Finding::<Option<SkipReason>>::Known(None),
        fresh_review(review.path@, around, opts, facts.review_known@, facts.review) == Fresh::Reviewed(
            CleanDecision::Cleanable,
            Some(fresh),
            Some(canonical),
        ),
        same_path(canonical, review.path@),
        facts.manifest == Some(true),
        facts.project_directory == Some(true),
        facts.target_directory == Some(true),
        facts.project_identity == Some(Some(project)),
        facts.target_identity == Some(Some(target)),
        facts.final_project matches Some(Some(last)) && same_path(last@, review.path@) && policy.contains(last@)
            && !policy.excludes(last@),
        facts.final_target matches Some(Some(last)) && !policy.excludes(last@),
    ensures
        revalidation(review, policy, around, opts, facts) == StepView::Decided(CleanDecision::Cleanable),
{
}

/// A project that has changed since its review is held back: one whose fresh review
/// holds it back, for that reason; one that lost its manifest or its directory; and one
/// that, or whose target, is another file or lies on another device or mount.
pub proof fn changed_projects_are_held_back(
    review: ProjectReview,
    policy: ScopePolicy,
    around: Around,
    opts: SafetyOptions,
    facts: RevalidationFacts,
    reviewed: ReviewedIdentity,
)
    requires
        review.reviewed_identity == Some(reviewed),
        (fresh_review(review.path@, around, opts, facts.review_known@, facts.review) matches Fresh::Reviewed(decision, _, _)
            && decision is Skipped) || facts.manifest == Some(false) || facts.project_directory == Some(false)
            || facts.target_directory == Some(false) || facts.project_identity == Some(None::<FilesystemIdentity>)
            || facts.target_identity == Some(None::<FilesystemIdentity>) || (
        facts.project_identity matches Some(Some(project)) && (project.device != reviewed.project.device || project.inode
            != reviewed.project.inode || project.mount.0@ != reviewed.project.mount.0@)) || (
        facts.target_identity matches Some(Some(target)) && (target.device != reviewed.target.device || target.inode
            != reviewed.target.inode || target.mount.0@ != reviewed.target.mount.0@)) || (
        facts.project_identity matches Some(Some(a)) && facts.target_identity matches Some(Some(b)) && (a.device != b.device
            || a.mount.0@ != b.mount.0@)) || facts.final_project == Some(None::<crate::path::PathBuf>) || (
        facts.final_project matches Some(Some(last)) && !same_path(last@, review.path@)),
    ensures
        revalidation(review, policy, around, opts, facts) != StepView::Decided(CleanDecision::Cleanable),
{
}

/// A review that did not admit a project is kept as it was.
pub proof fn refused_projects_stay_refused(
    review: ProjectReview,
    policy: ScopePolicy,
    around: Around,
    opts: SafetyOptions,
    facts: RevalidationFacts,
)
    requires
        review.decision != CleanDecision::Cleanable,
    ensures
        revalidation(review, policy, around, opts, facts) == StepView::Decided(review.decision),
{
}

} // verus!
