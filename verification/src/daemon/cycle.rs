//! What a cleanup cycle works on: the projects that the current discovery
//! authorizes, or those of a plan, each with a review that the present state of the
//! disk and the policy still bear out.

use crate::identity::{comparison, compare_persisted, BootSessionId, IdentityComparison};
use crate::path::{path_views, paths_equal, same_path, PathBuf};
use crate::policy::ScopePolicy;
use crate::resolve::{Finding, Resolutions, Resolved};
use crate::safety::revalidate::binding;
use crate::safety::{bind_review_to_observation, CleanDecision, ObservationIdentityStatus, ProjectReview, SkipReason};
use crate::store::blocking::{blocked_paths, paths_of};
use crate::store::generations::{actionable, current_generation_of, generation_incomplete, lemma_newest_is_one, observation_is};
use crate::store::history::{limits_coverage, scan_error_texts};
use crate::store::migrate::without_authority;
use crate::store::rows::{ErrorModel, ObservationModel, ProjectObservation};
use crate::store::table::some_row;
use crate::store::{epoch_of, Store, StoreError, StoreFault, StoreModel};
use crate::time::{representable, Duration, SystemTime};
use vstd::prelude::*;

verus! {

// ------------------------------------------------------------------- coverage

/// What is known of the limits of the discovery.
#[derive(Debug)]
pub struct Coverage {
    pub scan_errors: Vec<PathBuf>,
    pub discovery_blocks: Vec<PathBuf>,
    pub incomplete: bool,
}

/// The contents of a coverage.
pub struct CoverageView {
    pub scan_errors: Seq<Seq<u8>>,
    pub discovery_blocks: Seq<Seq<u8>>,
    pub incomplete: bool,
}

impl View for Coverage {
    type V = CoverageView;

    open spec fn view(&self) -> CoverageView {
        CoverageView {
            scan_errors: path_views(self.scan_errors@),
            discovery_blocks: path_views(self.discovery_blocks@),
            incomplete: self.incomplete,
        }
    }
}

/// The time since which errors of scans count.
pub open spec fn errors_since(now: int, interval: int) -> int {
    if representable(now - interval) {
        now - interval
    } else {
        0
    }
}

/// What is known of the limits of the discovery under a policy.
pub open spec fn coverage_of(
    store: StoreModel,
    policy_hash: Seq<char>,
    since: int,
    known: Map<Seq<u8>, Resolved>,
) -> Result<CoverageView, StoreFault> {
    match epoch_of(since) {
        None => Err(StoreFault::BeforeEpoch),
        Some(secs) => match blocked_paths(store, known) {
            Finding::Unresolved(path) => Err(StoreFault::Unresolved(path)),
            Finding::Known(blocks) => Ok(
                CoverageView {
                    scan_errors: paths_of(scan_error_texts(store, secs)),
                    discovery_blocks: blocks,
                    incomplete: generation_incomplete(store, policy_hash) || some_row(
                        store.errors,
                        |row: ErrorModel| limits_coverage(store, secs, row),
                    ) || blocks.len() > 0,
                },
            ),
        },
    }
}

fn since_time(now: SystemTime, interval: Duration) -> (since: SystemTime)
    ensures
        since@ == errors_since(now@, interval@ as int),
{
    match now.checked_sub(interval) {
        Some(time) => time,
        None => SystemTime::epoch(),
    }
}

/// What is known of the limits of the discovery under a policy, counting the
/// errors of scans within an interval.
pub fn coverage(store: &Store, policy_hash: &str, now: SystemTime, scan_interval: Duration, known: &Resolutions) -> (result: Result<
    Coverage,
    StoreError,
>)
    ensures
        match coverage_of(store@, policy_hash@, errors_since(now@, scan_interval@ as int), known@) {
            Ok(view) => result matches Ok(coverage) && coverage@ == view,
            Err(fault) => result matches Err(error) && error@ == fault,
        },
{
    let since = since_time(now, scan_interval);
    let scan_errors = match store.scan_error_paths_since(since) {
        Ok(paths) => paths,
        Err(error) => return Err(error),
    };
    let errors_limit = match store.scan_coverage_incomplete_since(since) {
        Ok(limit) => limit,
        Err(error) => return Err(error),
    };
    let discovery_blocks = match store.blocked_worktree_discovery_paths(known) {
        Ok(paths) => paths,
        Err(error) => return Err(error),
    };
    let incomplete = store.current_generation_coverage_incomplete(policy_hash) || errors_limit
        || discovery_blocks.len() > 0;
    proof {
        let secs = epoch_of(since@)->0;
        assert(path_views(scan_errors@) =~= paths_of(scan_error_texts(store@, secs)));
        assert(path_views(discovery_blocks@).len() == discovery_blocks@.len());
    }
    Ok(Coverage { scan_errors, discovery_blocks, incomplete })
}

// ---------------------------------------------------------------------- scope

/// What a cycle works on.
#[derive(Debug)]
pub struct CycleScope {
    pub observations: Vec<ProjectObservation>,
    pub generation_id: Option<i64>,
    pub coverage: Coverage,
}

/// The hash of a policy, if there is one.
pub open spec fn hash_of(policy: Option<&ScopePolicy>) -> Seq<char> {
    match policy {
        Some(p) => p.hash@,
        None => ""@,
    }
}

/// The number of the generation that a cycle works on.
pub open spec fn cycle_generation(store: StoreModel, policy: Option<&ScopePolicy>) -> Option<i64> {
    match policy {
        None => None,
        Some(p) => match current_generation_of(store.discovery_generations, p.hash@) {
            Some(generation) => Some(generation.id),
            None => None,
        },
    }
}

/// The observations that a cycle works on.
pub open spec fn cycle_observations(store: StoreModel, policy: Option<&ScopePolicy>) -> Seq<ObservationModel> {
    match cycle_generation(store, policy) {
        Some(id) => actionable(store, id),
        None => Seq::empty(),
    }
}

/// The start of a cycle: the observations that may be acted on, and what limits
/// the discovery. Without a generation nothing may be, and the coverage is
/// incomplete.
pub fn begin_cycle(
    store: &Store,
    policy: Option<&ScopePolicy>,
    scan_interval: Duration,
    reviewed_at: SystemTime,
    known: &Resolutions,
) -> (result: Result<CycleScope, StoreError>)
    ensures
        match coverage_of(store@, hash_of(policy), errors_since(reviewed_at@, scan_interval@ as int), known@) {
            Err(fault) => result matches Err(error) && error@ == fault,
            Ok(view) => result matches Ok(scope) && {
                let rows = cycle_observations(store@, policy);
                &&& scope.generation_id == cycle_generation(store@, policy)
                &&& scope.observations@.len() == rows.len()
                &&& forall|i: int|
                    0 <= i < rows.len() ==> observation_is(#[trigger] scope.observations@[i], rows[i])
                &&& scope.coverage@ == (CoverageView {
                    incomplete: view.incomplete || cycle_generation(store@, policy) is None,
                    ..view
                })
            },
        },
{
    let generation_id: Option<i64> = match policy {
        None => None,
        Some(p) => match store.current_generation(p.hash.as_str()) {
            Some(generation) => Some(generation.id),
            None => None,
        },
    };
    let observations = match generation_id {
        Some(id) => store.authorized_observations(id),
        None => Vec::new(),
    };
    let hash = match policy {
        Some(p) => p.hash.as_str(),
        None => "",
    };
    match coverage(store, hash, reviewed_at, scan_interval, known) {
        Err(error) => Err(error),
        Ok(limits) => {
            let incomplete = limits.incomplete || generation_id.is_none();
            Ok(
                CycleScope {
                    observations,
                    generation_id,
                    coverage: Coverage {
                        scan_errors: limits.scan_errors,
                        discovery_blocks: limits.discovery_blocks,
                        incomplete,
                    },
                },
            )
        },
    }
}

// -------------------------------------------------------------------- reviews

/// What a review decides once the current policy has been asked: only a project in
/// scope that is not excluded is cleaned.
pub open spec fn enforced(policy: Option<&ScopePolicy>, review: ProjectReview) -> CleanDecision {
    if review.decision != CleanDecision::Cleanable {
        review.decision
    } else {
        match policy {
            None => CleanDecision::Skipped(SkipReason::OutOfScope),
            Some(p) => if !p.contains(review.path@) {
                CleanDecision::Skipped(SkipReason::OutOfScope)
            } else if p.excludes(review.path@) || p.excludes(review.target_path@) {
                CleanDecision::Skipped(SkipReason::Excluded)
            } else {
                CleanDecision::Cleanable
            },
        }
    }
}

/// Asks the current policy about a review.
pub fn enforce_current_policy(policy: Option<&ScopePolicy>, review: &mut ProjectReview)
    ensures
        *final(review) == (ProjectReview { decision: enforced(policy, *old(review)), ..*old(review) }),
{
    if review.decision != CleanDecision::Cleanable {
        return;
    }
    match policy {
        Some(p) => {
            if !p.contains_project(&review.path) {
                review.decision = CleanDecision::Skipped(SkipReason::OutOfScope);
            } else if p.is_excluded(&review.path) || p.is_excluded(&review.target_path) {
                review.decision = CleanDecision::Skipped(SkipReason::Excluded);
            }
        },
        None => {
            review.decision = CleanDecision::Skipped(SkipReason::OutOfScope);
        },
    }
}

/// A review that a run can act on.
#[derive(Debug)]
pub struct PreparedReview {
    pub review: ProjectReview,
    /// Whether the identities were observed in another boot session and have been
    /// seen again.
    pub reverified_across_boot: bool,
}

/// The boot session with a name.
pub open spec fn session_of(name: Option<String>) -> Option<BootSessionId> {
    match name {
        Some(text) => Some(BootSessionId(text)),
        None => None,
    }
}

/// What a review of an observed project decides, and whether its identities have
/// been seen again.
pub open spec fn bound(policy: Option<&ScopePolicy>, review: ProjectReview, observation: ProjectObservation) -> (
    CleanDecision,
    bool,
) {
    let checked = ProjectReview { decision: enforced(policy, review), ..review };
    if checked.decision != CleanDecision::Cleanable {
        (checked.decision, false)
    } else {
        let (decision, status) = binding(
            checked,
            observation.project_identity,
            observation.target_identity,
            session_of(observation.boot_session_id),
        );
        (decision, status == ObservationIdentityStatus::ReverifiedAcrossBoot)
    }
}

/// Binds a review of an observed project to the policy and to what was observed.
pub fn prepare_observed_review(policy: Option<&ScopePolicy>, review: ProjectReview, observation: &ProjectObservation) -> (prepared: PreparedReview)
    ensures
        prepared.review == (ProjectReview { decision: bound(policy, review, *observation).0, ..review }),
        prepared.reverified_across_boot == bound(policy, review, *observation).1,
{
    let mut review = review;
    enforce_current_policy(policy, &mut review);
    let mut reverified_across_boot = false;
    if review.decision == CleanDecision::Cleanable {
        let observed_boot = match &observation.boot_session_id {
            Some(name) => Some(BootSessionId(name.clone())),
            None => None,
        };
        let status = bind_review_to_observation(
            &mut review,
            &observation.project_identity,
            &observation.target_identity,
            &observed_boot,
        );
        reverified_across_boot = status == ObservationIdentityStatus::ReverifiedAcrossBoot;
    }
    PreparedReview { review, reverified_across_boot }
}

/// Whether two optional paths are the same.
pub open spec fn same_optional_path(a: Option<PathBuf>, b: Option<PathBuf>) -> bool {
    match (a, b) {
        (Some(x), Some(y)) => same_path(x@, y@),
        (None, None) => true,
        _ => false,
    }
}

/// Whether a fresh review is of the very directories of the persisted one.
pub open spec fn same_directories(persisted: ProjectReview, fresh: ProjectReview) -> bool {
    same_path(fresh.path@, persisted.path@) && same_path(fresh.target_path@, persisted.target_path@)
        && same_optional_path(fresh.canonical_path, persisted.canonical_path)
}

/// What a fresh review decides next to the persisted one that it stands for: a
/// project that is not the reviewed one any more is not cleaned.
pub open spec fn refreshed(policy: Option<&ScopePolicy>, persisted: ProjectReview, fresh: ProjectReview) -> CleanDecision {
    let decision = enforced(policy, fresh);
    if decision != CleanDecision::Cleanable {
        decision
    } else if !same_directories(persisted, fresh) {
        CleanDecision::Skipped(SkipReason::ProjectIdentityChanged)
    } else {
        match (persisted.reviewed_identity, fresh.reviewed_identity) {
            (Some(before), Some(now)) => if comparison(
                before.boot_session,
                now.boot_session,
                before.project,
                now.project,
            ) == IdentityComparison::Replaced {
                CleanDecision::Skipped(SkipReason::ProjectIdentityChanged)
            } else if comparison(before.boot_session, now.boot_session, before.target, now.target)
                == IdentityComparison::Replaced {
                CleanDecision::Skipped(SkipReason::TargetIdentityChanged)
            } else {
                CleanDecision::Cleanable
            },
            _ => CleanDecision::Skipped(SkipReason::ProjectIdentityUnavailable),
        }
    }
}

fn optional_paths_equal(a: &Option<PathBuf>, b: &Option<PathBuf>) -> (same: bool)
    ensures
        same == same_optional_path(*a, *b),
{
    match (a, b) {
        (Some(x), Some(y)) => paths_equal(x, y),
        (None, None) => true,
        _ => false,
    }
}

/// Holds a fresh review against the persisted one that it stands for.
pub fn prepare_planned_review(policy: Option<&ScopePolicy>, persisted: &ProjectReview, fresh: ProjectReview) -> (prepared: PreparedReview)
    ensures
        prepared.review == (ProjectReview { decision: refreshed(policy, *persisted, fresh), ..fresh }),
        !prepared.reverified_across_boot,
{
    let mut fresh = fresh;
    enforce_current_policy(policy, &mut fresh);
    if fresh.decision == CleanDecision::Cleanable && (!paths_equal(&fresh.path, &persisted.path) || !paths_equal(
        &fresh.target_path,
        &persisted.target_path,
    ) || !optional_paths_equal(&fresh.canonical_path, &persisted.canonical_path)) {
        fresh.decision = CleanDecision::Skipped(SkipReason::ProjectIdentityChanged);
    }
    if fresh.decision == CleanDecision::Cleanable {
        let decision = match (&persisted.reviewed_identity, &fresh.reviewed_identity) {
            (Some(before), Some(now)) => {
                if compare_persisted(&before.boot_session, &now.boot_session, &before.project, &now.project)
                    == IdentityComparison::Replaced {
                    CleanDecision::Skipped(SkipReason::ProjectIdentityChanged)
                } else if compare_persisted(&before.boot_session, &now.boot_session, &before.target, &now.target)
                    == IdentityComparison::Replaced {
                    CleanDecision::Skipped(SkipReason::TargetIdentityChanged)
                } else {
                    CleanDecision::Cleanable
                }
            },
            _ => CleanDecision::Skipped(SkipReason::ProjectIdentityUnavailable),
        };
        fresh.decision = decision;
    }
    PreparedReview { review: fresh, reverified_across_boot: false }
}

/// Whether a review would be cleaned.
pub open spec fn is_cleanable(review: ProjectReview) -> bool {
    review.decision == CleanDecision::Cleanable
}

/// The reviews of a plan that would be cleaned.
pub fn executable_reviews(reviews: Vec<ProjectReview>) -> (kept: Vec<ProjectReview>)
    ensures
        kept@ == reviews@.filter(|review: ProjectReview| is_cleanable(review)),
{
    let ghost all = reviews@;
    let ghost keep = |review: ProjectReview| is_cleanable(review);
    let mut rest = reviews;
    let ghost mut n: int = 0;
    let mut i: usize = 0;
    assert(rest@.take(0) =~= all.take(0).filter(keep));
    assert(rest@.skip(0) =~= all.skip(0));
    while i < rest.len()
        invariant
            i <= rest.len(),
            0 <= n <= all.len(),
            keep == (|review: ProjectReview| is_cleanable(review)),
            rest@.len() - i == all.len() - n,
            rest@.skip(i as int) == all.skip(n),
            rest@.take(i as int) == all.take(n).filter(keep),
        decreases rest.len() - i,
    {
        let ghost current = rest@;
        proof {
            assert(current.skip(i as int)[0] == all.skip(n)[0]);
            assert(current[i as int] == all[n]);
            assert(all.take(n + 1) =~= all.take(n).push(all[n]));
            all.take(n).lemma_filter_push(all[n], keep);
        }
        if rest[i].decision == CleanDecision::Cleanable {
            i += 1;
            proof {
                assert(current.skip(i as int) =~= current.skip(i - 1).drop_first());
                assert(all.skip(n + 1) =~= all.skip(n).drop_first());
                assert(current.take(i as int) =~= current.take(i - 1).push(current[i - 1]));
            }
        } else {
            rest.remove(i);
            proof {
                assert(rest@.skip(i as int) =~= current.skip(i as int).drop_first());
                assert(all.skip(n + 1) =~= all.skip(n).drop_first());
                assert(rest@.take(i as int) =~= current.take(i as int));
            }
        }
        proof {
            n = n + 1;
        }
    }
    proof {
        assert(all.skip(n).len() == 0);
        assert(all.take(n) =~= all);
        assert(rest@.take(i as int) =~= rest@);
    }
    rest
}

// ----------------------------------------------------------------------- laws

/// Neither the policy nor what was observed makes a skipped project cleanable, and
/// only what the policy admits stays so.
pub proof fn binding_a_review_never_admits(policy: Option<&ScopePolicy>, review: ProjectReview, observation: ProjectObservation)
    ensures
        bound(policy, review, observation).0 == CleanDecision::Cleanable ==> review.decision
            == CleanDecision::Cleanable && (policy matches Some(p) && p.contains(review.path@) && !p.excludes(
            review.path@,
        ) && !p.excludes(review.target_path@)),
{
}

/// A reviewed run cleans nothing but what its plan named: the same directories,
/// with identities that have not been replaced, and in scope.
pub proof fn planned_runs_clean_only_the_plan(policy: Option<&ScopePolicy>, persisted: ProjectReview, fresh: ProjectReview)
    requires
        refreshed(policy, persisted, fresh) == CleanDecision::Cleanable,
    ensures
        fresh.decision == CleanDecision::Cleanable,
        same_directories(persisted, fresh),
        policy matches Some(p) && p.contains(fresh.path@) && !p.excludes(fresh.path@) && !p.excludes(
            fresh.target_path@,
        ),
        persisted.reviewed_identity matches Some(before) && fresh.reviewed_identity matches Some(now) && comparison(
            before.boot_session,
            now.boot_session,
            before.project,
            now.project,
        ) != IdentityComparison::Replaced,
{
}

/// Projects that are only known from before are no authority: where no generation of the
/// current policy is valid, a cycle acts on nothing and its coverage is incomplete.
pub proof fn known_projects_are_no_authority(
    store: StoreModel,
    policy: &ScopePolicy,
    since: int,
    known: Map<Seq<u8>, Resolved>,
)
    requires
        current_generation_of(store.discovery_generations, policy.hash@) is None,
    ensures
        cycle_observations(store, Some(policy)).len() == 0,
        coverage_of(store, policy.hash@, since, known) matches Ok(view) ==> view.incomplete,
{
}

/// What an older store was allowed to act on is not acted on once it has been brought up to
/// date: a cycle acts on nothing, whatever the policy, until there is a new generation.
pub proof fn migrated_stores_clean_nothing(store: StoreModel, policy: Option<&ScopePolicy>)
    requires
        without_authority(store),
    ensures
        cycle_observations(store, policy).len() == 0,
{
    match policy {
        Some(_) => lemma_newest_is_one(store.discovery_generations),
        None => {},
    }
}

} // verus!
