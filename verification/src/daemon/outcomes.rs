//! What a cycle acts on, and what it puts down of each attempt.

use crate::cleaner::{CleanAttemptOutcome, CleanResult};
use crate::daemon::cycle::{
    bound, coverage_of, cycle_observations, enforced, errors_since, refreshed, same_directories,
};
use crate::daemon::run::{
    attempt_counted, attempt_ended, attempt_recorded, exit_text, run_closed, run_result, RunCounts, RunState,
};
use crate::daemon::{
    authorized_at, observed_at, path_text, reconciles_origin, reconciles_project, reconciles_worktrees, records_scan_error,
    seen_before, RunSource,
};
use crate::path::{path_views, same_path};
use crate::policy::ScopePolicy;
use crate::resolve::{Finding, Resolved};
use crate::safety::admission::may_be;
use crate::safety::{CleanDecision, ProjectReview, ReviewSummary, SkipReason};
use crate::scanner::{DiscoveryOriginResult, ScanError, ScanErrorKind, WorktreeDiscovery};
use crate::store::blocking::blocked_paths;
use crate::store::generations::{actionable, current_generation_of, generation_incomplete};
use crate::store::history::{limits_coverage, scan_error_texts};
use crate::store::rows::{
    ErrorModel, ErrorRecord, EventModel, ObservationReconciliation, OriginReconciliation, ProjectObservation, WorktreeReconciliation,
};
use crate::store::table::some_row;
use crate::store::{epoch_of, StoreModel};
use crate::time::SystemTime;
use vstd::prelude::*;
use vstd::utf8::*;

verus! {

// -------------------------------------------------------------------- coverage

/// What is known of a discovery is incomplete exactly if the discovery itself is, if an
/// error since the given time left a part of it uncovered, or if a repository blocks
/// checkouts.
pub proof fn coverage_is_complete_if_nothing_is_missing(
    store: StoreModel,
    hash: Seq<char>,
    since: int,
    known: Map<Seq<u8>, Resolved>,
    secs: i64,
    blocks: Seq<Seq<u8>>,
)
    requires
        epoch_of(since) == Some(secs),
        blocked_paths(store, known) == Finding::Known(blocks),
    ensures
        coverage_of(store, hash, since, known) is Ok,
        coverage_of(store, hash, since, known)->Ok_0.discovery_blocks == blocks,
        coverage_of(store, hash, since, known)->Ok_0.scan_errors.len() == scan_error_texts(store, secs).len(),
        forall|i: int|
            0 <= i < scan_error_texts(store, secs).len() ==> coverage_of(store, hash, since, known)->Ok_0.scan_errors[i]
                == encode_utf8(#[trigger] scan_error_texts(store, secs)[i]),
        coverage_of(store, hash, since, known)->Ok_0.incomplete <==> generation_incomplete(store, hash) || blocks.len() > 0
            || exists|i: int|
            0 <= i < store.errors.len() && (#[trigger] store.errors[i]).ts >= secs && (store.errors[i].category == "scan"@ || (
            store.errors[i].category == "worktree_discovery"@ && limits_coverage(store, secs, store.errors[i]))),
{
    let p = |row: ErrorModel| limits_coverage(store, secs, row);
    if some_row(store.errors, p) {
        let i = choose|i: int| 0 <= i < store.errors.len() && p(#[trigger] store.errors[i]);
        assert(store.errors[i].ts >= secs);
    }
    if exists|i: int|
        0 <= i < store.errors.len() && (#[trigger] store.errors[i]).ts >= secs && (store.errors[i].category == "scan"@ || (
        store.errors[i].category == "worktree_discovery"@ && limits_coverage(store, secs, store.errors[i]))) {
        let i = choose|i: int|
            0 <= i < store.errors.len() && (#[trigger] store.errors[i]).ts >= secs && (store.errors[i].category == "scan"@
                || (store.errors[i].category == "worktree_discovery"@ && limits_coverage(store, secs, store.errors[i])));
        assert(p(store.errors[i]));
    }
}

/// A cycle acts on what may be acted on under the valid newest discovery of its policy.
pub proof fn cycles_act_on_the_valid_discovery(store: StoreModel, policy: &ScopePolicy, id: i64)
    requires
        current_generation_of(store.discovery_generations, policy.hash@) matches Some(generation) && generation.id == id,
    ensures
        cycle_observations(store, Some(policy)) == actionable(store, id),
{
}

/// An error of a scan is put down with its time, its path where that is text, and what
/// was said, under what was being done.
pub proof fn scan_errors_are_put_down(record: ErrorRecord, error: ScanError, now: SystemTime)
    requires
        records_scan_error(record, error, now),
    ensures
        record.ts == now,
        record.message@ == error.message@,
        record.category@ == "scan"@ <==> error.kind == ScanErrorKind::Scan,
        record.category@ == "worktree_discovery"@ <==> error.kind == ScanErrorKind::WorktreeDiscovery,
        valid_utf8(error.path@) ==> (record.path matches Some(path) && path@ == decode_utf8(error.path@)),
        !valid_utf8(error.path@) ==> record.path is None,
{
    reveal_strlit("scan");
    reveal_strlit("worktree_discovery");
    assert("scan"@.len() != "worktree_discovery"@.len());
}

/// A project that a completed origin observed has authority exactly once among all that
/// observed it: it is given at the first place.
pub proof fn observed_projects_are_authorized(origins: Seq<DiscoveryOriginResult>, i: int, j: int) -> (first: (int, int))
    requires
        0 <= i < origins.len(),
        origins[i].completed,
        0 <= j < origins[i].projects@.len(),
    ensures
        0 <= first.0 < origins.len(),
        0 <= first.1 < origins[first.0].projects@.len(),
        authorized_at(origins, first.0, first.1),
        origins[first.0].completed,
        same_path(origins[first.0].projects@[first.1].path@, origins[i].projects@[j].path@),
        first.0 < i || (first.0 == i && first.1 <= j),
    decreases i, j,
{
    let path = origins[i].projects@[j].path@;
    if seen_before(origins, i, j, path) {
        let (a, b) = choose|a: int, b: int| #[trigger] observed_at(origins, a, b, path) && (a < i || (a == i && b < j));
        let found = observed_projects_are_authorized(origins, a, b);
        found
    } else {
        (i, j)
    }
}

/// An origin that was not read to the end gives no project authority.
pub proof fn incomplete_origins_authorize_nothing(origins: Seq<DiscoveryOriginResult>, i: int, j: int)
    requires
        0 <= i < origins.len(),
        !origins[i].completed,
    ensures
        !authorized_at(origins, i, j),
{
}

// ------------------------------------------------------------------- decisions

/// A project that was admitted stays admitted exactly if there is a policy with the
/// project in scope and neither the project nor its target excluded.
pub proof fn policies_are_enforced(policy: Option<&ScopePolicy>, review: ProjectReview)
    ensures
        review.decision != CleanDecision::Cleanable ==> enforced(policy, review) == review.decision,
        review.decision == CleanDecision::Cleanable ==> match policy {
            None => enforced(policy, review) == CleanDecision::Skipped(SkipReason::OutOfScope),
            Some(p) => {
                &&& !p.contains(review.path@) ==> enforced(policy, review) == CleanDecision::Skipped(SkipReason::OutOfScope)
                &&& p.contains(review.path@) && (p.excludes(review.path@) || p.excludes(review.target_path@)) ==> enforced(
                    policy,
                    review,
                ) == CleanDecision::Skipped(SkipReason::Excluded)
                &&& p.contains(review.path@) && !p.excludes(review.path@) && !p.excludes(review.target_path@) ==> enforced(
                    policy,
                    review,
                ) == CleanDecision::Cleanable
            },
        },
{
}

/// A run of what was observed admits a project exactly if its review and the policy do
/// and it stands at its own physical path as the files that were observed, or that were
/// observed before a restart; and only in the last case are they to be put down anew.
pub proof fn observed_runs_admit(policy: &ScopePolicy, review: ProjectReview, observation: ProjectObservation)
    ensures
        bound(Some(policy), review, observation).0 == CleanDecision::Cleanable <==> {
            &&& review.decision == CleanDecision::Cleanable
            &&& policy.contains(review.path@)
            &&& !policy.excludes(review.path@)
            &&& !policy.excludes(review.target_path@)
            &&& review.canonical_path matches Some(canonical)
            &&& same_path(canonical@, review.path@)
            &&& review.reviewed_identity matches Some(current)
            &&& may_be(
                crate::daemon::cycle::session_of(observation.boot_session_id),
                current.boot_session,
                observation.project_identity,
                current.project,
            )
            &&& match observation.target_identity {
                Some(target) => may_be(
                    crate::daemon::cycle::session_of(observation.boot_session_id),
                    current.boot_session,
                    target,
                    current.target,
                ),
                None => observation.boot_session_id matches Some(a) && current.boot_session matches Some(b) && a@ != b.0@,
            }
        },
        bound(Some(policy), review, observation).1 ==> bound(Some(policy), review, observation).0 == CleanDecision::Cleanable
            && (observation.boot_session_id matches Some(a) && review.reviewed_identity->0.boot_session matches Some(b) && a@
            != b.0@),
        bound(Some(policy), review, observation).0 == CleanDecision::Cleanable && (
        observation.boot_session_id matches Some(a) && review.reviewed_identity->0.boot_session matches Some(b) && a@ != b.0@)
            ==> bound(Some(policy), review, observation).1,
{
}

/// A run of a plan admits a project exactly if its fresh review and the policy do, at the
/// directories that the plan named, and with files that are the planned ones or may be
/// after a restart.
pub proof fn planned_runs_admit(policy: &ScopePolicy, persisted: ProjectReview, fresh: ProjectReview)
    ensures
        refreshed(Some(policy), persisted, fresh) == CleanDecision::Cleanable <==> {
            &&& fresh.decision == CleanDecision::Cleanable
            &&& policy.contains(fresh.path@)
            &&& !policy.excludes(fresh.path@)
            &&& !policy.excludes(fresh.target_path@)
            &&& same_directories(persisted, fresh)
            &&& persisted.reviewed_identity matches Some(before)
            &&& fresh.reviewed_identity matches Some(now)
            &&& may_be(before.boot_session, now.boot_session, before.project, now.project)
            &&& may_be(before.boot_session, now.boot_session, before.target, now.target)
        },
        fresh.decision != CleanDecision::Cleanable ==> refreshed(Some(policy), persisted, fresh) == fresh.decision,
        same_directories(persisted, fresh) ==> same_path(fresh.path@, persisted.path@) && same_path(
            fresh.target_path@,
            persisted.target_path@,
        ),
{
}

// -------------------------------------------------------------------- attempts

/// An attempt that cargo ended well and that could be measured is counted as a cleaned
/// project with the bytes by which its target has shrunk; every other attempt is counted
/// as the failure that it was, and one that could not be measured as that too.
pub proof fn attempts_are_counted(counts: RunCounts, result: CleanResult)
    requires
        0 <= counts.cleaned < i64::MAX,
        0 <= counts.cargo_failures < i64::MAX,
        0 <= counts.cleanup_failures < i64::MAX,
        0 <= counts.measurement_failures < i64::MAX,
        0 <= counts.errors < i64::MAX - 1,
        0 <= counts.bytes_recovered,
        0 <= result.bytes_before,
        0 <= result.bytes_after,
        counts.bytes_recovered + result.bytes_before <= i64::MAX,
    ensures
        ({
            let after = attempt_counted(counts, result);
            let measured = result.measurement_error is None;
            &&& result.outcome == Some(CleanAttemptOutcome::Success) && measured ==> after.cleaned == counts.cleaned + 1
                && after.errors == counts.errors && after.bytes_recovered == counts.bytes_recovered + if result.bytes_before
                > result.bytes_after {
                result.bytes_before - result.bytes_after
            } else {
                0
            }
            &&& !(result.outcome == Some(CleanAttemptOutcome::Success) && measured) ==> after.cleaned == counts.cleaned
                && after.bytes_recovered == counts.bytes_recovered
            &&& result.outcome == Some(CleanAttemptOutcome::CargoNonzero) <==> after.cargo_failures == counts.cargo_failures
                + 1
            &&& result.outcome == Some(CleanAttemptOutcome::RunnerFailure) <==> after.cleanup_failures
                == counts.cleanup_failures + 1
            &&& result.outcome is Some && !measured <==> after.measurement_failures == counts.measurement_failures + 1
            &&& after.errors - counts.errors == (after.cargo_failures - counts.cargo_failures) + (after.cleanup_failures
                - counts.cleanup_failures) + (after.measurement_failures - counts.measurement_failures)
            &&& after.skipped_by_cleaner == counts.skipped_by_cleaner
        }),
{
}

/// An attempt that was put down without a fault is on record behind the others with what
/// was measured and how it ended. A project is marked as cleaned only by an attempt that
/// cargo ended well and that could be measured; and for each thing that went wrong an
/// error is on record with what was said of it.
pub proof fn attempts_are_on_record(
    store: StoreModel,
    run_id: i64,
    generation_id: Option<i64>,
    review: ProjectReview,
    reverified: bool,
    result: CleanResult,
    now: int,
)
    requires
        attempt_recorded(store, run_id, generation_id, review, reverified, result, now).fault is None,
    ensures
        ({
            let after = attempt_recorded(store, run_id, generation_id, review, reverified, result, now).store;
            let row = after.clean_events.last();
            let measured = result.measurement_error is None;
            let n = store.errors.len();
            &&& after.clean_events.len() == store.clean_events.len() + 1
            &&& after.clean_events.drop_last() == store.clean_events
            &&& row.run_id == run_id
            &&& row.path == crate::text::lossy_chars(review.path@)
            &&& result.duration@ / 1_000_000 <= i64::MAX ==> row.duration_ms == result.duration@ / 1_000_000
            &&& row.bytes_before == result.bytes_before
            &&& row.bytes_after == result.bytes_after
            &&& row.exit_code == result.exit_code
            &&& row.stderr_excerpt == result.stderr_excerpt@
            &&& Some(row.outcome) == result.outcome
            &&& row.measurement_failed == !measured
            &&& epoch_of(now) == Some(row.ts)
            &&& after.runs == store.runs
            &&& result.outcome == Some(CleanAttemptOutcome::Success) && measured ==> after.errors == store.errors
                && after.projects == crate::store::projects::project_cleaned(store.projects, decode_utf8(review.path@), row.ts)
            &&& !(result.outcome == Some(CleanAttemptOutcome::Success) && measured) ==> after.projects == store.projects
            &&& result.outcome == Some(CleanAttemptOutcome::CargoNonzero) ==> after.errors.len() > n && after.errors[n as int].category
                == "clean"@ && after.errors[n as int].path == path_text(review.path@) && result.exit_code is Some
                && after.errors[n as int].message == exit_text(result.exit_code->0, result.stderr_excerpt@)
            &&& result.outcome == Some(CleanAttemptOutcome::RunnerFailure) ==> after.errors.len() > n
                && after.errors[n as int].category == "clean"@ && after.errors[n as int].path == path_text(review.path@) && (
            result.attempt_error matches Some(message) && after.errors[n as int].message == message@)
            &&& result.measurement_error matches Some(message) ==> after.errors.len() > n && after.errors.last().category
                == "clean"@ && after.errors.last().path == path_text(review.path@) && after.errors.last().message == message@
            &&& after.errors.take(n as int) == store.errors
        }),
{
    let after = attempt_recorded(store, run_id, generation_id, review, reverified, result, now).store;
    assert(after.clean_events.drop_last() =~= store.clean_events);
    assert(after.errors.take(store.errors.len() as int) =~= store.errors);
}

/// An attempt that was not made counts as skipped if the project was still admitted, and
/// puts down no attempt; one that could not be made at all is a failure with what was
/// said of it.
pub proof fn attempts_that_were_not_made(
    store: StoreModel,
    run: RunState,
    decision: CleanDecision,
    attempt: Result<CleanResult, String>,
    now: int,
)
    requires
        0 <= run.counts.skipped_by_cleaner < i64::MAX,
        0 <= run.counts.errors < i64::MAX,
        0 <= run.counts.cleanup_failures < i64::MAX,
    ensures
        attempt matches Ok(result) ==> (result.skipped ==> {
            let (chain, counts) = attempt_ended(store, run, decision, attempt, now);
            &&& chain.store.clean_events == store.clean_events
            &&& chain.store.projects == store.projects
            &&& decision == CleanDecision::Cleanable ==> counts.skipped_by_cleaner == run.counts.skipped_by_cleaner + 1
            &&& decision != CleanDecision::Cleanable ==> counts.skipped_by_cleaner == run.counts.skipped_by_cleaner
            &&& counts.cleaned == run.counts.cleaned && counts.errors == run.counts.errors && counts.bytes_recovered
                == run.counts.bytes_recovered
        }),
        attempt matches Err(message) ==> {
            let (chain, counts) = attempt_ended(store, run, decision, attempt, now);
            &&& chain.store.clean_events == store.clean_events
            &&& chain.fault is None ==> chain.store.errors.len() == store.errors.len() + 1
                && chain.store.errors.last().message == message@ && chain.store.errors.last().category == "clean"@
            &&& counts.errors == run.counts.errors + 1
            &&& counts.cleanup_failures == run.counts.cleanup_failures + 1
            &&& counts.cleaned == run.counts.cleaned && counts.bytes_recovered == run.counts.bytes_recovered
        },
{
}

/// A run that has ended is on record as finished, with the projects that it cleaned, the
/// bytes that it recovered and the errors that it met.
pub proof fn ended_runs_are_on_record(store: StoreModel, run: RunState, summary: ReviewSummary, now: int, i: int)
    requires
        run_closed(store, run, summary, now).1 is None,
        0 <= i < store.runs.len(),
    ensures
        ({
            let after = run_closed(store, run, summary, now).0;
            &&& after.runs.len() == store.runs.len()
            &&& store.runs[i].id == run.run_id ==> after.runs[i].finished_at == epoch_of(now)
                && after.runs[i].finished_at is Some && after.runs[i].projects_cleaned == run.counts.cleaned
                && after.runs[i].bytes_recovered == run.counts.bytes_recovered && after.runs[i].errors_count
                == run.counts.errors && after.runs[i].started_at == store.runs[i].started_at
            &&& store.runs[i].id != run.run_id ==> after.runs[i] == store.runs[i]
            &&& after.review_status matches Some(status) && status.source == (match run.source {
                RunSource::Dynamic => "run"@,
                RunSource::Reviewed => "reviewed-run"@,
            }) && Some(status.reviewed_at) == epoch_of(run.started@)
            &&& after.clean_events == store.clean_events && after.errors == store.errors && after.projects == store.projects
        }),
{
}

/// The result of a run repeats its numbers.
pub proof fn results_repeat_the_numbers(run: RunState, skipped: int)
    requires
        i64::MIN <= skipped <= i64::MAX,
    ensures
        run_result(run, skipped).run_id == run.run_id,
        run_result(run, skipped).cleaned == run.counts.cleaned,
        run_result(run, skipped).skipped == skipped,
        run_result(run, skipped).bytes_recovered == run.counts.bytes_recovered,
        run_result(run, skipped).errors == run.counts.errors,
        run_result(run, skipped).cargo_failures == run.counts.cargo_failures,
        run_result(run, skipped).measurement_failures == run.counts.measurement_failures,
        run_result(run, skipped).cleanup_failures == run.counts.cleanup_failures,
        run_result(run, skipped).coverage_incomplete == run.coverage_incomplete,
{
}

// ------------------------------------------------------------------- discovery

/// What a scan found of a project is handed over as it was found, with authority where it
/// has it, and with the reason where an origin that overlaps another has it instead.
pub proof fn found_projects_are_handed_over(
    observation: ObservationReconciliation,
    origins: Seq<DiscoveryOriginResult>,
    i: int,
    j: int,
    time: SystemTime,
)
    requires
        reconciles_project(observation, origins, i, j, time),
        0 <= i < origins.len(),
        0 <= j < origins[i].projects@.len(),
    ensures
        observation.project_path@ == origins[i].projects@[j].path@,
        observation.project_identity@ == origins[i].projects@[j].project_identity@,
        observation.target_identity is Some <==> origins[i].projects@[j].target_identity is Some,
        observation.target_identity matches Some(target) ==> target@ == origins[i].projects@[j].target_identity->0@,
        observation.observed_at == time,
        observation.authorized ==> origins[i].completed,
        observation.authorized <==> authorized_at(origins, i, j),
        origins[i].completed && !observation.authorized ==> observation.blocked_reason is Some,
        observation.authorized ==> observation.blocked_reason is None,
{
}

/// What is known of an origin is handed over as it is, with every project that it found.
pub proof fn origins_are_handed_over(
    origin: OriginReconciliation,
    origins: Seq<DiscoveryOriginResult>,
    i: int,
    time: SystemTime,
)
    requires
        reconciles_origin(origin, origins, i, time),
        0 <= i < origins.len(),
    ensures
        origin.kind == origins[i].kind,
        origin.configured_path@ == origins[i].configured_path@,
        origin.completed == origins[i].completed,
        origin.canonical_path is Some <==> origins[i].canonical_path is Some,
        origin.canonical_path matches Some(path) ==> path@ == origins[i].canonical_path->0@,
        origin.error is Some <==> origins[i].error is Some,
        origin.error matches Some(error) ==> error@ == origins[i].error->0@,
        origin.observations@.len() == origins[i].projects@.len(),
        forall|j: int|
            0 <= j < origins[i].projects@.len() ==> (#[trigger] origin.observations@[j]).project_path@
                == origins[i].projects@[j].path@,
{
    assert forall|j: int| 0 <= j < origins[i].projects@.len() implies (#[trigger] origin.observations@[j]).project_path@
        == origins[i].projects@[j].path@ by {
        assert(reconciles_project(origin.observations@[j], origins, i, j, time));
    }
}

/// What a repository said of its worktrees is handed over as it was said: a success as a
/// success with all its paths, a failure as a failure with its message.
pub proof fn answers_are_handed_over(reconciliation: WorktreeReconciliation, discovery: WorktreeDiscovery)
    requires
        reconciles_worktrees(reconciliation, discovery),
    ensures
        discovery is Success <==> reconciliation is Success,
        discovery matches WorktreeDiscovery::Success { primary, linked, excluded, out_of_scope } ==> (
        reconciliation matches WorktreeReconciliation::Success { primary: p, linked: l, excluded: e, out_of_scope: o } && p@
            == primary@ && path_views(l@) == path_views(linked@) && path_views(e@) == path_views(excluded@) && path_views(o@)
            == path_views(out_of_scope@)),
        discovery matches WorktreeDiscovery::Failure { primary, message } ==> (
        reconciliation matches WorktreeReconciliation::Failure { primary: p, message: m } && p@ == primary@ && m@ == message@),
{
}

/// Errors count from an interval ago on.
pub proof fn errors_count_for_an_interval(now: int, interval: int)
    requires
        crate::time::representable(now - interval),
    ensures
        errors_since(now, interval) == now - interval,
{
}

/// A failed cleanup is told by the code that cargo exited with and what it said, in the
/// same words wherever it is told.
pub proof fn failed_cleanups_are_told_alike(event: EventModel, code: i32)
    requires
        event.exit_code == Some(code),
    ensures
        exit_text(code, event.stderr_excerpt) == crate::store::migrate::failure_message(event),
        event.stderr_excerpt.len() == 0 ==> exit_text(code, event.stderr_excerpt) == "cargo clean exited "@
            + crate::text::signed_decimal(code as int),
        event.stderr_excerpt.len() > 0 ==> exit_text(code, event.stderr_excerpt) == "cargo clean exited "@
            + crate::text::signed_decimal(code as int) + ": "@ + event.stderr_excerpt,
{
}

} // verus!
