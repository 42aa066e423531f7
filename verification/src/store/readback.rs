//! What is read from the store is what was put into it.

use crate::safety::{CleanDecision, ReviewModel, SkipReason};
use crate::store::generations::{is_new_generation, observation_is, origin_is};
use crate::store::history::{error_is, error_recorded, event_is, event_recorded, run_is};
use crate::store::plans::plan_is;
use crate::store::projects::project_is;
use crate::store::codec::{review_of_columns, storable};
use crate::store::rows::{
    optional_text, CleanEvent, DiscoveryGeneration, DiscoveryOriginRecord, ErrorRecord, GenerationReconciliation,
    ObservationModel, OriginModel, PlanModel, Project, ProjectModel, ProjectObservation, ReviewPlan, Run, RunRow,
};
use crate::store::{time_of, StoreModel};
use crate::time::SystemTime;
use vstd::prelude::*;
use vstd::utf8::*;

verus! {

/// An attempt is read back as it was put down, its time to the second.
pub proof fn attempts_are_read_back(store: StoreModel, event: CleanEvent, read: CleanEvent)
    requires
        event_recorded(store, event) is Ok,
        event_is(read, event_recorded(store, event)->Ok_0.clean_events.last()),
        event.ts@ < i64::MAX * 1_000_000_000,
    ensures
        read.run_id == event.run_id,
        read.path@ == event.path@,
        read.bytes_before == event.bytes_before,
        read.bytes_after == event.bytes_after,
        read.duration_ms == event.duration_ms,
        read.exit_code == event.exit_code,
        read.stderr_excerpt@ == event.stderr_excerpt@,
        read.outcome == event.outcome,
        read.measurement_failed == event.measurement_failed,
        read.ts@ <= event.ts@ < read.ts@ + 1_000_000_000,
        read.id == store.next_event_id,
{
}

/// An error is read back as it was put down, its time to the second.
pub proof fn errors_are_read_back(store: StoreModel, error: ErrorRecord, read: ErrorRecord)
    requires
        error_recorded(store, error) is Ok,
        error_is(read, error_recorded(store, error)->Ok_0.errors.last()),
        error.ts@ < i64::MAX * 1_000_000_000,
    ensures
        read.category@ == error.category@,
        read.message@ == error.message@,
        optional_text(read.path) == optional_text(error.path),
        read.ts@ <= error.ts@ < read.ts@ + 1_000_000_000,
        read.id == store.next_error_id,
{
}

/// A run is read as it is on record.
pub proof fn runs_are_read_back(run: Run, row: RunRow)
    requires
        run_is(run, row),
        row.started_at >= 0,
    ensures
        run.id == row.id,
        run.started_at@ == row.started_at * 1_000_000_000,
        run.finished_at is Some <==> row.finished_at is Some,
        row.finished_at matches Some(secs) ==> (secs >= 0 ==> run.finished_at->0@ == secs * 1_000_000_000),
        run.projects_cleaned == row.projects_cleaned,
        run.bytes_recovered == row.bytes_recovered,
        run.errors_count == row.errors_count,
{
}

/// A project is read as it is on record.
pub proof fn projects_are_read_back(project: Project, row: ProjectModel)
    requires
        project_is(project, row),
    ensures
        project.path@ == row.path,
        row.discovered_at >= 0 ==> project.discovered_at@ == row.discovered_at * 1_000_000_000,
        row.last_seen_at >= 0 ==> project.last_seen_at@ == row.last_seen_at * 1_000_000_000,
        project.last_cleaned_at is Some <==> row.last_cleaned_at is Some,
        row.last_cleaned_at matches Some(secs) ==> (secs >= 0 ==> project.last_cleaned_at->0@ == secs * 1_000_000_000),
{
}

/// An observation is read as it is on record: the same project with the same identities,
/// and with authority only if it is on record with it.
pub proof fn observations_are_read_back(observation: ProjectObservation, row: ObservationModel)
    requires
        observation_is(observation, row),
    ensures
        observation.generation_id == row.generation_id,
        observation.origin_id == row.origin_id,
        observation.project_path@ == encode_utf8(row.project_path),
        observation.project_identity@ == row.project_identity,
        observation.target_identity is Some <==> row.target_identity is Some,
        observation.target_identity matches Some(target) ==> row.target_identity == Some(target@),
        observation.authorized == row.authorized,
        optional_text(observation.blocked_reason) == row.blocked_reason,
        optional_text(observation.boot_session_id) == row.boot_session_id,
        observation.observed_at@ == time_of(row.observed_at),
{
}

/// An origin is read as it is on record.
pub proof fn origins_are_read_back(origin: DiscoveryOriginRecord, row: OriginModel)
    requires
        origin_is(origin, row),
    ensures
        origin.id == row.id,
        origin.generation_id == row.generation_id,
        origin.kind == row.kind,
        origin.configured_path@ == encode_utf8(row.configured_path),
        origin.canonical_path is Some <==> row.canonical_path is Some,
        origin.canonical_path matches Some(path) ==> path@ == encode_utf8(row.canonical_path->0),
        origin.completed == row.completed,
        optional_text(origin.error) == row.error,
{
}

/// What is handed out as a new discovery is what was stored.
pub proof fn new_discoveries_are_what_was_stored(
    generation: DiscoveryGeneration,
    id: i64,
    created_at: SystemTime,
    reconciliation: GenerationReconciliation,
)
    requires
        is_new_generation(generation, id, created_at, reconciliation),
    ensures
        generation.id == id,
        generation.created_at == created_at,
        generation.policy_hash@ == reconciliation.policy_hash@,
        generation.boot_session_id is Some <==> reconciliation.boot_session_id is Some,
        generation.boot_session_id matches Some(session) ==> session@ == reconciliation.boot_session_id->0@,
{
}

/// A plan is read as it is on record, with every target.
pub proof fn plans_are_read_back(plan: ReviewPlan, row: PlanModel, i: int)
    requires
        plan_is(plan, row),
    ensures
        plan.id == row.id,
        plan.policy_hash@ == row.policy_hash,
        plan.generation_id == row.generation_id,
        plan.coverage_incomplete == row.coverage_incomplete,
        plan.candidate_bytes == row.candidate_bytes,
        plan.created_at@ == time_of(row.created_at),
        plan.expires_at@ == time_of(row.expires_at),
        plan.targets@.len() == row.targets.len(),
        0 <= i < row.targets.len() ==> (review_of_columns(row.targets[i]) matches Some((ordinal, review))
            && plan.targets@[i].review@ == review),
{
    if 0 <= i < row.targets.len() {
        assert(review_of_columns(row.targets[i]) is Some);
    }
}

/// A review can be stored exactly if its paths are text and its numbers fit: those of the
/// files, the bytes of the target and the age that it names.
pub proof fn reviews_that_can_be_stored(review: ReviewModel)
    ensures
        storable(review) <==> {
            &&& valid_utf8(review.path)
            &&& valid_utf8(review.target_path)
            &&& review.canonical_path matches Some(path) ==> valid_utf8(path)
            &&& review.target_bytes <= i64::MAX
            &&& review.reviewed_identity matches Some(seen) ==> seen.project.device <= i64::MAX && seen.project.inode
                <= i64::MAX && seen.target.device <= i64::MAX && seen.target.inode <= i64::MAX
            &&& review.decision matches CleanDecision::Skipped(reason) ==> (reason
                matches SkipReason::ActiveRecentWrite { newest_age_secs } ==> newest_age_secs <= i64::MAX)
        },
{
}

} // verus!
