//! What holds of every store that the operations lead to: the rows of a table have
//! different numbers below the next one, no generation but the newest may be acted on, and
//! there are not more plans than are retained.

use crate::resolve::Resolved;
use crate::store::blocking::paths_replaced;
use crate::store::generations::{
    generation_stored, observations_stored, origin_stored, origins_stored, revoked,
};
use crate::store::history::{attempt_stored, error_recorded_at, problem_recorded, run_finished, run_started};
use crate::store::migrate::{
    authority_revoked, errors_categorized, failures_recorded, history_recounted, lemma_recount_keeps_runs, migrated,
    SchemaColumns,
};
use crate::store::plans::{distinct_plans, lemma_retention, pruned, retained, with_new_plan};
use crate::store::publication::{changes_applied, errors_recorded, scan_published, WorktreeChange};
use crate::store::rows::{
    ErrorModel, ErrorRecord, EventModel, GenerationModel, GenerationReconciliation, ObservationReconciliation, OriginModel,
    OriginReconciliation, PlanModel, RunRow, ScanPublication,
};
use crate::store::worktrees::worktrees_leave_records;
use crate::store::{epoch_of, StoreModel, REVIEW_PLAN_RETENTION};
use vstd::prelude::*;

verus! {

/// Whether numbers are all different and below the next one.
pub open spec fn numbered(numbers: Seq<i64>, next: i64) -> bool {
    &&& forall|i: int| 0 <= i < numbers.len() ==> #[trigger] numbers[i] < next
    &&& forall|i: int, j: int| 0 <= i < j < numbers.len() ==> #[trigger] numbers[i] != #[trigger] numbers[j]
}

/// The numbers of runs.
pub open spec fn run_numbers(rows: Seq<RunRow>) -> Seq<i64> {
    rows.map_values(|row: RunRow| row.id)
}

/// The numbers of attempts to clean.
pub open spec fn event_numbers(rows: Seq<EventModel>) -> Seq<i64> {
    rows.map_values(|row: EventModel| row.id)
}

/// The numbers of errors.
pub open spec fn error_numbers(rows: Seq<ErrorModel>) -> Seq<i64> {
    rows.map_values(|row: ErrorModel| row.id)
}

/// The numbers of generations.
pub open spec fn generation_numbers(rows: Seq<GenerationModel>) -> Seq<i64> {
    rows.map_values(|row: GenerationModel| row.id)
}

/// The numbers of origins.
pub open spec fn origin_numbers(rows: Seq<OriginModel>) -> Seq<i64> {
    rows.map_values(|row: OriginModel| row.id)
}

/// The numbers of plans.
pub open spec fn plan_numbers(rows: Seq<PlanModel>) -> Seq<i64> {
    rows.map_values(|row: PlanModel| row.id)
}

/// Whether only the newest generation may be valid.
pub open spec fn newest_alone_valid(rows: Seq<GenerationModel>) -> bool {
    forall|i: int, j: int|
        0 <= i < rows.len() && 0 <= j < rows.len() && (#[trigger] rows[i]).authority_valid ==> (#[trigger] rows[j]).id
            <= rows[i].id
}

/// What holds of every store.
pub open spec fn consistent(store: StoreModel) -> bool {
    &&& numbered(run_numbers(store.runs), store.next_run_id)
    &&& numbered(event_numbers(store.clean_events), store.next_event_id)
    &&& numbered(error_numbers(store.errors), store.next_error_id)
    &&& numbered(generation_numbers(store.discovery_generations), store.next_generation_id)
    &&& numbered(origin_numbers(store.discovery_origins), store.next_origin_id)
    &&& numbered(plan_numbers(store.review_plans), store.next_plan_id)
    &&& newest_alone_valid(store.discovery_generations)
    &&& store.review_plans.len() <= REVIEW_PLAN_RETENTION
}

/// Whether two stores have the same numbered rows.
pub open spec fn same_records(a: StoreModel, b: StoreModel) -> bool {
    &&& a.runs == b.runs
    &&& a.clean_events == b.clean_events
    &&& a.errors == b.errors
    &&& a.discovery_generations == b.discovery_generations
    &&& a.discovery_origins == b.discovery_origins
    &&& a.review_plans == b.review_plans
    &&& a.next_run_id == b.next_run_id
    &&& a.next_event_id == b.next_event_id
    &&& a.next_error_id == b.next_error_id
    &&& a.next_generation_id == b.next_generation_id
    &&& a.next_origin_id == b.next_origin_id
    &&& a.next_plan_id == b.next_plan_id
}

proof fn lemma_next_number(numbers: Seq<i64>, next: i64)
    requires
        numbered(numbers, next),
        next < i64::MAX,
    ensures
        numbered(numbers.push(next), (next + 1) as i64),
{
    let more = numbers.push(next);
    assert forall|i: int, j: int| 0 <= i < j < more.len() implies #[trigger] more[i] != #[trigger] more[j] by {
        assert(more[i] == numbers[i]);
        if j < numbers.len() {
            assert(more[j] == numbers[j]);
        }
    }
}

// -------------------------------------------------------------------- history

/// Starting a run keeps a store consistent.
pub proof fn started_runs_keep_consistency(store: StoreModel, started_at: i64)
    requires
        consistent(store),
    ensures
        run_started(store, started_at) matches Ok(after) ==> consistent(after),
{
    match run_started(store, started_at) {
        Ok(after) => {
            lemma_next_number(run_numbers(store.runs), store.next_run_id);
            assert(run_numbers(after.runs) =~= run_numbers(store.runs).push(store.next_run_id));
        },
        Err(_) => {},
    }
}

/// Finishing a run keeps a store consistent.
pub proof fn finished_runs_keep_consistency(
    store: StoreModel,
    id: i64,
    finished_at: i64,
    projects_cleaned: i64,
    bytes_recovered: i64,
    errors_count: i64,
)
    requires
        consistent(store),
    ensures
        consistent(run_finished(store, id, finished_at, projects_cleaned, bytes_recovered, errors_count)),
{
    let after = run_finished(store, id, finished_at, projects_cleaned, bytes_recovered, errors_count);
    assert(run_numbers(after.runs) =~= run_numbers(store.runs));
}

/// Recording an attempt to clean keeps a store consistent.
pub proof fn stored_attempts_keep_consistency(store: StoreModel, row: EventModel, time: int)
    requires
        consistent(store),
    ensures
        attempt_stored(store, row, time) matches Ok(after) ==> consistent(after),
{
    match attempt_stored(store, row, time) {
        Ok(after) => {
            lemma_next_number(event_numbers(store.clean_events), store.next_event_id);
            assert(event_numbers(after.clean_events) =~= event_numbers(store.clean_events).push(store.next_event_id));
        },
        Err(_) => {},
    }
}

/// Recording an error keeps a store consistent.
pub proof fn recorded_errors_keep_consistency(store: StoreModel, error: ErrorRecord, ts: i64)
    requires
        consistent(store),
    ensures
        error_recorded_at(store, error, ts) matches Ok(after) ==> consistent(after),
{
    match error_recorded_at(store, error, ts) {
        Ok(after) => {
            lemma_next_number(error_numbers(store.errors), store.next_error_id);
            assert(error_numbers(after.errors) =~= error_numbers(store.errors).push(store.next_error_id));
        },
        Err(_) => {},
    }
}

/// Recording a problem keeps a store consistent.
pub proof fn recorded_problems_keep_consistency(
    store: StoreModel,
    category: Seq<char>,
    path: Option<Seq<char>>,
    message: Seq<char>,
    time: int,
)
    requires
        consistent(store),
    ensures
        problem_recorded(store, category, path, message, time) matches Ok(after) ==> consistent(after),
{
    match problem_recorded(store, category, path, message, time) {
        Ok(after) => {
            lemma_next_number(error_numbers(store.errors), store.next_error_id);
            assert(error_numbers(after.errors) =~= error_numbers(store.errors).push(store.next_error_id));
        },
        Err(_) => {},
    }
}

// ---------------------------------------------------------------- generations

proof fn lemma_observations_keep_records(
    store: StoreModel,
    generation_id: i64,
    origin_id: i64,
    boot_session_id: Option<String>,
    origin: OriginReconciliation,
    observations: Seq<ObservationReconciliation>,
)
    ensures
        observations_stored(store, generation_id, origin_id, boot_session_id, origin, observations) matches Ok(after)
            ==> same_records(after, store),
    decreases observations.len(),
{
    if observations.len() > 0 {
        lemma_observations_keep_records(
            store,
            generation_id,
            origin_id,
            boot_session_id,
            origin,
            observations.drop_last(),
        );
    }
}

proof fn lemma_origins_keep_consistency(
    store: StoreModel,
    generation_id: i64,
    boot_session_id: Option<String>,
    origins: Seq<OriginReconciliation>,
)
    requires
        consistent(store),
    ensures
        origins_stored(store, generation_id, boot_session_id, origins) matches Ok(after) ==> consistent(after),
    decreases origins.len(),
{
    if origins.len() > 0 {
        lemma_origins_keep_consistency(store, generation_id, boot_session_id, origins.drop_last());
        match origins_stored(store, generation_id, boot_session_id, origins.drop_last()) {
            Ok(before) => {
                let origin = origins.last();
                match origin_stored(before, generation_id, boot_session_id, origin) {
                    Ok(after) => {
                        let canonical = crate::store::generations::optional_path_text(origin.canonical_path)->Ok_0;
                        let row = OriginModel {
                            id: before.next_origin_id,
                            generation_id,
                            kind: origin.kind,
                            configured_path: vstd::utf8::decode_utf8(origin.configured_path@),
                            canonical_path: canonical,
                            completed: origin.completed,
                            error: crate::store::rows::optional_text(origin.error),
                        };
                        let opened = StoreModel {
                            discovery_origins: before.discovery_origins.push(row),
                            next_origin_id: (before.next_origin_id + 1) as i64,
                            ..before
                        };
                        lemma_observations_keep_records(
                            opened,
                            generation_id,
                            before.next_origin_id,
                            boot_session_id,
                            origin,
                            origin.observations@,
                        );
                        lemma_next_number(origin_numbers(before.discovery_origins), before.next_origin_id);
                        assert(origin_numbers(opened.discovery_origins) =~= origin_numbers(
                            before.discovery_origins,
                        ).push(before.next_origin_id));
                        assert(after.discovery_origins == opened.discovery_origins);
                    },
                    Err(_) => {},
                }
            },
            Err(_) => {},
        }
    }
}

/// Storing a generation keeps a store consistent.
pub proof fn stored_generations_keep_consistency(
    store: StoreModel,
    created_at: i64,
    reconciliation: GenerationReconciliation,
)
    requires
        consistent(store),
    ensures
        generation_stored(store, created_at, reconciliation) matches Ok(after) ==> consistent(after),
{
    if store.next_generation_id < i64::MAX {
        let id = store.next_generation_id;
        let old_rows = store.discovery_generations.map_values(|row: GenerationModel| revoked(row));
        let new = GenerationModel {
            id,
            created_at,
            policy_hash: reconciliation.policy_hash@,
            boot_session_id: crate::store::rows::optional_text(reconciliation.boot_session_id),
            authority_valid: true,
        };
        let rows = old_rows.push(new);
        let start = StoreModel { discovery_generations: rows, next_generation_id: (id + 1) as i64, ..store };
        let numbers = generation_numbers(store.discovery_generations);
        lemma_next_number(numbers, id);
        assert(generation_numbers(rows) =~= numbers.push(id));
        assert forall|i: int, j: int|
            0 <= i < rows.len() && 0 <= j < rows.len() && (#[trigger] rows[i]).authority_valid implies (
        #[trigger] rows[j]).id <= rows[i].id by {
            if i < old_rows.len() {
                assert(rows[i] == revoked(store.discovery_generations[i]));
            }
            if j < old_rows.len() {
                assert(numbers[j] < id);
            }
        }
        lemma_origins_keep_consistency(start, id, reconciliation.boot_session_id, reconciliation.origins@);
    }
}

// ------------------------------------------------------------------- plans

/// Leaving out plans leaves the numbers of the others different and below the next one.
proof fn lemma_kept_plans(plans: Seq<PlanModel>, keep: spec_fn(PlanModel) -> bool, next: i64)
    requires
        numbered(plan_numbers(plans), next),
    ensures
        numbered(plan_numbers(plans.filter(keep)), next),
        plans.filter(keep).len() <= plans.len(),
    decreases plans.len(),
{
    reveal(Seq::filter);
    if plans.len() > 0 {
        let shorter = plans.drop_last();
        let last = plans.last();
        let all = plan_numbers(plans);
        assert forall|i: int| 0 <= i < shorter.len() implies plan_numbers(shorter)[i] == #[trigger] all[i] by {}
        assert(plan_numbers(shorter) =~= all.drop_last());
        assert(numbered(plan_numbers(shorter), next));
        lemma_kept_plans(shorter, keep, next);
        let kept = shorter.filter(keep);
        if keep(last) {
            let numbers = plan_numbers(kept.push(last));
            assert(all[plans.len() - 1] == last.id);
            assert forall|i: int, j: int| 0 <= i < j < numbers.len() implies #[trigger] numbers[i] != #[trigger] numbers[j] by {
                assert(numbers[i] == plan_numbers(kept)[i]);
                if j < kept.len() {
                    assert(numbers[j] == plan_numbers(kept)[j]);
                } else {
                    shorter.lemma_filter_contains_rev(keep, kept[i]);
                    let k = choose|k: int| 0 <= k < shorter.len() && shorter[k] == kept[i];
                    assert(all[k] == kept[i].id);
                }
            }
            assert forall|i: int| 0 <= i < numbers.len() implies #[trigger] numbers[i] < next by {
                if i < kept.len() {
                    assert(numbers[i] == plan_numbers(kept)[i]);
                }
            }
        }
    }
}

proof fn lemma_numbered_plans_are_distinct(plans: Seq<PlanModel>, next: i64)
    requires
        numbered(plan_numbers(plans), next),
    ensures
        distinct_plans(plans),
{
    assert forall|i: int, j: int| 0 <= i < j < plans.len() implies (#[trigger] plans[i]).id != (#[trigger] plans[j]).id by {
        assert(plan_numbers(plans)[i] != plan_numbers(plans)[j]);
    }
}

proof fn lemma_retained_plans(plans: Seq<PlanModel>, next: i64)
    requires
        numbered(plan_numbers(plans), next),
    ensures
        numbered(plan_numbers(retained(plans)), next),
        retained(plans).len() <= REVIEW_PLAN_RETENTION,
{
    let keys = crate::store::plans::keys_of(plans);
    lemma_kept_plans(
        plans,
        |plan: PlanModel|
            crate::store::plans::newer_count(keys, crate::store::plans::plan_key(plan)) < REVIEW_PLAN_RETENTION,
        next,
    );
    lemma_numbered_plans_are_distinct(plans, next);
    lemma_retention(plans);
}

proof fn lemma_pruned_plans(
    plans: Seq<PlanModel>,
    generations: Seq<GenerationModel>,
    now: i64,
    authority: Option<(Seq<char>, i64)>,
    next: i64,
)
    requires
        numbered(plan_numbers(plans), next),
    ensures
        numbered(plan_numbers(pruned(plans, generations, now, authority)), next),
        pruned(plans, generations, now, authority).len() <= REVIEW_PLAN_RETENTION,
{
    let live_keep = |plan: PlanModel|
        plan.expires_at > now && crate::store::plans::rests_on_current(plan, generations);
    let live = plans.filter(live_keep);
    lemma_kept_plans(plans, live_keep, next);
    match authority {
        Some((hash, id)) => {
            let own_keep = |plan: PlanModel| plan.policy_hash == hash && plan.generation_id == id;
            lemma_kept_plans(live, own_keep, next);
            lemma_retained_plans(live.filter(own_keep), next);
        },
        None => lemma_retained_plans(live, next),
    }
}

/// Pruning plans keeps a store consistent.
pub proof fn pruned_plans_keep_consistency(store: StoreModel, now: i64, authority: Option<(Seq<char>, i64)>)
    requires
        consistent(store),
    ensures
        consistent(
            (StoreModel {
                review_plans: pruned(store.review_plans, store.discovery_generations, now, authority),
                ..store
            }),
        ),
{
    lemma_pruned_plans(store.review_plans, store.discovery_generations, now, authority, store.next_plan_id);
}

/// Making a plan keeps a store consistent: never are there more plans than are retained.
pub proof fn new_plans_keep_consistency(store: StoreModel, plan: PlanModel)
    requires
        consistent(store),
        plan.id == store.next_plan_id,
        store.next_plan_id < i64::MAX,
    ensures
        consistent(with_new_plan(store, plan)),
{
    let authority = Some((plan.policy_hash, plan.generation_id));
    let left = pruned(store.review_plans, store.discovery_generations, plan.created_at, authority);
    lemma_pruned_plans(
        store.review_plans,
        store.discovery_generations,
        plan.created_at,
        authority,
        store.next_plan_id,
    );
    lemma_next_number(plan_numbers(left), store.next_plan_id);
    assert(plan_numbers(left.push(plan)) =~= plan_numbers(left).push(plan.id));
    lemma_retained_plans(left.push(plan), (store.next_plan_id + 1) as i64);
}

/// However many plans are made, no more are left than are retained.
pub proof fn retention_is_bounded(store: StoreModel, plan: PlanModel)
    requires
        consistent(store),
        plan.id == store.next_plan_id,
        store.next_plan_id < i64::MAX,
    ensures
        with_new_plan(store, plan).review_plans.len() <= REVIEW_PLAN_RETENTION,
{
    new_plans_keep_consistency(store, plan);
}

// ---------------------------------------------------------------- publication

/// Putting projects under other paths leaves the numbered rows alone.
pub proof fn lemma_replacing_keeps_records(store: StoreModel, pairs: Seq<(Seq<char>, Seq<char>)>)
    ensures
        same_records(paths_replaced(store, pairs), store),
    decreases pairs.len(),
{
    if pairs.len() > 0 {
        lemma_replacing_keeps_records(store, pairs.drop_last());
    }
}

/// Changes to worktrees leave the numbered rows alone.
pub proof fn lemma_changes_keep_records(store: StoreModel, changes: Seq<WorktreeChange>)
    ensures
        same_records(changes_applied(store, changes), store),
    decreases changes.len(),
{
    if changes.len() > 0 {
        let before = changes_applied(store, changes.drop_last());
        lemma_changes_keep_records(store, changes.drop_last());
        match changes.last() {
            WorktreeChange::Success(success) => worktrees_leave_records(before, success),
            WorktreeChange::Failure(_) => {},
        }
    }
}

proof fn lemma_errors_keep_consistency(store: StoreModel, errors: Seq<ErrorRecord>)
    requires
        consistent(store),
    ensures
        errors_recorded(store, errors) matches Ok(after) ==> consistent(after),
    decreases errors.len(),
{
    if errors.len() > 0 {
        lemma_errors_keep_consistency(store, errors.drop_last());
        match errors_recorded(store, errors.drop_last()) {
            Ok(before) => recorded_errors_keep_consistency(
                before,
                errors.last(),
                epoch_of(errors.last().ts@)->0,
            ),
            Err(_) => {},
        }
    }
}

/// Publishing a scan keeps a store consistent.
pub proof fn published_scans_keep_consistency(
    store: StoreModel,
    known: Map<Seq<u8>, Resolved>,
    created_at: int,
    publication: ScanPublication,
)
    requires
        consistent(store),
    ensures
        scan_published(store, known, created_at, publication) matches Ok(after) ==> consistent(after),
{
    if scan_published(store, known, created_at, publication) is Ok {
        let secs = epoch_of(created_at)->0;
        let pairs = crate::store::blocking::replacements_of(
            known,
            crate::store::blocking::frozen_texts(store),
            crate::store::blocking::identity_texts(store),
        )->Ok_0;
        let changes = crate::store::publication::changes_of(known, created_at, publication.worktrees@)->Ok_0;
        let renamed = paths_replaced(store, pairs);
        let changed = changes_applied(renamed, changes);
        lemma_replacing_keeps_records(store, pairs);
        lemma_changes_keep_records(renamed, changes);
        stored_generations_keep_consistency(changed, secs, publication.generation);
        let next = generation_stored(changed, secs, publication.generation)->Ok_0;
        lemma_errors_keep_consistency(next, publication.diagnostics@);
    }
}

// ------------------------------------------------------------------ migration

proof fn lemma_recorded_failures(errors: Seq<ErrorModel>, known: Seq<ErrorModel>, next: i64, events: Seq<EventModel>)
    requires
        numbered(error_numbers(errors), next),
    ensures
        failures_recorded(errors, known, next, events) matches Some((after, id)) ==> numbered(
            error_numbers(after),
            id,
        ),
    decreases events.len(),
{
    if events.len() > 0 {
        lemma_recorded_failures(errors, known, next, events.drop_last());
        match failures_recorded(errors, known, next, events.drop_last()) {
            Some((before, id)) => match failures_recorded(errors, known, next, events) {
                Some((after, following)) => {
                    if following != id {
                        lemma_next_number(error_numbers(before), id);
                        assert(error_numbers(after) =~= error_numbers(before).push(id));
                    }
                },
                None => {},
            },
            None => {},
        }
    }
}

proof fn lemma_recount_keeps_consistency(store: StoreModel)
    requires
        consistent(store),
    ensures
        history_recounted(store) matches Ok(after) ==> consistent(after),
{
    match history_recounted(store) {
        Ok(after) => {
            lemma_recount_keeps_runs(store.clean_events, store.runs);
            assert(run_numbers(after.runs) =~= run_numbers(store.runs));
            lemma_recorded_failures(store.errors, store.errors, store.next_error_id, store.clean_events);
        },
        Err(_) => {},
    }
}

proof fn lemma_categories_keep_consistency(store: StoreModel)
    requires
        consistent(store),
    ensures
        consistent(errors_categorized(store)),
{
    assert(error_numbers(errors_categorized(store).errors) =~= error_numbers(store.errors));
}

proof fn lemma_revoking_keeps_consistency(store: StoreModel, reason: Seq<char>, forget_boot: bool)
    requires
        consistent(store),
    ensures
        consistent(authority_revoked(store, reason, forget_boot)),
{
    let after = authority_revoked(store, reason, forget_boot);
    assert(generation_numbers(after.discovery_generations) =~= generation_numbers(store.discovery_generations));
}

/// A migration, whether it completes or not, keeps a store consistent.
pub proof fn migrations_keep_consistency(
    store: StoreModel,
    columns: SchemaColumns,
    known: Map<Seq<u8>, Resolved>,
    now: int,
)
    requires
        consistent(store),
    ensures
        consistent(migrated(store, columns, known, now).store),
{
    assert forall|s: StoreModel| consistent(s) implies ((#[trigger] history_recounted(s)) matches Ok(after) ==> consistent(
        after,
    )) by {
        lemma_recount_keeps_consistency(s);
    }
    assert forall|s: StoreModel| consistent(s) implies consistent(#[trigger] errors_categorized(s)) by {
        lemma_categories_keep_consistency(s);
    }
    assert forall|s: StoreModel, reason: Seq<char>, forget: bool| consistent(s) implies consistent(
        #[trigger] authority_revoked(s, reason, forget),
    ) by {
        lemma_revoking_keeps_consistency(s, reason, forget);
    }
    assert forall|s: StoreModel, at: i64| consistent(s) implies consistent(
        (StoreModel { review_plans: #[trigger] pruned(s.review_plans, s.discovery_generations, at, None), ..s }),
    ) by {
        pruned_plans_keep_consistency(s, at, None);
    }
}

/// A store without rows is consistent.
pub proof fn empty_stores_are_consistent()
    ensures
        consistent(crate::store::empty_store()),
{
}

} // verus!
