//! What the record of runs, attempts and errors keeps.

use crate::safety::ReviewSummary;
use crate::store::history::{
    attempt_stored, error_recorded, event_recorded, event_row, latest_run, review_recorded, run_finished,
    run_started, scan_error_texts,
};
use crate::store::rows::{optional_text, CleanEvent, ErrorModel, ErrorRecord, FailureModel, RunRow};
use crate::store::table::{picked, picked_are_of_rows, some_row};
use crate::store::worktrees::text_set_holds;
use crate::store::StoreModel;
use vstd::prelude::*;

verus! {

// ------------------------------------------------------------------------ runs

/// A run that is started is put behind the others under a number of its own, without an
/// end, and nothing else changes.
pub proof fn started_runs_are_open(store: StoreModel, started_at: i64)
    requires
        run_started(store, started_at) is Ok,
    ensures
        ({
            let after = run_started(store, started_at)->Ok_0;
            &&& after.runs.len() == store.runs.len() + 1
            &&& after.runs.drop_last() == store.runs
            &&& after.runs.last().id == store.next_run_id
            &&& after.runs.last().started_at == started_at
            &&& after.runs.last().finished_at is None
            &&& after.runs.last().projects_cleaned == 0 && after.runs.last().bytes_recovered == 0
                && after.runs.last().errors_count == 0
            &&& after.next_run_id > store.next_run_id
            &&& (StoreModel { runs: store.runs, next_run_id: store.next_run_id, ..after }) == store
        }),
{
    let after = run_started(store, started_at)->Ok_0;
    assert(after.runs.drop_last() =~= store.runs);
}

/// Finishing a run puts down its end and its numbers, keeps when it was started, and
/// leaves every other run as it was.
pub proof fn finished_runs_keep_their_start(
    store: StoreModel,
    id: i64,
    finished_at: i64,
    projects_cleaned: i64,
    bytes_recovered: i64,
    errors_count: i64,
)
    ensures
        ({
            let after = run_finished(store, id, finished_at, projects_cleaned, bytes_recovered, errors_count);
            &&& after.runs.len() == store.runs.len()
            &&& forall|i: int|
                0 <= i < store.runs.len() ==> {
                    let row = #[trigger] after.runs[i];
                    if store.runs[i].id == id {
                        &&& row.id == id
                        &&& row.started_at == store.runs[i].started_at
                        &&& row.finished_at == Some(finished_at)
                        &&& row.projects_cleaned == projects_cleaned
                        &&& row.bytes_recovered == bytes_recovered
                        &&& row.errors_count == errors_count
                    } else {
                        row == store.runs[i]
                    }
                }
            &&& (StoreModel { runs: store.runs, ..after }) == store
        }),
{
}

/// The latest run is one of the runs, and none was started after it, nor with it under a
/// greater number.
pub proof fn latest_run_was_started_last(runs: Seq<RunRow>)
    ensures
        latest_run(runs) is None <==> runs.len() == 0,
        latest_run(runs) matches Some(latest) ==> runs.contains(latest) && forall|i: int|
            0 <= i < runs.len() ==> (#[trigger] runs[i]).started_at < latest.started_at || (runs[i].started_at
                == latest.started_at && runs[i].id <= latest.id),
    decreases runs.len(),
{
    if runs.len() > 0 {
        let front = runs.drop_last();
        latest_run_was_started_last(front);
        let latest = latest_run(runs)->0;
        assert(runs[runs.len() - 1] == runs.last());
        if latest != runs.last() {
            let k = choose|k: int| 0 <= k < front.len() && front[k] == latest;
            assert(runs[k] == latest);
        }
        assert forall|i: int| 0 <= i < runs.len() implies (#[trigger] runs[i]).started_at < latest.started_at || (
        runs[i].started_at == latest.started_at && runs[i].id <= latest.id) by {
            if i < front.len() {
                assert(front[i] == runs[i]);
            }
        }
    }
}

// -------------------------------------------------------------------- attempts

/// An attempt is put down behind the others with everything that is said of it, under a
/// number of its own, exactly if its run is on record and its time can be stored;
/// nothing else changes.
pub proof fn attempts_are_put_down(store: StoreModel, event: CleanEvent)
    ensures
        event_recorded(store, event) matches Ok(after) ==> {
            let row = after.clean_events.last();
            &&& after.clean_events.len() == store.clean_events.len() + 1
            &&& after.clean_events.drop_last() == store.clean_events
            &&& row.id == store.next_event_id
            &&& row.run_id == event.run_id
            &&& row.path == event.path@
            &&& row.bytes_before == event.bytes_before
            &&& row.bytes_after == event.bytes_after
            &&& row.duration_ms == event.duration_ms
            &&& row.exit_code == event.exit_code
            &&& row.stderr_excerpt == event.stderr_excerpt@
            &&& row.outcome == event.outcome
            &&& row.measurement_failed == event.measurement_failed
            &&& crate::store::epoch_of(event.ts@) == Some(row.ts)
            &&& exists|i: int| 0 <= i < store.runs.len() && (#[trigger] store.runs[i]).id == event.run_id
            &&& after.next_event_id > store.next_event_id
            &&& (StoreModel { clean_events: store.clean_events, next_event_id: store.next_event_id, ..after }) == store
        },
        event_recorded(store, event) is Ok <==> crate::store::epoch_of(event.ts@) is Some && store.next_event_id < i64::MAX
            && exists|i: int| 0 <= i < store.runs.len() && (#[trigger] store.runs[i]).id == event.run_id,
{
    let row = event_row(event, 0, 0);
    assert(event_recorded(store, event) == attempt_stored(store, row, event.ts@));
    assert(some_row(store.runs, |run: RunRow| run.id == row.run_id) <==> exists|i: int|
        0 <= i < store.runs.len() && (#[trigger] store.runs[i]).id == event.run_id) by {
        let q = |run: RunRow| run.id == row.run_id;
        if some_row(store.runs, q) {
            let i = choose|i: int| 0 <= i < store.runs.len() && q(#[trigger] store.runs[i]);
            assert(store.runs[i].id == event.run_id);
        }
        if exists|i: int| 0 <= i < store.runs.len() && (#[trigger] store.runs[i]).id == event.run_id {
            let i = choose|i: int| 0 <= i < store.runs.len() && (#[trigger] store.runs[i]).id == event.run_id;
            assert(q(store.runs[i]));
        }
    }
    if let Ok(after) = event_recorded(store, event) {
        assert(after.clean_events.drop_last() =~= store.clean_events);
    }
}

// ---------------------------------------------------------------------- errors

/// An error is put down behind the others with everything that is said of it, and
/// nothing else changes.
pub proof fn errors_are_put_down(store: StoreModel, error: ErrorRecord)
    ensures
        error_recorded(store, error) matches Ok(after) ==> {
            let row = after.errors.last();
            &&& after.errors.len() == store.errors.len() + 1
            &&& after.errors.drop_last() == store.errors
            &&& row.id == store.next_error_id
            &&& row.category == error.category@
            &&& row.path == optional_text(error.path)
            &&& row.message == error.message@
            &&& crate::store::epoch_of(error.ts@) == Some(row.ts)
            &&& after.next_error_id > store.next_error_id
            &&& (StoreModel { errors: store.errors, next_error_id: store.next_error_id, ..after }) == store
        },
        error_recorded(store, error) is Ok <==> crate::store::epoch_of(error.ts@) is Some && store.next_error_id < i64::MAX,
{
    if let Ok(after) = error_recorded(store, error) {
        assert(after.errors.drop_last() =~= store.errors);
    }
}

/// The paths that a scan could not cover since a time are exactly those of the errors on
/// record since that time that a scan met, or that asking a repository met and that
/// still stand.
pub proof fn uncovered_paths_are_of_errors_since(store: StoreModel, since: i64, path: Seq<char>)
    ensures
        scan_error_texts(store, since).contains(path) <==> exists|i: int|
            0 <= i < store.errors.len() && (#[trigger] store.errors[i]).ts >= since && store.errors[i].path == Some(path) && (
            store.errors[i].category == "scan"@ || (store.errors[i].category == "worktree_discovery"@ && exists|k: int|
                0 <= k < store.worktree_discovery_failures.len() && ((#[trigger] store.worktree_discovery_failures[k]).primary
                    == path || store.worktree_discovery_failures[k].canonical_primary == Some(path)))),
{
    let g = |row: ErrorModel|
        if crate::store::history::limits_coverage(store, since, row) {
            row.path
        } else {
            None
        };
    let list = picked(store.errors, g);
    text_set_holds(list, path);
    picked_are_of_rows(store.errors, g);
    let concerns = |row: FailureModel| row.primary == path || row.canonical_primary == Some(path);
    let failures = store.worktree_discovery_failures;
    assert(some_row(failures, concerns) <==> exists|k: int|
        0 <= k < failures.len() && ((#[trigger] failures[k]).primary == path || failures[k].canonical_primary == Some(path))) by {
        if some_row(failures, concerns) {
            let k = choose|k: int| 0 <= k < failures.len() && concerns(#[trigger] failures[k]);
            assert(failures[k].primary == path || failures[k].canonical_primary == Some(path));
        }
        if exists|k: int|
            0 <= k < failures.len() && ((#[trigger] failures[k]).primary == path || failures[k].canonical_primary == Some(
                path,
            )) {
            let k = choose|k: int|
                0 <= k < failures.len() && ((#[trigger] failures[k]).primary == path || failures[k].canonical_primary
                    == Some(path));
            assert(concerns(failures[k]));
        }
    }
    if scan_error_texts(store, since).contains(path) {
        assert(list.contains(path));
        let k = choose|k: int| 0 <= k < list.len() && list[k] == path;
        let i = choose|i: int| 0 <= i < store.errors.len() && g(#[trigger] store.errors[i]) == Some(list[k]);
        assert(store.errors[i].ts >= since);
    }
    if exists|i: int|
        0 <= i < store.errors.len() && (#[trigger] store.errors[i]).ts >= since && store.errors[i].path == Some(path) && (
        store.errors[i].category == "scan"@ || (store.errors[i].category == "worktree_discovery"@ && exists|k: int|
            0 <= k < failures.len() && ((#[trigger] failures[k]).primary == path || failures[k].canonical_primary == Some(
                path,
            )))) {
        let i = choose|i: int|
            0 <= i < store.errors.len() && (#[trigger] store.errors[i]).ts >= since && store.errors[i].path == Some(path) && (
            store.errors[i].category == "scan"@ || (store.errors[i].category == "worktree_discovery"@ && exists|k: int|
                0 <= k < failures.len() && ((#[trigger] failures[k]).primary == path || failures[k].canonical_primary
                    == Some(path))));
        assert(g(store.errors[i]) == Some(path));
        assert(list.contains(path));
    }
}

/// A review is put down in place of the one before it, with all its numbers where they
/// can be stored.
pub proof fn reviews_are_put_down(store: StoreModel, reviewed_at: i64, source: Seq<char>, summary: ReviewSummary)
    requires
        summary.total_projects <= i64::MAX,
        summary.cleanable_projects <= i64::MAX,
        summary.skipped_projects <= i64::MAX,
        summary.cleanable_bytes <= i64::MAX,
        summary.active_recent_write <= i64::MAX,
        summary.active_process <= i64::MAX,
        summary.managed_cache <= i64::MAX,
        summary.container_storage <= i64::MAX,
        summary.scan_error <= i64::MAX,
        summary.no_target <= i64::MAX,
        summary.target_read_error <= i64::MAX,
    ensures
        review_recorded(store, reviewed_at, source, summary).review_status matches Some(status) && status.reviewed_at
            == reviewed_at && status.source == source && status.summary == summary,
        (StoreModel { review_status: store.review_status, ..review_recorded(store, reviewed_at, source, summary) }) == store,
{
}

} // verus!
