//! What bringing an older store up to date comes to.

use crate::resolve::{physical_path, Finding, Resolved};
use crate::store::migrate::{
    errors_categorized, failure_message, failures_attributed, failures_recorded, last_success, links_attributed, migrated,
    run_recounted, run_totals, runs_recounted, trusted_primaries, SchemaColumns,
};
use crate::store::rows::{ErrorModel, EventModel, FailureModel, LinkedModel, RunRow};
use crate::store::table::{picked, picked_are_of_rows, some_row};
use crate::store::worktrees::{text_set, text_set_holds};
use crate::store::StoreModel;
use vstd::prelude::*;
use vstd::utf8::*;

verus! {

/// The attempts of a run that cargo ended well.
pub open spec fn successes_of(events: Seq<EventModel>, run_id: i64) -> Seq<EventModel> {
    events.filter(|row: EventModel| row.run_id == run_id && row.exit_code == Some(0i32))
}

/// The attempts of a run that cargo ended otherwise.
pub open spec fn failures_of(events: Seq<EventModel>, run_id: i64) -> Seq<EventModel> {
    events.filter(|row: EventModel| row.run_id == run_id && (row.exit_code matches Some(code) && code != 0))
}

/// The bytes by which attempts shrank their targets, those that grew left out.
pub open spec fn shrunk(events: Seq<EventModel>) -> int
    decreases events.len(),
{
    if events.len() == 0 {
        0
    } else {
        shrunk(events.drop_last()) + if events.last().bytes_before > events.last().bytes_after {
            events.last().bytes_before - events.last().bytes_after
        } else {
            0
        }
    }
}

/// A run is counted anew by its own attempts: the projects that it cleaned are its
/// attempts that ended well, the bytes what they shrank, and its failures those that ended
/// otherwise.
pub proof fn runs_are_counted_by_their_attempts(events: Seq<EventModel>, run_id: i64)
    ensures
        run_totals(events, run_id) matches Some(totals) ==> totals.cleaned == successes_of(events, run_id).len()
            && totals.failed == failures_of(events, run_id).len() && totals.bytes == shrunk(successes_of(events, run_id)),
    decreases events.len(),
{
    let good = |row: EventModel| row.run_id == run_id && row.exit_code == Some(0i32);
    let bad = |row: EventModel| row.run_id == run_id && (row.exit_code matches Some(code) && code != 0);
    reveal(Seq::filter);
    if events.len() > 0 {
        let front = events.drop_last();
        runs_are_counted_by_their_attempts(front, run_id);
        let last = events.last();
        let before = successes_of(front, run_id);
        if good(last) {
            assert(successes_of(events, run_id) == before.push(last));
            assert(before.push(last).drop_last() =~= before);
            assert(failures_of(events, run_id) == failures_of(front, run_id));
        } else if bad(last) {
            assert(successes_of(events, run_id) == before);
            assert(failures_of(events, run_id) == failures_of(front, run_id).push(last));
        } else {
            assert(successes_of(events, run_id) == before);
            assert(failures_of(events, run_id) == failures_of(front, run_id));
        }
    }
}

/// A run that is counted anew has these numbers, and its errors are no fewer than were on
/// record and than its failures.
pub proof fn counted_runs_have_their_numbers(events: Seq<EventModel>, row: RunRow)
    ensures
        run_recounted(events, row) matches Some(after) ==> after.projects_cleaned == successes_of(events, row.id).len()
            && after.bytes_recovered == shrunk(successes_of(events, row.id)) && after.errors_count >= row.errors_count
            && after.errors_count >= failures_of(events, row.id).len() && (after.errors_count == row.errors_count
            || after.errors_count == failures_of(events, row.id).len()) && after.id == row.id && after.started_at
            == row.started_at && after.finished_at == row.finished_at,
{
    runs_are_counted_by_their_attempts(events, row.id);
}

/// A project was last cleaned by the latest of its attempts that cargo ended well, and
/// never if there is none.
pub proof fn last_successes_are_the_latest(events: Seq<EventModel>, path: Seq<char>)
    ensures
        last_success(events, path) is None <==> forall|i: int|
            0 <= i < events.len() ==> (#[trigger] events[i]).path != path || events[i].exit_code != Some(0i32),
        last_success(events, path) matches Some(ts) ==> (exists|i: int|
            0 <= i < events.len() && (#[trigger] events[i]).path == path && events[i].exit_code == Some(0i32) && events[i].ts
                == ts) && forall|i: int|
            0 <= i < events.len() && (#[trigger] events[i]).path == path && events[i].exit_code == Some(0i32) ==> events[i].ts
                <= ts,
    decreases events.len(),
{
    if events.len() > 0 {
        let front = events.drop_last();
        last_successes_are_the_latest(front, path);
        assert(events[events.len() - 1] == events.last());
        assert forall|i: int| 0 <= i < front.len() implies front[i] == #[trigger] events[i] by {}
        let before = last_success(front, path);
        let after = last_success(events, path);
        if before is Some {
            let k = choose|k: int|
                0 <= k < front.len() && (#[trigger] front[k]).path == path && front[k].exit_code == Some(0i32) && front[k].ts
                    == before->0;
            assert(events[k] == front[k]);
        }
        if after is None {
            assert forall|i: int| 0 <= i < events.len() implies (#[trigger] events[i]).path != path || events[i].exit_code
                != Some(0i32) by {
                if i < front.len() {
                    assert(front[i] == events[i]);
                }
            }
        } else {
            assert forall|i: int| 0 <= i < events.len() && (#[trigger] events[i]).path == path && events[i].exit_code == Some(
                0i32,
            ) implies events[i].ts <= after->0 by {
                if i < front.len() {
                    assert(front[i] == events[i]);
                }
            }
        }
    }
}

/// Whether an error says of an attempt that it failed.
pub open spec fn tells_of(error: ErrorModel, event: EventModel) -> bool {
    error.ts == event.ts && error.category == "clean"@ && error.path == Some(event.path) && error.message == failure_message(
        event,
    )
}

/// Whether an error on record tells of an attempt.
pub open spec fn is_told(errors: Seq<ErrorModel>, event: EventModel) -> bool {
    exists|k: int| 0 <= k < errors.len() && tells_of(#[trigger] errors[k], event)
}

/// Whether an error tells of an attempt that cargo did not end well.
pub open spec fn tells_of_one(error: ErrorModel, events: Seq<EventModel>) -> bool {
    exists|i: int|
        0 <= i < events.len() && ((#[trigger] events[i]).exit_code matches Some(code) && code != 0) && tells_of(error, events[i])
}

/// Every attempt that cargo did not end well has an error on record that tells of it, and
/// only such errors are added.
pub proof fn failed_attempts_are_told(errors: Seq<ErrorModel>, next: i64, events: Seq<EventModel>, known: Seq<ErrorModel>)
    requires
        known.is_prefix_of(errors),
        failures_recorded(errors, known, next, events) is Some,
    ensures
        errors.is_prefix_of((failures_recorded(errors, known, next, events)->0).0),
        forall|i: int|
            0 <= i < events.len() && ((#[trigger] events[i]).exit_code matches Some(code) && code != 0) ==> is_told(
                (failures_recorded(errors, known, next, events)->0).0,
                events[i],
            ),
        forall|k: int|
            errors.len() <= k < (failures_recorded(errors, known, next, events)->0).0.len() ==> tells_of_one(
                #[trigger] (failures_recorded(errors, known, next, events)->0).0[k],
                events,
            ),
    decreases events.len(),
{
    let after = (failures_recorded(errors, known, next, events)->0).0;
    if events.len() > 0 {
        let front = events.drop_last();
        failed_attempts_are_told(errors, next, front, known);
        let before = (failures_recorded(errors, known, next, front)->0).0;
        let event = events.last();
        assert(before =~= after.subrange(0, before.len() as int));
        assert(errors =~= after.subrange(0, errors.len() as int));
        assert forall|i: int| 0 <= i < events.len() && ((#[trigger] events[i]).exit_code matches Some(code) && code
            != 0) implies is_told(after, events[i]) by {
            if i < front.len() {
                assert(front[i] == events[i]);
                assert(is_told(before, front[i]));
                let k = choose|k: int| 0 <= k < before.len() && tells_of(#[trigger] before[k], front[i]);
                assert(tells_of(after[k], events[i]));
            } else if crate::store::migrate::failure_recorded(known, event) {
                let p = |row: ErrorModel|
                    row.ts == event.ts && row.category == "clean"@ && row.path == Some(event.path) && row.message
                        == failure_message(event);
                assert(some_row(known, p));
                let k = choose|k: int| 0 <= k < known.len() && p(#[trigger] known[k]);
                assert(errors[k] == known[k]);
                assert(after[k] == errors[k]);
                assert(tells_of(after[k], event));
            } else {
                assert(tells_of(after[before.len() as int], event));
            }
        }
        assert forall|k: int| errors.len() <= k < after.len() implies tells_of_one(#[trigger] after[k], events) by {
            if k < before.len() {
                assert(after[k] == before[k]);
                assert(tells_of_one(before[k], front));
                let i = choose|i: int|
                    0 <= i < front.len() && ((#[trigger] front[i]).exit_code matches Some(code) && code != 0) && tells_of(
                        before[k],
                        front[i],
                    );
                assert(events[i] == front[i]);
            } else {
                let last = events.len() - 1;
                assert(events[last] == event);
                assert(tells_of(after[k], events[last]));
            }
        }
    } else {
        assert(errors =~= after.subrange(0, errors.len() as int));
    }
}

proof fn lemma_trusted(known: Map<Seq<u8>, Resolved>, primaries: Seq<Seq<char>>, text: Seq<char>)
    requires
        trusted_primaries(known, primaries) is Ok,
    ensures
        trusted_primaries(known, primaries)->Ok_0.contains(text) <==> primaries.contains(text) && (physical_path(
            known,
            encode_utf8(text),
        ) matches Finding::Known(Some(physical)) && valid_utf8(physical) && decode_utf8(physical) == text),
    decreases primaries.len(),
{
    if primaries.len() > 0 {
        let front = primaries.drop_last();
        lemma_trusted(known, front, text);
        let before = trusted_primaries(known, front)->Ok_0;
        let all = trusted_primaries(known, primaries)->Ok_0;
        if front.contains(text) {
            let k = choose|k: int| 0 <= k < front.len() && front[k] == text;
            assert(primaries[k] == text);
        }
        if before.contains(text) {
            let k = choose|k: int| 0 <= k < before.len() && before[k] == text;
            assert(all[k] == text);
        }
        if primaries.last() == text {
            assert(primaries[primaries.len() - 1] == text);
            if all.len() > before.len() {
                assert(all[before.len() as int] == text);
            }
        }
        if primaries.contains(text) && primaries.last() != text {
            let k = choose|k: int| 0 <= k < primaries.len() && primaries[k] == text;
            assert(front[k] == text);
        }
        if all.contains(text) && primaries.last() != text {
            let k = choose|k: int| 0 <= k < all.len() && all[k] == text;
            assert(before[k] == text);
        }
    }
}

/// A failure, or a worktree, of a repository of which it was not known where it really
/// lies is attributed to it exactly if the repository really lies where it is on record;
/// what was attributed stays so.
pub proof fn repositories_are_attributed_where_they_lie(store: StoreModel, known: Map<Seq<u8>, Resolved>, i: int)
    ensures
        failures_attributed(store, known) matches Ok(after) ==> (0 <= i < store.worktree_discovery_failures.len() ==> {
            let row = store.worktree_discovery_failures[i];
            let lies = physical_path(known, encode_utf8(row.primary)) matches Finding::Known(Some(physical)) && valid_utf8(
                physical,
            ) && decode_utf8(physical) == row.primary;
            after.worktree_discovery_failures[i] == (FailureModel {
                canonical_primary: if row.canonical_primary is None && lies {
                    Some(row.primary)
                } else {
                    row.canonical_primary
                },
                ..row
            })
        }),
        links_attributed(store, known) matches Ok(after) ==> (0 <= i < store.linked_worktrees.len() ==> {
            let row = store.linked_worktrees[i];
            let lies = physical_path(known, encode_utf8(row.primary)) matches Finding::Known(Some(physical)) && valid_utf8(
                physical,
            ) && decode_utf8(physical) == row.primary;
            after.linked_worktrees[i] == (LinkedModel {
                canonical_primary: if row.canonical_primary is None && lies {
                    Some(row.primary)
                } else {
                    row.canonical_primary
                },
                ..row
            })
        }),
{
    let of_failure = |row: FailureModel|
        if row.canonical_primary is None {
            Some(row.primary)
        } else {
            None
        };
    let of_link = |row: LinkedModel|
        if row.canonical_primary is None {
            Some(row.primary)
        } else {
            None
        };
    let failed = picked(store.worktree_discovery_failures, of_failure);
    let linked = picked(store.linked_worktrees, of_link);
    picked_are_of_rows(store.worktree_discovery_failures, of_failure);
    picked_are_of_rows(store.linked_worktrees, of_link);
    if failures_attributed(store, known) is Ok && 0 <= i < store.worktree_discovery_failures.len() {
        let row = store.worktree_discovery_failures[i];
        text_set_holds(failed, row.primary);
        lemma_trusted(known, text_set(failed), row.primary);
        if row.canonical_primary is None {
            assert(of_failure(row) is Some);
            assert(failed.contains(row.primary));
        }
    }
    if links_attributed(store, known) is Ok && 0 <= i < store.linked_worktrees.len() {
        let row = store.linked_worktrees[i];
        text_set_holds(linked, row.primary);
        lemma_trusted(known, text_set(linked), row.primary);
        if row.canonical_primary is None {
            assert(of_link(row) is Some);
            assert(linked.contains(row.primary));
        }
    }
}

/// An error of a scan is filed under the repository that could not be asked exactly if a
/// failure on record says the same of the same place at the same time.
pub proof fn errors_are_filed_by_their_failure(store: StoreModel, i: int)
    requires
        0 <= i < store.errors.len(),
    ensures
        ({
            let error = store.errors[i];
            let after = errors_categorized(store).errors[i];
            let failures = store.worktree_discovery_failures;
            let same = error.category == "scan"@ && error.path is Some && exists|k: int|
                0 <= k < failures.len() && ((#[trigger] failures[k]).primary == error.path->0 || failures[k].canonical_primary
                    == error.path) && failures[k].failed_at == error.ts && failures[k].message == error.message;
            after == (ErrorModel {
                category: if same {
                    "worktree_discovery"@
                } else {
                    error.category
                },
                ..error
            })
        }),
{
    let error = store.errors[i];
    let failures = store.worktree_discovery_failures;
    if let Some(path) = error.path {
        let p = |row: FailureModel|
            (row.primary == path || row.canonical_primary == Some(path)) && row.failed_at == error.ts && row.message
                == error.message;
        if some_row(failures, p) {
            let k = choose|k: int| 0 <= k < failures.len() && p(#[trigger] failures[k]);
            assert(failures[k].failed_at == error.ts);
        }
        if exists|k: int|
            0 <= k < failures.len() && ((#[trigger] failures[k]).primary == path || failures[k].canonical_primary == Some(path))
                && failures[k].failed_at == error.ts && failures[k].message == error.message {
            let k = choose|k: int|
                0 <= k < failures.len() && ((#[trigger] failures[k]).primary == path || failures[k].canonical_primary == Some(
                    path,
                )) && failures[k].failed_at == error.ts && failures[k].message == error.message;
            assert(p(failures[k]));
        }
    }
}

/// A store that was brought up to date has the current version, and its runs and projects
/// are counted anew by their attempts if it was old enough.
pub proof fn stores_are_brought_up_to_date(store: StoreModel, columns: SchemaColumns, known: Map<Seq<u8>, Resolved>, now: int)
    requires
        migrated(store, columns, known, now).fault is None,
    ensures
        store.schema_version < 13 ==> migrated(store, columns, known, now).store.schema_version == 13,
        store.schema_version >= 13 ==> migrated(store, columns, known, now).store.schema_version == store.schema_version,
        store.schema_version < 8 ==> runs_recounted(store.clean_events, store.runs) == Some(
            migrated(store, columns, known, now).store.runs,
        ),
        store.schema_version < 8 ==> forall|i: int|
            0 <= i < store.projects.len() ==> (#[trigger] migrated(store, columns, known, now).store.projects[i]).last_cleaned_at
                == last_success(store.clean_events, store.projects[i].path),
        store.schema_version >= 8 ==> migrated(store, columns, known, now).store.runs == store.runs && migrated(
            store,
            columns,
            known,
            now,
        ).store.projects == store.projects,
{
}

/// Each run of a store that is counted anew is counted by its own attempts.
pub proof fn every_run_is_counted_anew(events: Seq<EventModel>, runs: Seq<RunRow>, i: int)
    requires
        runs_recounted(events, runs) is Some,
        0 <= i < runs.len(),
    ensures
        runs_recounted(events, runs)->0.len() == runs.len(),
        run_recounted(events, runs[i]) == Some(runs_recounted(events, runs)->0[i]),
    decreases runs.len(),
{
    let front = runs.drop_last();
    let before = runs_recounted(events, front)->0;
    if i < front.len() {
        every_run_is_counted_anew(events, front, i);
        assert(front[i] == runs[i]);
    } else {
        if front.len() > 0 {
            every_run_is_counted_anew(events, front, 0);
        }
        assert(before.len() == front.len());
    }
}

} // verus!
