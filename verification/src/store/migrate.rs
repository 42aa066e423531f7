//! Bringing a store with an older schema up to date: step by step, each step as a
//! whole. What was recorded stays; what older versions were allowed to act on is
//! not acted on any more.

use crate::path::PathBuf;
use crate::policy::scope::sort_texts;
use crate::resolve::{Resolutions, Resolved};
use crate::store::plans::pruned;
use crate::store::rows::{
    copy_text, ErrorModel, ErrorRow, EventModel, EventRow, FailureModel, FailureRow, GenerationModel, GenerationRow,
    LinkedModel, LinkedRow, ObservationModel, ObservationRow, ProjectModel, ProjectRow, RunRow,
};
use crate::store::table::{any_row, pick_rows, picked, push_row, rows_view, some_row, update_rows, Row};
use crate::store::worktrees::{has_text, physical_string, physical_text, text_set};
use crate::store::{epoch_of, Store, StoreError, StoreFault, StoreModel};
use crate::text::{signed_decimal, signed_decimal_text, text_equal, texts};
use crate::time::SystemTime;
use crate::store::keys::{consistent, migrations_keep_consistency};
use vstd::prelude::*;
use vstd::utf8::*;

verus! {

/// Which of the columns that later versions added are there.
#[derive(Debug, Clone, Copy, PartialEq, Eq)]
pub struct SchemaColumns {
    /// Whether generations say if they are valid.
    pub generation_authority: bool,
    /// Whether all identities name a mount.
    pub mount_identity: bool,
}

/// How far a migration has come, and why it stopped.
pub struct Migration {
    pub store: StoreModel,
    pub fault: Option<StoreFault>,
}

/// One more step of a migration: it is taken only where none has failed.
pub open spec fn step(
    migration: Migration,
    wanted: bool,
    change: spec_fn(StoreModel) -> Result<StoreModel, StoreFault>,
) -> Migration {
    if migration.fault is Some || !wanted {
        migration
    } else {
        match change(migration.store) {
            Ok(store) => Migration { store, fault: None },
            Err(fault) => Migration { store: migration.store, fault: Some(fault) },
        }
    }
}

/// The store with a version recorded.
pub open spec fn at_version(store: StoreModel, current: i64, version: i64) -> StoreModel {
    StoreModel {
        schema_version: if current < version {
            version
        } else {
            store.schema_version
        },
        ..store
    }
}

// --------------------------------------------------------- physical primaries

/// The given primaries that are their own physical path.
pub open spec fn trusted_primaries(known: Map<Seq<u8>, Resolved>, primaries: Seq<Seq<char>>) -> Result<
    Seq<Seq<char>>,
    StoreFault,
>
    decreases primaries.len(),
{
    if primaries.len() == 0 {
        Ok(Seq::empty())
    } else {
        match trusted_primaries(known, primaries.drop_last()) {
            Err(fault) => Err(fault),
            Ok(before) => match physical_text(known, encode_utf8(primaries.last())) {
                Err(fault) => Err(fault),
                Ok(physical) => if physical == Some(primaries.last()) {
                    Ok(before.push(primaries.last()))
                } else {
                    Ok(before)
                },
            },
        }
    }
}

/// The store in which failures of primaries that are their own physical path say
/// so.
pub open spec fn failures_attributed(store: StoreModel, known: Map<Seq<u8>, Resolved>) -> Result<StoreModel, StoreFault> {
    let primaries = text_set(
        picked(
            store.worktree_discovery_failures,
            |row: FailureModel|
                if row.canonical_primary is None {
                    Some(row.primary)
                } else {
                    None
                },
        ),
    );
    match trusted_primaries(known, primaries) {
        Err(fault) => Err(fault),
        Ok(trusted) => Ok(
            StoreModel {
                worktree_discovery_failures: store.worktree_discovery_failures.map_values(
                    |row: FailureModel|
                        if row.canonical_primary is None && trusted.contains(row.primary) {
                            FailureModel { canonical_primary: Some(row.primary), ..row }
                        } else {
                            row
                        },
                ),
                ..store
            },
        ),
    }
}

/// The store in which associations of primaries that are their own physical path
/// say so.
pub open spec fn links_attributed(store: StoreModel, known: Map<Seq<u8>, Resolved>) -> Result<StoreModel, StoreFault> {
    let primaries = text_set(
        picked(
            store.linked_worktrees,
            |row: LinkedModel|
                if row.canonical_primary is None {
                    Some(row.primary)
                } else {
                    None
                },
        ),
    );
    match trusted_primaries(known, primaries) {
        Err(fault) => Err(fault),
        Ok(trusted) => Ok(
            StoreModel {
                linked_worktrees: store.linked_worktrees.map_values(
                    |row: LinkedModel|
                        if row.canonical_primary is None && trusted.contains(row.primary) {
                            LinkedModel { canonical_primary: Some(row.primary), ..row }
                        } else {
                            row
                        },
                ),
                ..store
            },
        ),
    }
}

proof fn lemma_trust_fails_early(known: Map<Seq<u8>, Resolved>, primaries: Seq<Seq<char>>, n: int)
    requires
        0 <= n <= primaries.len(),
        trusted_primaries(known, primaries.take(n)) is Err,
    ensures
        trusted_primaries(known, primaries) == trusted_primaries(known, primaries.take(n)),
    decreases primaries.len() - n,
{
    if n < primaries.len() {
        assert(primaries.take(n + 1).drop_last() =~= primaries.take(n));
        lemma_trust_fails_early(known, primaries, n + 1);
    } else {
        assert(primaries.take(n) =~= primaries);
    }
}

fn find_trusted(known: &Resolutions, primaries: &Vec<String>) -> (result: Result<Vec<String>, StoreError>)
    ensures
        match trusted_primaries(known@, texts(primaries@)) {
            Ok(trusted) => result matches Ok(list) && texts(list@) == trusted,
            Err(fault) => result matches Err(error) && error@ == fault,
        },
{
    let ghost all = texts(primaries@);
    let mut list: Vec<String> = Vec::new();
    let mut i: usize = 0;
    assert(all.take(0) =~= Seq::empty());
    assert(texts(list@) =~= Seq::empty());
    while i < primaries.len()
        invariant
            i <= primaries.len(),
            all == texts(primaries@),
            trusted_primaries(known@, all.take(i as int)) == Ok::<Seq<Seq<char>>, StoreFault>(texts(list@)),
        decreases primaries.len() - i,
    {
        let primary = primaries[i].as_str();
        proof {
            assert(all.take(i + 1).drop_last() =~= all.take(i as int));
            assert(all.take(i + 1).last() == primary@);
        }
        let path = PathBuf::new(primary);
        match physical_string(known, &path) {
            Err(error) => {
                proof {
                    lemma_trust_fails_early(known@, all, i + 1);
                }
                return Err(error);
            },
            Ok(physical) => {
                if crate::store::rows::text_is(&physical, primary) {
                    let ghost before = texts(list@);
                    list.push(primary.to_owned());
                    assert(texts(list@) =~= before.push(primary@));
                }
            },
        }
        i += 1;
    }
    assert(all.take(i as int) =~= all);
    Ok(list)
}

fn attribute_failures(store: &mut Store, known: &Resolutions) -> (result: Result<(), StoreError>)
    ensures
        match failures_attributed(old(store)@, known@) {
            Ok(after) => result is Ok && final(store)@ == after,
            Err(fault) => result matches Err(error) && error@ == fault && final(store)@ == old(store)@,
        },
{
    let pick = |row: &FailureRow| -> (found: Option<String>)
        ensures
            match found {
                Some(value) => row@.canonical_primary is None && value@ == row@.primary,
                None => row@.canonical_primary is Some,
            },
    {
        if row.canonical_primary.is_none() {
            Some(row.primary.clone())
        } else {
            None
        }
    };
    let ghost g = |row: FailureModel|
        if row.canonical_primary is None {
            Some(row.primary)
        } else {
            None::<Seq<char>>
        };
    let mut primaries: Vec<String> = Vec::new();
    pick_rows(&store.worktree_discovery_failures, pick, &mut primaries, Ghost(g));
    proof {
        assert(rows_view(primaries@) =~= texts(primaries@));
        assert(texts(primaries@) =~= picked(store@.worktree_discovery_failures, g));
    }
    sort_texts(&mut primaries);
    let trusted = match find_trusted(known, &primaries) {
        Ok(list) => list,
        Err(error) => return Err(error),
    };
    let change = |row: &FailureRow| -> (changed: Option<FailureRow>)
        ensures
            match changed {
                Some(new) => row@.canonical_primary is None && texts(trusted@).contains(row@.primary) && new@ == (
                FailureModel { canonical_primary: Some(row@.primary), ..row@ }),
                None => !(row@.canonical_primary is None && texts(trusted@).contains(row@.primary)),
            },
    {
        if row.canonical_primary.is_none() && has_text(&trusted, row.primary.as_str()) {
            Some(
                FailureRow {
                    primary: row.primary.clone(),
                    failed_at: row.failed_at,
                    message: row.message.clone(),
                    canonical_primary: Some(row.primary.clone()),
                },
            )
        } else {
            None
        }
    };
    update_rows(
        &mut store.worktree_discovery_failures,
        change,
        Ghost(
            |row: FailureModel|
                if row.canonical_primary is None && texts(trusted@).contains(row.primary) {
                    FailureModel { canonical_primary: Some(row.primary), ..row }
                } else {
                    row
                },
        ),
    );
    Ok(())
}

fn attribute_links(store: &mut Store, known: &Resolutions) -> (result: Result<(), StoreError>)
    ensures
        match links_attributed(old(store)@, known@) {
            Ok(after) => result is Ok && final(store)@ == after,
            Err(fault) => result matches Err(error) && error@ == fault && final(store)@ == old(store)@,
        },
{
    let pick = |row: &LinkedRow| -> (found: Option<String>)
        ensures
            match found {
                Some(value) => row@.canonical_primary is None && value@ == row@.primary,
                None => row@.canonical_primary is Some,
            },
    {
        if row.canonical_primary.is_none() {
            Some(row.primary.clone())
        } else {
            None
        }
    };
    let ghost g = |row: LinkedModel|
        if row.canonical_primary is None {
            Some(row.primary)
        } else {
            None::<Seq<char>>
        };
    let mut primaries: Vec<String> = Vec::new();
    pick_rows(&store.linked_worktrees, pick, &mut primaries, Ghost(g));
    proof {
        assert(rows_view(primaries@) =~= texts(primaries@));
        assert(texts(primaries@) =~= picked(store@.linked_worktrees, g));
    }
    sort_texts(&mut primaries);
    let trusted = match find_trusted(known, &primaries) {
        Ok(list) => list,
        Err(error) => return Err(error),
    };
    let change = |row: &LinkedRow| -> (changed: Option<LinkedRow>)
        ensures
            match changed {
                Some(new) => row@.canonical_primary is None && texts(trusted@).contains(row@.primary) && new@ == (
                LinkedModel { canonical_primary: Some(row@.primary), ..row@ }),
                None => !(row@.canonical_primary is None && texts(trusted@).contains(row@.primary)),
            },
    {
        if row.canonical_primary.is_none() && has_text(&trusted, row.primary.as_str()) {
            Some(
                LinkedRow {
                    primary: row.primary.clone(),
                    linked: row.linked.clone(),
                    canonical_primary: Some(row.primary.clone()),
                },
            )
        } else {
            None
        }
    };
    update_rows(
        &mut store.linked_worktrees,
        change,
        Ghost(
            |row: LinkedModel|
                if row.canonical_primary is None && texts(trusted@).contains(row.primary) {
                    LinkedModel { canonical_primary: Some(row.primary), ..row }
                } else {
                    row
                },
        ),
    );
    Ok(())
}

// ---------------------------------------------------------------- categories

/// Whether an error of a scan is the record of a failure to ask a checkout for its
/// worktrees.
pub open spec fn records_failure(failures: Seq<FailureModel>, error: ErrorModel) -> bool {
    error.category == "scan"@ && (error.path matches Some(path) && some_row(
        failures,
        |row: FailureModel|
            (row.primary == path || row.canonical_primary == Some(path)) && row.failed_at == error.ts && row.message
                == error.message,
    ))
}

/// The store in which such errors have a category of their own.
pub open spec fn errors_categorized(store: StoreModel) -> StoreModel {
    StoreModel {
        errors: store.errors.map_values(
            |row: ErrorModel|
                if records_failure(store.worktree_discovery_failures, row) {
                    ErrorModel { category: "worktree_discovery"@, ..row }
                } else {
                    row
                },
        ),
        ..store
    }
}

fn is_failure_record(failures: &Vec<FailureRow>, error: &ErrorRow) -> (is: bool)
    ensures
        is == records_failure(rows_view(failures@), error@),
{
    if !text_equal(error.category.as_str(), "scan") {
        return false;
    }
    match &error.path {
        None => false,
        Some(path) => {
            let own = |row: &FailureRow| -> (is: bool)
                ensures
                    is == ((row@.primary == path@ || row@.canonical_primary == Some(path@)) && row@.failed_at
                        == error@.ts && row@.message == error@.message),
            {
                (row.primary == *path || crate::store::rows::text_is(&row.canonical_primary, path.as_str()))
                    && row.failed_at == error.ts && row.message == error.message
            };
            any_row(
                failures,
                own,
                Ghost(
                    |row: FailureModel|
                        (row.primary == path@ || row.canonical_primary == Some(path@)) && row.failed_at == error@.ts
                            && row.message == error@.message,
                ),
            )
        },
    }
}

fn categorize_errors(store: &mut Store)
    ensures
        final(store)@ == errors_categorized(old(store)@),
{
    let failures = &store.worktree_discovery_failures;
    let change = |row: &ErrorRow| -> (changed: Option<ErrorRow>)
        ensures
            match changed {
                Some(new) => records_failure(rows_view(failures@), row@) && new@ == (ErrorModel {
                    category: "worktree_discovery"@,
                    ..row@
                }),
                None => !records_failure(rows_view(failures@), row@),
            },
    {
        if is_failure_record(failures, row) {
            Some(
                ErrorRow {
                    id: row.id,
                    ts: row.ts,
                    category: "worktree_discovery".to_owned(),
                    path: copy_text(&row.path),
                    message: row.message.clone(),
                },
            )
        } else {
            None
        }
    };
    update_rows(
        &mut store.errors,
        change,
        Ghost(
            |row: ErrorModel|
                if records_failure(rows_view(failures@), row) {
                    ErrorModel { category: "worktree_discovery"@, ..row }
                } else {
                    row
                },
        ),
    );
}

// ------------------------------------------------------------------- history

/// Whether an attempt ended with the exit code zero.
pub open spec fn exited_zero(row: EventModel) -> bool {
    row.exit_code == Some(0i32)
}

/// Whether an attempt ended with another exit code.
pub open spec fn exited_nonzero(row: EventModel) -> bool {
    row.exit_code matches Some(code) && code != 0
}

/// What the attempts of a run add up to: those that succeeded, the bytes they
/// recovered, and those that failed. `None` where a number is too large.
pub struct RunTotals {
    pub cleaned: i64,
    pub bytes: i64,
    pub failed: i64,
}

/// The totals with one more attempt.
pub open spec fn counted(totals: RunTotals, row: EventModel) -> Option<RunTotals> {
    let recovered = if row.bytes_before > row.bytes_after {
        row.bytes_before - row.bytes_after
    } else {
        0
    };
    if exited_zero(row) {
        if totals.cleaned == i64::MAX || recovered > i64::MAX || totals.bytes + recovered > i64::MAX {
            None
        } else {
            Some(
                RunTotals {
                    cleaned: (totals.cleaned + 1) as i64,
                    bytes: (totals.bytes + recovered) as i64,
                    ..totals
                },
            )
        }
    } else if exited_nonzero(row) {
        if totals.failed == i64::MAX {
            None
        } else {
            Some(RunTotals { failed: (totals.failed + 1) as i64, ..totals })
        }
    } else {
        Some(totals)
    }
}

/// What the attempts of a run add up to.
pub open spec fn run_totals(events: Seq<EventModel>, run_id: i64) -> Option<RunTotals>
    decreases events.len(),
{
    if events.len() == 0 {
        Some(RunTotals { cleaned: 0, bytes: 0, failed: 0 })
    } else {
        match run_totals(events.drop_last(), run_id) {
            None => None,
            Some(totals) => if events.last().run_id == run_id {
                counted(totals, events.last())
            } else {
                Some(totals)
            },
        }
    }
}

/// A run that says what its attempts add up to.
pub open spec fn run_recounted(events: Seq<EventModel>, row: RunRow) -> Option<RunRow> {
    match run_totals(events, row.id) {
        None => None,
        Some(totals) => Some(
            RunRow {
                projects_cleaned: totals.cleaned,
                bytes_recovered: totals.bytes,
                errors_count: if row.errors_count >= totals.failed {
                    row.errors_count
                } else {
                    totals.failed
                },
                ..row
            },
        ),
    }
}

/// Runs that say what their attempts add up to.
pub open spec fn runs_recounted(events: Seq<EventModel>, runs: Seq<RunRow>) -> Option<Seq<RunRow>>
    decreases runs.len(),
{
    if runs.len() == 0 {
        Some(Seq::empty())
    } else {
        match runs_recounted(events, runs.drop_last()) {
            None => None,
            Some(before) => match run_recounted(events, runs.last()) {
                None => None,
                Some(run) => Some(before.push(run)),
            },
        }
    }
}

/// When a project was last cleaned with success.
pub open spec fn last_success(events: Seq<EventModel>, path: Seq<char>) -> Option<i64>
    decreases events.len(),
{
    if events.len() == 0 {
        None
    } else {
        let before = last_success(events.drop_last(), path);
        let row = events.last();
        if row.path == path && exited_zero(row) {
            match before {
                Some(ts) => Some(
                    if ts >= row.ts {
                        ts
                    } else {
                        row.ts
                    },
                ),
                None => Some(row.ts),
            }
        } else {
            before
        }
    }
}

/// What is recorded of an attempt that failed.
pub open spec fn failure_message(row: EventModel) -> Seq<char> {
    let exited = "cargo clean exited "@ + signed_decimal(row.exit_code->0 as int);
    if row.stderr_excerpt.len() == 0 {
        exited
    } else {
        exited + ": "@ + row.stderr_excerpt
    }
}

/// Whether the error of a failed attempt is recorded.
pub open spec fn failure_recorded(errors: Seq<ErrorModel>, event: EventModel) -> bool {
    some_row(
        errors,
        |row: ErrorModel|
            row.ts == event.ts && row.category == "clean"@ && row.path == Some(event.path) && row.message
                == failure_message(event),
    )
}

/// The errors with one for each failed attempt that has none among the `known`
/// ones, numbered from `next`; `None` where the numbers run out.
pub open spec fn failures_recorded(
    errors: Seq<ErrorModel>,
    known: Seq<ErrorModel>,
    next: i64,
    events: Seq<EventModel>,
) -> Option<(Seq<ErrorModel>, i64)>
    decreases events.len(),
{
    if events.len() == 0 {
        Some((errors, next))
    } else {
        match failures_recorded(errors, known, next, events.drop_last()) {
            None => None,
            Some((before, id)) => {
                let event = events.last();
                if exited_nonzero(event) && !failure_recorded(known, event) {
                    if id == i64::MAX {
                        None
                    } else {
                        Some(
                            (
                                before.push(
                                    ErrorModel {
                                        id,
                                        ts: event.ts,
                                        category: "clean"@,
                                        path: Some(event.path),
                                        message: failure_message(event),
                                    },
                                ),
                                (id + 1) as i64,
                            ),
                        )
                    }
                } else {
                    Some((before, id))
                }
            },
        }
    }
}

/// The store whose runs, projects and errors agree with the attempts.
pub open spec fn history_recounted(store: StoreModel) -> Result<StoreModel, StoreFault> {
    match runs_recounted(store.clean_events, store.runs) {
        None => Err(StoreFault::OutOfRange),
        Some(runs) => match failures_recorded(store.errors, store.errors, store.next_error_id, store.clean_events) {
            None => Err(StoreFault::OutOfRange),
            Some((errors, next_error_id)) => Ok(
                StoreModel {
                    runs,
                    projects: store.projects.map_values(
                        |row: ProjectModel|
                            ProjectModel { last_cleaned_at: last_success(store.clean_events, row.path), ..row },
                    ),
                    errors,
                    next_error_id,
                    ..store
                },
            ),
        },
    }
}

proof fn lemma_totals_fail_early(events: Seq<EventModel>, run_id: i64, n: int)
    requires
        0 <= n <= events.len(),
        run_totals(events.take(n), run_id) is None,
    ensures
        run_totals(events, run_id) is None,
    decreases events.len() - n,
{
    if n < events.len() {
        assert(events.take(n + 1).drop_last() =~= events.take(n));
        lemma_totals_fail_early(events, run_id, n + 1);
    } else {
        assert(events.take(n) =~= events);
    }
}

proof fn lemma_totals_nonnegative(events: Seq<EventModel>, run_id: i64)
    ensures
        run_totals(events, run_id) matches Some(totals) ==> totals.cleaned >= 0 && totals.bytes >= 0 && totals.failed
            >= 0,
    decreases events.len(),
{
    if events.len() > 0 {
        lemma_totals_nonnegative(events.drop_last(), run_id);
    }
}

fn total_run(events: &Vec<EventRow>, run_id: i64) -> (result: Option<(i64, i64, i64)>)
    ensures
        match run_totals(rows_view(events@), run_id) {
            Some(totals) => result == Some((totals.cleaned, totals.bytes, totals.failed)),
            None => result is None,
        },
{
    let ghost all = rows_view(events@);
    let mut cleaned: i64 = 0;
    let mut bytes: i64 = 0;
    let mut failed: i64 = 0;
    let mut i: usize = 0;
    assert(all.take(0) =~= Seq::empty());
    while i < events.len()
        invariant
            i <= events.len(),
            all == rows_view(events@),
            run_totals(all.take(i as int), run_id) == Some(RunTotals { cleaned, bytes, failed }),
        decreases events.len() - i,
    {
        let row = &events[i];
        proof {
            assert(all.take(i + 1).drop_last() =~= all.take(i as int));
            assert(all.take(i + 1).last() == row@);
            lemma_totals_nonnegative(all.take(i as int), run_id);
        }
        if row.run_id == run_id {
            match row.exit_code {
                Some(code) => {
                    if code == 0 {
                        let recovered: Option<i64> = if row.bytes_before > row.bytes_after {
                            row.bytes_before.checked_sub(row.bytes_after)
                        } else {
                            Some(0)
                        };
                        let total: Option<i64> = match recovered {
                            Some(r) => bytes.checked_add(r),
                            None => None,
                        };
                        match (cleaned.checked_add(1), total) {
                            (Some(c), Some(b)) => {
                                cleaned = c;
                                bytes = b;
                            },
                            _ => {
                                proof {
                                    lemma_totals_fail_early(all, run_id, i + 1);
                                }
                                return None;
                            },
                        }
                    } else {
                        match failed.checked_add(1) {
                            Some(f) => {
                                failed = f;
                            },
                            None => {
                                proof {
                                    lemma_totals_fail_early(all, run_id, i + 1);
                                }
                                return None;
                            },
                        }
                    }
                },
                None => {},
            }
        }
        i += 1;
    }
    assert(all.take(i as int) =~= all);
    Some((cleaned, bytes, failed))
}

proof fn lemma_runs_fail_early(events: Seq<EventModel>, runs: Seq<RunRow>, n: int)
    requires
        0 <= n <= runs.len(),
        runs_recounted(events, runs.take(n)) is None,
    ensures
        runs_recounted(events, runs) is None,
    decreases runs.len() - n,
{
    if n < runs.len() {
        assert(runs.take(n + 1).drop_last() =~= runs.take(n));
        lemma_runs_fail_early(events, runs, n + 1);
    } else {
        assert(runs.take(n) =~= runs);
    }
}

fn recount_runs(events: &Vec<EventRow>, runs: &Vec<RunRow>) -> (result: Option<Vec<RunRow>>)
    ensures
        match runs_recounted(rows_view(events@), rows_view(runs@)) {
            Some(rows) => result matches Some(list) && rows_view(list@) == rows,
            None => result is None,
        },
{
    let ghost all = rows_view(runs@);
    let mut list: Vec<RunRow> = Vec::new();
    let mut i: usize = 0;
    assert(all.take(0) =~= Seq::empty());
    assert(rows_view(list@) =~= Seq::empty());
    while i < runs.len()
        invariant
            i <= runs.len(),
            all == rows_view(runs@),
            runs_recounted(rows_view(events@), all.take(i as int)) == Some(rows_view(list@)),
        decreases runs.len() - i,
    {
        let row = runs[i];
        proof {
            assert(all.take(i + 1).drop_last() =~= all.take(i as int));
            assert(all.take(i + 1).last() == row);
        }
        match total_run(events, row.id) {
            Some((cleaned, bytes, failed)) => {
                push_row(
                    &mut list,
                    RunRow {
                        id: row.id,
                        started_at: row.started_at,
                        finished_at: row.finished_at,
                        projects_cleaned: cleaned,
                        bytes_recovered: bytes,
                        errors_count: if row.errors_count >= failed {
                            row.errors_count
                        } else {
                            failed
                        },
                    },
                );
            },
            None => {
                proof {
                    lemma_runs_fail_early(rows_view(events@), all, i + 1);
                }
                return None;
            },
        }
        i += 1;
    }
    assert(all.take(i as int) =~= all);
    Some(list)
}

fn find_last_success(events: &Vec<EventRow>, path: &str) -> (found: Option<i64>)
    ensures
        found == last_success(rows_view(events@), path@),
{
    let ghost all = rows_view(events@);
    let mut found: Option<i64> = None;
    let mut i: usize = 0;
    assert(all.take(0) =~= Seq::empty());
    while i < events.len()
        invariant
            i <= events.len(),
            all == rows_view(events@),
            found == last_success(all.take(i as int), path@),
        decreases events.len() - i,
    {
        let row = &events[i];
        proof {
            assert(all.take(i + 1).drop_last() =~= all.take(i as int));
            assert(all.take(i + 1).last() == row@);
        }
        if text_equal(row.path.as_str(), path) && row.exit_code == Some(0i32) {
            found = match found {
                Some(ts) => Some(
                    if ts >= row.ts {
                        ts
                    } else {
                        row.ts
                    },
                ),
                None => Some(row.ts),
            };
        }
        i += 1;
    }
    assert(all.take(i as int) =~= all);
    found
}

/// What is recorded of an attempt that ended with an exit code other than zero.
pub(crate) fn exit_message(code: i32, stderr_excerpt: &str) -> (text: String)
    ensures
        text@ == (if stderr_excerpt@.len() == 0 {
            "cargo clean exited "@ + signed_decimal(code as int)
        } else {
            "cargo clean exited "@ + signed_decimal(code as int) + ": "@ + stderr_excerpt@
        }),
{
    let mut text = "cargo clean exited ".to_owned();
    let number = signed_decimal_text(code as i128);
    text.append(number.as_str());
    proof {
        reveal_strlit("");
        assert(stderr_excerpt@.len() == 0 ==> stderr_excerpt@ =~= ""@);
    }
    if !text_equal(stderr_excerpt, "") {
        text.append(": ");
        text.append(stderr_excerpt);
    }
    text
}

proof fn lemma_recording_fails_early(
    errors: Seq<ErrorModel>,
    known: Seq<ErrorModel>,
    next: i64,
    events: Seq<EventModel>,
    n: int,
)
    requires
        0 <= n <= events.len(),
        failures_recorded(errors, known, next, events.take(n)) is None,
    ensures
        failures_recorded(errors, known, next, events) is None,
    decreases events.len() - n,
{
    if n < events.len() {
        assert(events.take(n + 1).drop_last() =~= events.take(n));
        lemma_recording_fails_early(errors, known, next, events, n + 1);
    } else {
        assert(events.take(n) =~= events);
    }
}

fn record_failures(errors: &Vec<ErrorRow>, next: i64, events: &Vec<EventRow>) -> (result: Option<(Vec<ErrorRow>, i64)>)
    ensures
        match failures_recorded(rows_view(errors@), rows_view(errors@), next, rows_view(events@)) {
            Some((rows, id)) => result matches Some((list, n)) && rows_view(list@) == rows && n == id,
            None => result is None,
        },
{
    let ghost all = rows_view(events@);
    let ghost start = rows_view(errors@);
    let mut list = crate::store::table::copy_rows(errors);
    let mut id: i64 = next;
    let mut i: usize = 0;
    assert(all.take(0) =~= Seq::empty());
    while i < events.len()
        invariant
            i <= events.len(),
            all == rows_view(events@),
            start == rows_view(errors@),
            failures_recorded(start, start, next, all.take(i as int)) == Some((rows_view(list@), id)),
        decreases events.len() - i,
    {
        let row = &events[i];
        proof {
            assert(all.take(i + 1).drop_last() =~= all.take(i as int));
            assert(all.take(i + 1).last() == row@);
        }
        match row.exit_code {
            Some(code) => {
                if code != 0 {
                    let message = exit_message(code, row.stderr_excerpt.as_str());
                    assert(message@ == failure_message(row@));
                    let same = |error: &ErrorRow| -> (is: bool)
                        ensures
                            is == (error@.ts == row@.ts && error@.category == "clean"@ && error@.path == Some(row@.path)
                                && error@.message == message@),
                    {
                        error.ts == row.ts && text_equal(error.category.as_str(), "clean")
                            && crate::store::rows::text_is(&error.path, row.path.as_str()) && error.message
                            == message
                    };
                    if !any_row(
                        errors,
                        same,
                        Ghost(
                            |error: ErrorModel|
                                error.ts == row@.ts && error.category == "clean"@ && error.path == Some(row@.path)
                                    && error.message == failure_message(row@),
                        ),
                    ) {
                        if id == 9_223_372_036_854_775_807 {
                            proof {
                                lemma_recording_fails_early(start, start, next, all, i + 1);
                            }
                            return None;
                        }
                        push_row(
                            &mut list,
                            ErrorRow {
                                id,
                                ts: row.ts,
                                category: "clean".to_owned(),
                                path: Some(row.path.clone()),
                                message,
                            },
                        );
                        id = id + 1;
                    }
                }
            },
            None => {},
        }
        i += 1;
    }
    assert(all.take(i as int) =~= all);
    Some((list, id))
}

fn recount_history(store: &mut Store) -> (result: Result<(), StoreError>)
    ensures
        match history_recounted(old(store)@) {
            Ok(after) => result is Ok && final(store)@ == after,
            Err(fault) => result matches Err(error) && error@ == fault && final(store)@ == old(store)@,
        },
{
    let runs = match recount_runs(&store.clean_events, &store.runs) {
        Some(runs) => runs,
        None => return Err(StoreError::OutOfRange),
    };
    let (errors, next_error_id) = match record_failures(&store.errors, store.next_error_id, &store.clean_events) {
        Some(recorded) => recorded,
        None => return Err(StoreError::OutOfRange),
    };
    store.runs = runs;
    store.errors = errors;
    store.next_error_id = next_error_id;
    let events = &store.clean_events;
    let change = |row: &ProjectRow| -> (changed: Option<ProjectRow>)
        ensures
            changed matches Some(new) && new@ == (ProjectModel {
                last_cleaned_at: last_success(rows_view(events@), row@.path),
                ..row@
            }),
    {
        Some(
            ProjectRow {
                path: row.path.clone(),
                discovered_at: row.discovered_at,
                last_seen_at: row.last_seen_at,
                last_cleaned_at: find_last_success(events, row.path.as_str()),
            },
        )
    };
    update_rows(
        &mut store.projects,
        change,
        Ghost(
            |row: ProjectModel|
                ProjectModel { last_cleaned_at: last_success(rows_view(events@), row.path), ..row },
        ),
    );
    Ok(())
}

// ----------------------------------------------------------------- authority

/// An observation that may not be acted on any more.
pub open spec fn unauthorized(row: ObservationModel, reason: Seq<char>, forget_boot: bool) -> ObservationModel {
    ObservationModel {
        authorized: false,
        blocked_reason: if row.authorized && row.blocked_reason is None {
            Some(reason)
        } else {
            row.blocked_reason
        },
        boot_session_id: if forget_boot {
            None
        } else {
            row.boot_session_id
        },
        ..row
    }
}

/// The store in which nothing that was discovered may be acted on.
pub open spec fn authority_revoked(store: StoreModel, reason: Seq<char>, forget_boot: bool) -> StoreModel {
    StoreModel {
        project_observations: store.project_observations.map_values(
            |row: ObservationModel| unauthorized(row, reason, forget_boot),
        ),
        discovery_generations: store.discovery_generations.map_values(
            |row: GenerationModel| crate::store::generations::revoked(row),
        ),
        ..store
    }
}

fn revoke_authority(store: &mut Store, reason: &str, forget_boot: bool)
    ensures
        final(store)@ == authority_revoked(old(store)@, reason@, forget_boot),
{
    let block = |row: &ObservationRow| -> (changed: Option<ObservationRow>)
        ensures
            changed matches Some(new) && new@ == unauthorized(row@, reason@, forget_boot),
    {
        let mut new = row.duplicate();
        if row.authorized && row.blocked_reason.is_none() {
            new.blocked_reason = Some(reason.to_owned());
        }
        if forget_boot {
            new.boot_session_id = None;
        }
        new.authorized = false;
        Some(new)
    };
    update_rows(
        &mut store.project_observations,
        block,
        Ghost(|row: ObservationModel| unauthorized(row, reason@, forget_boot)),
    );
    let revoke = |row: &GenerationRow| -> (changed: Option<GenerationRow>)
        ensures
            changed matches Some(new) && new@ == crate::store::generations::revoked(row@),
    {
        let mut new = row.duplicate();
        new.authority_valid = false;
        Some(new)
    };
    update_rows(
        &mut store.discovery_generations,
        revoke,
        Ghost(|row: GenerationModel| crate::store::generations::revoked(row)),
    );
}

// ----------------------------------------------------------------- migration

/// The store after a migration, and why it stopped where it did not complete.
pub open spec fn migrated(store: StoreModel, columns: SchemaColumns, known: Map<Seq<u8>, Resolved>, now: int) -> Migration {
    let current = store.schema_version;
    let tables = Migration { store: at_version(store, current, 4), fault: None };
    let failures = step(
        tables,
        current < 5,
        |s: StoreModel| match failures_attributed(s, known) {
            Ok(after) => Ok(at_version(after, current, 5)),
            Err(fault) => Err(fault),
        },
    );
    let links = step(
        failures,
        current < 6,
        |s: StoreModel| match links_attributed(s, known) {
            Ok(after) => Ok(at_version(after, current, 6)),
            Err(fault) => Err(fault),
        },
    );
    let errors = step(links, current < 7, |s: StoreModel| Ok(at_version(errors_categorized(s), current, 7)));
    let history = step(
        errors,
        current < 8,
        |s: StoreModel| match history_recounted(s) {
            Ok(after) => Ok(at_version(after, current, 8)),
            Err(fault) => Err(fault),
        },
    );
    let generations = step(history, current < 9, |s: StoreModel| Ok(at_version(s, current, 9)));
    let authority = step(
        generations,
        current < 10 || !columns.generation_authority,
        |s: StoreModel|
            Ok(
                at_version(
                    authority_revoked(s, "migration requires fresh discovery"@, true),
                    current,
                    10,
                ),
            ),
    );
    let plans = step(authority, current < 12, |s: StoreModel| Ok(at_version(s, current, 12)));
    let mounts = step(
        plans,
        current < 13 || !columns.mount_identity,
        |s: StoreModel|
            Ok(
                at_version(
                    authority_revoked(s, "migration requires fresh mount identity discovery"@, false),
                    current,
                    13,
                ),
            ),
    );
    step(
        mounts,
        true,
        |s: StoreModel| match epoch_of(now) {
            Some(secs) => Ok(
                StoreModel { review_plans: pruned(s.review_plans, s.discovery_generations, secs, None), ..s },
            ),
            None => Err(StoreFault::BeforeEpoch),
        },
    )
}

fn set_version(store: &mut Store, current: i64, version: i64)
    ensures
        final(store)@ == at_version(old(store)@, current, version),
{
    if current < version {
        store.schema_version = version;
    }
}

impl Store {
    /// Brings the store up to date.
    pub fn migrate(&mut self, columns: SchemaColumns, known: &Resolutions, now: SystemTime) -> (result: Result<(), StoreError>)
        ensures
            final(self)@ == migrated(old(self)@, columns, known@, now@).store,
            match migrated(old(self)@, columns, known@, now@).fault {
                Some(fault) => result matches Err(error) && error@ == fault,
                None => result is Ok,
            },
            consistent(old(self)@) ==> consistent(final(self)@),
    {
        proof {
            if consistent(self@) {
                migrations_keep_consistency(self@, columns, known@, now@);
            }
        }
        let current: i64 = self.schema_version;
        set_version(self, current, 4);
        if current < 5 {
            match attribute_failures(self, known) {
                Ok(_) => set_version(self, current, 5),
                Err(error) => return Err(error),
            }
        }
        if current < 6 {
            match attribute_links(self, known) {
                Ok(_) => set_version(self, current, 6),
                Err(error) => return Err(error),
            }
        }
        if current < 7 {
            categorize_errors(self);
            set_version(self, current, 7);
        }
        if current < 8 {
            match recount_history(self) {
                Ok(_) => set_version(self, current, 8),
                Err(error) => return Err(error),
            }
        }
        if current < 9 {
            set_version(self, current, 9);
        }
        if current < 10 || !columns.generation_authority {
            revoke_authority(self, "migration requires fresh discovery", true);
            set_version(self, current, 10);
        }
        if current < 12 {
            set_version(self, current, 12);
        }
        if current < 13 || !columns.mount_identity {
            revoke_authority(self, "migration requires fresh mount identity discovery", false);
            set_version(self, current, 13);
        }
        match self.prune_review_plans(now, None) {
            Ok(_) => Ok(()),
            Err(error) => Err(error),
        }
    }
}

// ---------------------------------------------------------------------- laws

/// Whether nothing that was discovered may be acted on.
pub open spec fn without_authority(store: StoreModel) -> bool {
    &&& forall|i: int|
        0 <= i < store.discovery_generations.len() ==> !(#[trigger] store.discovery_generations[i]).authority_valid
    &&& forall|i: int|
        0 <= i < store.project_observations.len() ==> !(#[trigger] store.project_observations[i]).authorized
}

/// A store that comes from an older schema, or lacks columns of the current one,
/// may not be acted on until a new discovery.
pub proof fn migration_grants_no_authority(
    store: StoreModel,
    columns: SchemaColumns,
    known: Map<Seq<u8>, Resolved>,
    now: int,
)
    requires
        store.schema_version < 13 || !columns.generation_authority || !columns.mount_identity,
        migrated(store, columns, known, now).fault is None,
    ensures
        without_authority(migrated(store, columns, known, now).store),
{
}

/// Whether everything that was recorded of attempts, runs and projects is still
/// there.
pub open spec fn keeps_history(before: StoreModel, after: StoreModel) -> bool {
    &&& after.clean_events == before.clean_events
    &&& after.runs.len() == before.runs.len()
    &&& forall|i: int|
        0 <= i < before.runs.len() ==> (#[trigger] after.runs[i]).id == before.runs[i].id && after.runs[i].started_at
            == before.runs[i].started_at && after.runs[i].finished_at == before.runs[i].finished_at
    &&& after.projects.len() == before.projects.len()
    &&& forall|i: int| 0 <= i < before.projects.len() ==> (#[trigger] after.projects[i]).path == before.projects[i].path
    &&& after.errors.len() >= before.errors.len()
    &&& forall|i: int|
        0 <= i < before.errors.len() ==> (#[trigger] after.errors[i]).message == before.errors[i].message
            && after.errors[i].path == before.errors[i].path && after.errors[i].ts == before.errors[i].ts
}

/// Counting runs again keeps their numbers and times.
pub proof fn lemma_recount_keeps_runs(events: Seq<EventModel>, runs: Seq<RunRow>)
    ensures
        runs_recounted(events, runs) matches Some(after) ==> after.len() == runs.len() && forall|i: int|
            0 <= i < runs.len() ==> (#[trigger] after[i]).id == runs[i].id && after[i].started_at == runs[i].started_at
                && after[i].finished_at == runs[i].finished_at,
    decreases runs.len(),
{
    if runs.len() > 0 {
        lemma_recount_keeps_runs(events, runs.drop_last());
    }
}

proof fn lemma_recording_keeps_errors(
    errors: Seq<ErrorModel>,
    known: Seq<ErrorModel>,
    next: i64,
    events: Seq<EventModel>,
)
    ensures
        failures_recorded(errors, known, next, events) matches Some((after, id)) ==> after.len() >= errors.len()
            && after.take(errors.len() as int) == errors,
    decreases events.len(),
{
    if events.len() > 0 {
        lemma_recording_keeps_errors(errors, known, next, events.drop_last());
        match failures_recorded(errors, known, next, events) {
            Some((after, id)) => {
                assert(after.take(errors.len() as int) =~= errors);
            },
            None => {},
        }
    } else {
        assert(errors.take(errors.len() as int) =~= errors);
    }
}

proof fn lemma_recount_keeps_history(store: StoreModel)
    ensures
        history_recounted(store) matches Ok(after) ==> keeps_history(store, after),
{
    lemma_recount_keeps_runs(store.clean_events, store.runs);
    lemma_recording_keeps_errors(store.errors, store.errors, store.next_error_id, store.clean_events);
    match history_recounted(store) {
        Ok(after) => {
            assert forall|i: int| 0 <= i < store.errors.len() implies #[trigger] after.errors[i] == store.errors[i] by {
                assert(after.errors.take(store.errors.len() as int)[i] == after.errors[i]);
            }
        },
        Err(_) => {},
    }
}

/// A migration, whether it completes or not, loses nothing of what was recorded.
pub proof fn migration_keeps_history(
    store: StoreModel,
    columns: SchemaColumns,
    known: Map<Seq<u8>, Resolved>,
    now: int,
)
    ensures
        keeps_history(store, migrated(store, columns, known, now).store),
{
    assert forall|s: StoreModel| (#[trigger] history_recounted(s)) matches Ok(after) ==> keeps_history(s, after) by {
        lemma_recount_keeps_history(s);
    }
}

/// A store of the current schema with all its columns only loses plans that are
/// void.
pub proof fn current_schema_is_left_alone(
    store: StoreModel,
    columns: SchemaColumns,
    known: Map<Seq<u8>, Resolved>,
    now: int,
)
    requires
        store.schema_version >= 13,
        columns.generation_authority,
        columns.mount_identity,
    ensures
        migrated(store, columns, known, now).store == (StoreModel {
            review_plans: match epoch_of(now) {
                Some(secs) => pruned(store.review_plans, store.discovery_generations, secs, None),
                None => store.review_plans,
            },
            ..store
        }),
{
}

} // verus!
