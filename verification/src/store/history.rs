//! What has happened: runs, attempts to clean, errors, and the last review.

use crate::path::PathBuf;
use crate::policy::scope::sort_texts;
use crate::safety::ReviewSummary;
use crate::store::rows::{
    copy_text, optional_text, CleanEvent, ErrorModel, ErrorRecord, ErrorRow, EventModel, EventRow, FailureModel, FailureRow,
    ProjectBytes, ReviewStatus, Run, RunRow, StatusModel, StatusRow,
};
use crate::store::table::{
    any_row, pick_rows, picked, push_row, rows_view, select_rows, some_row, sort_rows, stably_sorted, update_rows,
};
use crate::store::worktrees::text_set;
use crate::store::{
    epoch_of, from_epoch, from_optional_epoch, time_of, to_epoch, Store, StoreError, StoreFault, StoreModel,
};
use crate::text::{text_equal, texts};
use crate::time::SystemTime;
use crate::store::keys::{
    consistent, finished_runs_keep_consistency, recorded_errors_keep_consistency, started_runs_keep_consistency,
    stored_attempts_keep_consistency,
};
use vstd::prelude::*;
use vstd::utf8::*;

verus! {

// ---------------------------------------------------------------------- runs

/// The store with a run that has started.
pub open spec fn run_started(store: StoreModel, started_at: i64) -> Result<StoreModel, StoreFault> {
    if store.next_run_id == i64::MAX {
        Err(StoreFault::OutOfRange)
    } else {
        Ok(
            StoreModel {
                runs: store.runs.push(
                    RunRow {
                        id: store.next_run_id,
                        started_at,
                        finished_at: None,
                        projects_cleaned: 0,
                        bytes_recovered: 0,
                        errors_count: 0,
                    },
                ),
                next_run_id: (store.next_run_id + 1) as i64,
                ..store
            },
        )
    }
}

/// The store with a run that has finished.
pub open spec fn run_finished(
    store: StoreModel,
    id: i64,
    finished_at: i64,
    projects_cleaned: i64,
    bytes_recovered: i64,
    errors_count: i64,
) -> StoreModel {
    StoreModel {
        runs: store.runs.map_values(
            |row: RunRow|
                if row.id == id {
                    RunRow { finished_at: Some(finished_at), projects_cleaned, bytes_recovered, errors_count, ..row }
                } else {
                    row
                },
        ),
        ..store
    }
}

/// Whether a run started after another, or in the same second under a greater
/// number.
pub open spec fn run_after(a: RunRow, b: RunRow) -> bool {
    a.started_at > b.started_at || (a.started_at == b.started_at && a.id > b.id)
}

/// The run that started last.
pub open spec fn latest_run(runs: Seq<RunRow>) -> Option<RunRow>
    decreases runs.len(),
{
    if runs.len() == 0 {
        None
    } else {
        match latest_run(runs.drop_last()) {
            Some(best) => if run_after(best, runs.last()) {
                Some(best)
            } else {
                Some(runs.last())
            },
            None => Some(runs.last()),
        }
    }
}

/// The runs that have finished.
pub open spec fn completed_runs(runs: Seq<RunRow>) -> Seq<RunRow> {
    runs.filter(|row: RunRow| row.finished_at is Some)
}

/// Of the runs that have finished, the one that started last.
pub open spec fn latest_completed_run(runs: Seq<RunRow>) -> Option<RunRow> {
    latest_run(completed_runs(runs))
}

/// A run that started after all others is the latest.
proof fn lemma_latest_run(runs: Seq<RunRow>, i: int)
    requires
        0 <= i < runs.len(),
        forall|j: int| 0 <= j < runs.len() && j != i ==> run_after(runs[i], #[trigger] runs[j]),
    ensures
        latest_run(runs) == Some(runs[i]),
    decreases runs.len(),
{
    let shorter = runs.drop_last();
    if i < shorter.len() {
        assert(run_after(runs[i], runs[runs.len() - 1]));
        assert forall|j: int| 0 <= j < shorter.len() && j != i implies run_after(shorter[i], #[trigger] shorter[j]) by {
            assert(shorter[j] == runs[j]);
        }
        lemma_latest_run(shorter, i);
    } else {
        lemma_latest_is_one(shorter);
        match latest_run(shorter) {
            Some(best) => {
                let k = choose|k: int| 0 <= k < shorter.len() && shorter[k] == best;
                assert(runs[k] == best);
            },
            None => {},
        }
    }
}

proof fn lemma_latest_is_one(runs: Seq<RunRow>)
    ensures
        latest_run(runs) matches Some(run) ==> runs.contains(run),
    decreases runs.len(),
{
    if runs.len() > 0 {
        lemma_latest_is_one(runs.drop_last());
        assert(runs[runs.len() - 1] == runs.last());
        match latest_run(runs.drop_last()) {
            Some(best) => {
                let k = choose|k: int| 0 <= k < runs.drop_last().len() && runs.drop_last()[k] == best;
                assert(runs[k] == best);
            },
            None => {},
        }
    }
}

/// The latest of the finished runs has finished.
pub proof fn lemma_completed_runs_have_finished(runs: Seq<RunRow>)
    ensures
        latest_completed_run(runs) matches Some(run) ==> run.finished_at is Some && runs.contains(run),
{
    let done = |row: RunRow| row.finished_at is Some;
    let kept = runs.filter(done);
    lemma_latest_is_one(kept);
    match latest_run(kept) {
        Some(best) => {
            let k = choose|k: int| 0 <= k < kept.len() && kept[k] == best;
            runs.lemma_filter_pred(done, k);
            runs.lemma_filter_contains_rev(done, best);
        },
        None => {},
    }
}

/// Where no run has finished there is no latest of those that have.
pub proof fn lemma_no_completed_run(runs: Seq<RunRow>)
    requires
        forall|i: int| 0 <= i < runs.len() ==> (#[trigger] runs[i]).finished_at is None,
    ensures
        latest_completed_run(runs) is None,
{
    lemma_completed_runs_have_finished(runs);
}

/// A finished run that started after all other finished ones is the latest of them,
/// whatever runs have not finished.
pub proof fn lemma_latest_completed_run(runs: Seq<RunRow>, i: int)
    requires
        0 <= i < runs.len(),
        runs[i].finished_at is Some,
        forall|j: int|
            0 <= j < runs.len() && j != i && runs[j].finished_at is Some ==> run_after(runs[i], #[trigger] runs[j]),
    ensures
        latest_completed_run(runs) == Some(runs[i]),
    decreases runs.len(),
{
    reveal(Seq::filter);
    let done = |row: RunRow| row.finished_at is Some;
    let shorter = runs.drop_last();
    let kept = shorter.filter(done);
    if i < shorter.len() {
        assert forall|j: int| 0 <= j < shorter.len() && j != i && shorter[j].finished_at is Some implies run_after(
            shorter[i],
            #[trigger] shorter[j],
        ) by {
            assert(shorter[j] == runs[j]);
        }
        lemma_latest_completed_run(shorter, i);
        assert(completed_runs(shorter) =~= kept);
        if runs.last().finished_at is Some {
            assert(run_after(runs[i], runs[runs.len() - 1]));
            assert(kept.push(runs.last()).drop_last() =~= kept);
        }
    } else {
        assert(kept.push(runs.last()).drop_last() =~= kept);
        lemma_latest_is_one(kept);
        match latest_run(kept) {
            Some(best) => {
                shorter.lemma_filter_contains_rev(done, best);
                let k = choose|k: int| 0 <= k < shorter.len() && shorter[k] == best;
                assert(runs[k] == best);
                assert(done(best));
            },
            None => {},
        }
    }
}

/// Whether a returned run is the one that a row stands for.
pub open spec fn run_is(run: Run, row: RunRow) -> bool {
    &&& run.id == row.id
    &&& run.started_at@ == time_of(row.started_at)
    &&& match row.finished_at {
        Some(secs) => run.finished_at matches Some(t) && t@ == time_of(secs),
        None => run.finished_at is None,
    }
    &&& run.projects_cleaned == row.projects_cleaned
    &&& run.bytes_recovered == row.bytes_recovered
    &&& run.errors_count == row.errors_count
}

fn run_of(row: RunRow) -> (run: Run)
    ensures
        run_is(run, row),
{
    Run {
        id: row.id,
        started_at: from_epoch(row.started_at),
        finished_at: from_optional_epoch(row.finished_at),
        projects_cleaned: row.projects_cleaned,
        bytes_recovered: row.bytes_recovered,
        errors_count: row.errors_count,
    }
}

impl Store {
    /// Records the start of a run and gives its number.
    pub fn start_run(&mut self, started_at: SystemTime) -> (result: Result<i64, StoreError>)
        ensures
            match epoch_of(started_at@) {
                None => result matches Err(error) && error@ == StoreFault::BeforeEpoch && final(self)@ == old(self)@,
                Some(secs) => match run_started(old(self)@, secs) {
                    Err(fault) => result matches Err(error) && error@ == fault && final(self)@ == old(self)@,
                    Ok(store) => result == Ok::<i64, StoreError>(old(self)@.next_run_id) && final(self)@ == store,
                },
            },
            consistent(old(self)@) ==> consistent(final(self)@),
    {
        proof {
            if consistent(self@) {
                started_runs_keep_consistency(self@, epoch_of(started_at@)->0);
            }
        }
        let secs: i64 = match to_epoch(started_at) {
            Ok(secs) => secs,
            Err(error) => return Err(error),
        };
        let id: i64 = self.next_run_id;
        if id == 9_223_372_036_854_775_807 {
            return Err(StoreError::OutOfRange);
        }
        push_row(
            &mut self.runs,
            RunRow {
                id,
                started_at: secs,
                finished_at: None,
                projects_cleaned: 0,
                bytes_recovered: 0,
                errors_count: 0,
            },
        );
        self.next_run_id = id + 1;
        Ok(id)
    }

    /// Records the end of a run and what it did.
    pub fn finish_run(
        &mut self,
        id: i64,
        finished_at: SystemTime,
        projects_cleaned: i64,
        bytes_recovered: i64,
        errors_count: i64,
    ) -> (result: Result<(), StoreError>)
        ensures
            match epoch_of(finished_at@) {
                None => result matches Err(error) && error@ == StoreFault::BeforeEpoch && final(self)@ == old(self)@,
                Some(secs) => result is Ok && final(self)@ == run_finished(
                    old(self)@,
                    id,
                    secs,
                    projects_cleaned,
                    bytes_recovered,
                    errors_count,
                ),
            },
            consistent(old(self)@) ==> consistent(final(self)@),
    {
        proof {
            if consistent(self@) {
                finished_runs_keep_consistency(
                    self@,
                    id,
                    epoch_of(finished_at@)->0,
                    projects_cleaned,
                    bytes_recovered,
                    errors_count,
                );
            }
        }
        let secs: i64 = match to_epoch(finished_at) {
            Ok(secs) => secs,
            Err(error) => return Err(error),
        };
        let change = |row: &RunRow| -> (changed: Option<RunRow>)
            ensures
                match changed {
                    Some(new) => row@.id == id && new@ == (RunRow {
                        finished_at: Some(secs),
                        projects_cleaned,
                        bytes_recovered,
                        errors_count,
                        ..row@
                    }),
                    None => row@.id != id,
                },
        {
            if row.id == id {
                Some(
                    RunRow {
                        id: row.id,
                        started_at: row.started_at,
                        finished_at: Some(secs),
                        projects_cleaned,
                        bytes_recovered,
                        errors_count,
                    },
                )
            } else {
                None
            }
        };
        update_rows(
            &mut self.runs,
            change,
            Ghost(
                |row: RunRow|
                    if row.id == id {
                        RunRow {
                            finished_at: Some(secs),
                            projects_cleaned,
                            bytes_recovered,
                            errors_count,
                            ..row
                        }
                    } else {
                        row
                    },
            ),
        );
        Ok(())
    }

    /// The run that started last.
    pub fn last_run(&self) -> (result: Result<Run, StoreError>)
        ensures
            match latest_run(self@.runs) {
                Some(row) => result matches Ok(run) && run_is(run, row),
                None => result == Err::<Run, StoreError>(StoreError::NoRuns),
            },
    {
        let ghost all = rows_view(self.runs@);
        let mut best: Option<usize> = None;
        let mut i: usize = 0;
        while i < self.runs.len()
            invariant
                i <= self.runs.len(),
                all == rows_view(self.runs@),
                match latest_run(all.take(i as int)) {
                    Some(row) => best matches Some(b) && b < i && self.runs@[b as int] == row,
                    None => best is None,
                },
            decreases self.runs.len() - i,
        {
            proof {
                assert(all.take(i + 1).drop_last() =~= all.take(i as int));
                assert(all.take(i + 1).last() == self.runs@[i as int]);
            }
            match best {
                Some(b) => {
                    let (x, y) = (self.runs[b], self.runs[i]);
                    if !(x.started_at > y.started_at || (x.started_at == y.started_at && x.id > y.id)) {
                        best = Some(i);
                    }
                },
                None => {
                    best = Some(i);
                },
            }
            i += 1;
        }
        assert(all.take(i as int) =~= all);
        match best {
            Some(b) => {
                Ok(run_of(self.runs[b]))
            },
            None => Err(StoreError::NoRuns),
        }
    }

    /// Of the runs that have finished, the one that started last.
    pub fn last_completed_run(&self) -> (run: Option<Run>)
        ensures
            match latest_completed_run(self@.runs) {
                Some(row) => run matches Some(r) && run_is(r, row),
                None => run is None,
            },
    {
        let ghost all = rows_view(self.runs@);
        let ghost done = |row: RunRow| row.finished_at is Some;
        let mut best: Option<usize> = None;
        let mut i: usize = 0;
        proof {
            reveal(Seq::filter);
            assert(all.take(0) =~= Seq::empty());
        }
        while i < self.runs.len()
            invariant
                i <= self.runs.len(),
                all == rows_view(self.runs@),
                done == (|row: RunRow| row.finished_at is Some),
                match latest_run(all.take(i as int).filter(done)) {
                    Some(row) => best matches Some(b) && b < i && self.runs@[b as int] == row,
                    None => best is None,
                },
            decreases self.runs.len() - i,
        {
            proof {
                reveal(Seq::filter);
                let kept = all.take(i as int).filter(done);
                assert(all.take(i + 1).drop_last() =~= all.take(i as int));
                assert(all.take(i + 1).last() == self.runs@[i as int]);
                assert(kept.push(self.runs@[i as int]).drop_last() =~= kept);
            }
            if self.runs[i].finished_at.is_some() {
                match best {
                    Some(b) => {
                        let (x, y) = (self.runs[b], self.runs[i]);
                        if !(x.started_at > y.started_at || (x.started_at == y.started_at && x.id > y.id)) {
                            best = Some(i);
                        }
                    },
                    None => {
                        best = Some(i);
                    },
                }
            }
            i += 1;
        }
        assert(all.take(i as int) =~= all);
        match best {
            Some(b) => Some(run_of(self.runs[b])),
            None => None,
        }
    }
}

// -------------------------------------------------------------------- events

/// The row of an attempt to clean.
pub open spec fn event_row(event: CleanEvent, id: i64, ts: i64) -> EventModel {
    EventModel {
        id,
        run_id: event.run_id,
        ts,
        path: event.path@,
        bytes_before: event.bytes_before,
        bytes_after: event.bytes_after,
        duration_ms: event.duration_ms,
        exit_code: event.exit_code,
        stderr_excerpt: event.stderr_excerpt@,
        outcome: event.outcome,
        measurement_failed: event.measurement_failed,
    }
}

/// The store with one more attempt to clean, which gets its number and time here.
pub open spec fn attempt_stored(store: StoreModel, row: EventModel, time: int) -> Result<StoreModel, StoreFault> {
    match epoch_of(time) {
        None => Err(StoreFault::BeforeEpoch),
        Some(secs) => if store.next_event_id == i64::MAX {
            Err(StoreFault::OutOfRange)
        } else if !some_row(store.runs, |run: RunRow| run.id == row.run_id) {
            Err(StoreFault::UnknownRun)
        } else {
            Ok(
                StoreModel {
                    clean_events: store.clean_events.push(
                        EventModel { id: store.next_event_id, ts: secs, ..row },
                    ),
                    next_event_id: (store.next_event_id + 1) as i64,
                    ..store
                },
            )
        },
    }
}

/// The store with one more attempt to clean.
pub open spec fn event_recorded(store: StoreModel, event: CleanEvent) -> Result<StoreModel, StoreFault> {
    attempt_stored(store, event_row(event, 0, 0), event.ts@)
}

/// Whether a returned attempt is the one that a row stands for.
pub open spec fn event_is(event: CleanEvent, row: EventModel) -> bool {
    event_row(event, event.id, row.ts) == row && event.ts@ == time_of(row.ts)
}

/// The attempts since a time, in the order of their times.
pub open spec fn events_from(events: Seq<EventModel>, since: i64) -> Seq<EventModel> {
    stably_sorted(
        events.filter(|row: EventModel| row.ts >= since),
        |a: EventModel, b: EventModel| a.ts < b.ts,
    )
}

/// The row of an error.
pub open spec fn error_row(error: ErrorRecord, id: i64, ts: i64) -> ErrorModel {
    ErrorModel { id, ts, category: error.category@, path: optional_text(error.path), message: error.message@ }
}

/// The store with one more error, at a time in seconds.
pub open spec fn error_recorded_at(store: StoreModel, error: ErrorRecord, ts: i64) -> Result<StoreModel, StoreFault> {
    if store.next_error_id == i64::MAX {
        Err(StoreFault::OutOfRange)
    } else {
        Ok(
            StoreModel {
                errors: store.errors.push(error_row(error, store.next_error_id, ts)),
                next_error_id: (store.next_error_id + 1) as i64,
                ..store
            },
        )
    }
}

/// The store with one more problem recorded.
pub open spec fn problem_recorded(
    store: StoreModel,
    category: Seq<char>,
    path: Option<Seq<char>>,
    message: Seq<char>,
    time: int,
) -> Result<StoreModel, StoreFault> {
    match epoch_of(time) {
        None => Err(StoreFault::BeforeEpoch),
        Some(ts) => if store.next_error_id == i64::MAX {
            Err(StoreFault::OutOfRange)
        } else {
            Ok(
                StoreModel {
                    errors: store.errors.push(
                        ErrorModel { id: store.next_error_id, ts, category, path, message },
                    ),
                    next_error_id: (store.next_error_id + 1) as i64,
                    ..store
                },
            )
        },
    }
}

/// The store with one more error.
pub open spec fn error_recorded(store: StoreModel, error: ErrorRecord) -> Result<StoreModel, StoreFault> {
    match epoch_of(error.ts@) {
        None => Err(StoreFault::BeforeEpoch),
        Some(secs) => error_recorded_at(store, error, secs),
    }
}

/// Whether a returned error is the one that a row stands for.
pub open spec fn error_is(error: ErrorRecord, row: ErrorModel) -> bool {
    error_row(error, error.id, row.ts) == row && error.ts@ == time_of(row.ts)
}

/// The errors since a time, in the order of their times.
pub open spec fn errors_from(errors: Seq<ErrorModel>, since: i64) -> Seq<ErrorModel> {
    stably_sorted(
        errors.filter(|row: ErrorModel| row.ts >= since),
        |a: ErrorModel, b: ErrorModel| a.ts < b.ts,
    )
}

pub(crate) fn record_error_at(store: &mut Store, error: &ErrorRecord, ts: i64) -> (result: Result<(), StoreError>)
    ensures
        match error_recorded_at(old(store)@, *error, ts) {
            Ok(after) => result is Ok && final(store)@ == after,
            Err(fault) => result matches Err(e) && e@ == fault && final(store)@ == old(store)@,
        },
{
    let id: i64 = store.next_error_id;
    if id == 9_223_372_036_854_775_807 {
        return Err(StoreError::OutOfRange);
    }
    push_row(
        &mut store.errors,
        ErrorRow {
            id,
            ts,
            category: error.category.clone(),
            path: copy_text(&error.path),
            message: error.message.clone(),
        },
    );
    store.next_error_id = id + 1;
    Ok(())
}

impl Store {
    /// Records an attempt to clean.
    pub fn record_clean_event(&mut self, event: &CleanEvent) -> (result: Result<(), StoreError>)
        ensures
            match event_recorded(old(self)@, *event) {
                Ok(store) => result is Ok && final(self)@ == store,
                Err(fault) => result matches Err(error) && error@ == fault && final(self)@ == old(self)@,
            },
            consistent(old(self)@) ==> consistent(final(self)@),
    {
        proof {
            if consistent(self@) {
                stored_attempts_keep_consistency(self@, event_row(*event, 0, 0), event.ts@);
            }
        }
        let ts: i64 = match to_epoch(event.ts) {
            Ok(secs) => secs,
            Err(error) => return Err(error),
        };
        let id: i64 = self.next_event_id;
        if id == 9_223_372_036_854_775_807 {
            return Err(StoreError::OutOfRange);
        }
        let own = |run: &RunRow| -> (is: bool)
            ensures
                is == (run@.id == event.run_id),
        {
            run.id == event.run_id
        };
        if !any_row(&self.runs, own, Ghost(|run: RunRow| run.id == event.run_id)) {
            return Err(StoreError::UnknownRun);
        }
        push_row(
            &mut self.clean_events,
            EventRow {
                id,
                run_id: event.run_id,
                ts,
                path: event.path.clone(),
                bytes_before: event.bytes_before,
                bytes_after: event.bytes_after,
                duration_ms: event.duration_ms,
                exit_code: event.exit_code,
                stderr_excerpt: event.stderr_excerpt.clone(),
                outcome: event.outcome,
                measurement_failed: event.measurement_failed,
            },
        );
        self.next_event_id = id + 1;
        Ok(())
    }

    /// The attempts since a time, in the order of their times.
    pub fn clean_events_since(&self, since: SystemTime) -> (result: Result<Vec<CleanEvent>, StoreError>)
        ensures
            match epoch_of(since@) {
                None => result == Err::<Vec<CleanEvent>, StoreError>(StoreError::BeforeEpoch),
                Some(secs) => {
                    let rows = events_from(self@.clean_events, secs);
                    result matches Ok(events) && events@.len() == rows.len() && forall|i: int|
                        0 <= i < events@.len() ==> event_is(#[trigger] events@[i], rows[i])
                },
            },
    {
        let from: i64 = match to_epoch(since) {
            Ok(secs) => secs,
            Err(error) => return Err(error),
        };
        let wanted = |row: &EventRow| -> (is: bool)
            ensures
                is == (row@.ts >= from),
        {
            row.ts >= from
        };
        let mut rows = select_rows(&self.clean_events, wanted, Ghost(|row: EventModel| row.ts >= from));
        let less = |a: &EventRow, b: &EventRow| -> (is: bool)
            ensures
                is == (a@.ts < b@.ts),
        {
            a.ts < b.ts
        };
        sort_rows(&mut rows, less, Ghost(|a: EventModel, b: EventModel| a.ts < b.ts));
        let ghost sorted = events_from(self@.clean_events, from);
        let mut events: Vec<CleanEvent> = Vec::new();
        let mut i: usize = 0;
        while i < rows.len()
            invariant
                i <= rows.len(),
                events@.len() == i,
                rows_view(rows@) == sorted,
                forall|k: int| 0 <= k < i ==> event_is(#[trigger] events@[k], sorted[k]),
            decreases rows.len() - i,
        {
            let row = &rows[i];
            assert(sorted[i as int] == row@);
            events.push(
                CleanEvent {
                    id: row.id,
                    run_id: row.run_id,
                    ts: from_epoch(row.ts),
                    path: row.path.clone(),
                    bytes_before: row.bytes_before,
                    bytes_after: row.bytes_after,
                    duration_ms: row.duration_ms,
                    exit_code: row.exit_code,
                    stderr_excerpt: row.stderr_excerpt.clone(),
                    outcome: row.outcome,
                    measurement_failed: row.measurement_failed,
                },
            );
            i += 1;
        }
        Ok(events)
    }

    /// Records an error.
    pub fn record_error(&mut self, error: &ErrorRecord) -> (result: Result<(), StoreError>)
        ensures
            match error_recorded(old(self)@, *error) {
                Ok(store) => result is Ok && final(self)@ == store,
                Err(fault) => result matches Err(e) && e@ == fault && final(self)@ == old(self)@,
            },
            consistent(old(self)@) ==> consistent(final(self)@),
    {
        proof {
            if consistent(self@) {
                recorded_errors_keep_consistency(self@, *error, epoch_of(error.ts@)->0);
            }
        }
        match to_epoch(error.ts) {
            Ok(secs) => record_error_at(self, error, secs),
            Err(fault) => Err(fault),
        }
    }

    /// The errors since a time, in the order of their times.
    pub fn errors_since(&self, since: SystemTime) -> (result: Result<Vec<ErrorRecord>, StoreError>)
        ensures
            match epoch_of(since@) {
                None => result == Err::<Vec<ErrorRecord>, StoreError>(StoreError::BeforeEpoch),
                Some(secs) => {
                    let rows = errors_from(self@.errors, secs);
                    result matches Ok(errors) && errors@.len() == rows.len() && forall|i: int|
                        0 <= i < errors@.len() ==> error_is(#[trigger] errors@[i], rows[i])
                },
            },
    {
        let from: i64 = match to_epoch(since) {
            Ok(secs) => secs,
            Err(error) => return Err(error),
        };
        let wanted = |row: &ErrorRow| -> (is: bool)
            ensures
                is == (row@.ts >= from),
        {
            row.ts >= from
        };
        let mut rows = select_rows(&self.errors, wanted, Ghost(|row: ErrorModel| row.ts >= from));
        let less = |a: &ErrorRow, b: &ErrorRow| -> (is: bool)
            ensures
                is == (a@.ts < b@.ts),
        {
            a.ts < b.ts
        };
        sort_rows(&mut rows, less, Ghost(|a: ErrorModel, b: ErrorModel| a.ts < b.ts));
        let ghost sorted = errors_from(self@.errors, from);
        let mut errors: Vec<ErrorRecord> = Vec::new();
        let mut i: usize = 0;
        while i < rows.len()
            invariant
                i <= rows.len(),
                errors@.len() == i,
                rows_view(rows@) == sorted,
                forall|k: int| 0 <= k < i ==> error_is(#[trigger] errors@[k], sorted[k]),
            decreases rows.len() - i,
        {
            let row = &rows[i];
            assert(sorted[i as int] == row@);
            errors.push(
                ErrorRecord {
                    id: row.id,
                    ts: from_epoch(row.ts),
                    category: row.category.clone(),
                    path: copy_text(&row.path),
                    message: row.message.clone(),
                },
            );
            i += 1;
        }
        Ok(errors)
    }
}

// ------------------------------------------------------------------ coverage

/// Whether a failure concerns a path.
pub open spec fn failure_concerns(failures: Seq<FailureModel>, path: Seq<char>) -> bool {
    some_row(
        failures,
        |row: FailureModel| row.primary == path || row.canonical_primary == Some(path),
    )
}

/// Whether an error still says that a scan left something out: an error of the
/// scan itself, or one of a checkout that is still failing.
pub open spec fn limits_coverage(store: StoreModel, since: i64, row: ErrorModel) -> bool {
    row.ts >= since && (row.category == "scan"@ || (row.category == "worktree_discovery"@ && match row.path {
        None => true,
        Some(path) => failure_concerns(store.worktree_discovery_failures, path),
    }))
}

/// The paths of the errors that limit coverage.
pub open spec fn scan_error_texts(store: StoreModel, since: i64) -> Seq<Seq<char>> {
    text_set(
        picked(
            store.errors,
            |row: ErrorModel|
                if limits_coverage(store, since, row) {
                    row.path
                } else {
                    None
                },
        ),
    )
}

fn concerns(failures: &Vec<FailureRow>, path: &str) -> (is: bool)
    ensures
        is == failure_concerns(rows_view(failures@), path@),
{
    let own = |row: &FailureRow| -> (is: bool)
        ensures
            is == (row@.primary == path@ || row@.canonical_primary == Some(path@)),
    {
        text_equal(row.primary.as_str(), path) || crate::store::rows::text_is(&row.canonical_primary, path)
    };
    any_row(
        failures,
        own,
        Ghost(|row: FailureModel| row.primary == path@ || row.canonical_primary == Some(path@)),
    )
}

fn limits(store: &Store, since: i64, row: &ErrorRow) -> (is: bool)
    ensures
        is == limits_coverage(store@, since, row@),
{
    row.ts >= since && (text_equal(row.category.as_str(), "scan") || (text_equal(
        row.category.as_str(),
        "worktree_discovery",
    ) && match &row.path {
        None => true,
        Some(path) => concerns(&store.worktree_discovery_failures, path.as_str()),
    }))
}

impl Store {
    /// The paths of the errors since a time that limit coverage.
    pub fn scan_error_paths_since(&self, since: SystemTime) -> (result: Result<Vec<PathBuf>, StoreError>)
        ensures
            match epoch_of(since@) {
                None => result matches Err(error) && error@ == StoreFault::BeforeEpoch,
                Some(secs) => {
                    let names = scan_error_texts(self@, secs);
                    result matches Ok(paths) && paths@.len() == names.len() && forall|i: int|
                        0 <= i < paths@.len() ==> (#[trigger] paths@[i])@ == encode_utf8(names[i])
                },
            },
    {
        let from: i64 = match to_epoch(since) {
            Ok(secs) => secs,
            Err(error) => return Err(error),
        };
        let pick = |row: &ErrorRow| -> (found: Option<String>)
            ensures
                optional_text(found) == (if limits_coverage(self@, from, row@) {
                    row@.path
                } else {
                    None
                }),
        {
            if limits(self, from, row) {
                copy_text(&row.path)
            } else {
                None
            }
        };
        let mut list: Vec<String> = Vec::new();
        let ghost g = |row: ErrorModel|
            if limits_coverage(self@, from, row) {
                row.path
            } else {
                None
            };
        pick_rows(&self.errors, pick, &mut list, Ghost(g));
        proof {
            assert(rows_view(list@) =~= texts(list@));
            assert(texts(list@) =~= picked(self@.errors, g));
        }
        sort_texts(&mut list);
        let ghost names = scan_error_texts(self@, from);
        let mut paths: Vec<PathBuf> = Vec::new();
        let mut i: usize = 0;
        while i < list.len()
            invariant
                i <= list.len(),
                paths@.len() == i,
                names == texts(list@),
                forall|k: int| 0 <= k < i ==> (#[trigger] paths@[k])@ == encode_utf8(names[k]),
            decreases list.len() - i,
        {
            paths.push(PathBuf::new(list[i].as_str()));
            i += 1;
        }
        Ok(paths)
    }

    /// Whether an error since a time limits coverage.
    pub fn scan_coverage_incomplete_since(&self, since: SystemTime) -> (result: Result<bool, StoreError>)
        ensures
            match epoch_of(since@) {
                None => result == Err::<bool, StoreError>(StoreError::BeforeEpoch),
                Some(secs) => result == Ok::<bool, StoreError>(
                    some_row(self@.errors, |row: ErrorModel| limits_coverage(self@, secs, row)),
                ),
            },
    {
        let from: i64 = match to_epoch(since) {
            Ok(secs) => secs,
            Err(error) => return Err(error),
        };
        let wanted = |row: &ErrorRow| -> (is: bool)
            ensures
                is == limits_coverage(self@, from, row@),
        {
            limits(self, from, row)
        };
        Ok(any_row(&self.errors, wanted, Ghost(|row: ErrorModel| limits_coverage(self@, from, row))))
    }
}

// -------------------------------------------------------------------- totals

/// Whether an attempt since a time succeeded.
pub open spec fn succeeded_since(row: EventModel, since: i64) -> bool {
    row.ts >= since && row.exit_code == Some(0i32)
}

/// The bytes that the counted attempts recovered, added one by one; `None` where
/// a number on the way is too large.
pub open spec fn bytes_sum(events: Seq<EventModel>, counted: spec_fn(EventModel) -> bool) -> Option<i64>
    decreases events.len(),
{
    if events.len() == 0 {
        Some(0)
    } else {
        match bytes_sum(events.drop_last(), counted) {
            None => None,
            Some(sum) => if counted(events.last()) {
                checked_total(sum, events.last())
            } else {
                Some(sum)
            },
        }
    }
}

/// A sum and the bytes that one attempt recovered, if both fit.
pub open spec fn checked_total(sum: i64, row: EventModel) -> Option<i64> {
    let recovered = row.bytes_before - row.bytes_after;
    if i64::MIN <= recovered <= i64::MAX && i64::MIN <= sum + recovered <= i64::MAX {
        Some((sum + recovered) as i64)
    } else {
        None
    }
}

/// The number of counted attempts.
pub open spec fn event_count(events: Seq<EventModel>, counted: spec_fn(EventModel) -> bool) -> nat {
    events.filter(counted).len()
}

proof fn lemma_sum_fails_early(events: Seq<EventModel>, counted: spec_fn(EventModel) -> bool, n: int)
    requires
        0 <= n <= events.len(),
        bytes_sum(events.take(n), counted) is None,
    ensures
        bytes_sum(events, counted) is None,
    decreases events.len() - n,
{
    if n < events.len() {
        assert(events.take(n + 1).drop_last() =~= events.take(n));
        lemma_sum_fails_early(events, counted, n + 1);
    } else {
        assert(events.take(n) =~= events);
    }
}

fn sum_bytes(
    rows: &Vec<EventRow>,
    counted: impl Fn(&EventRow) -> bool,
    Ghost(p): Ghost<spec_fn(EventModel) -> bool>,
) -> (sum: Option<i64>)
    requires
        forall|row: &EventRow| #[trigger] counted.requires((row,)),
        forall|row: &EventRow, is: bool| #[trigger] counted.ensures((row,), is) ==> is == p(row@),
    ensures
        sum == bytes_sum(rows_view(rows@), p),
{
    let ghost all = rows_view(rows@);
    let mut sum: i64 = 0;
    let mut i: usize = 0;
    assert(all.take(0) =~= Seq::empty());
    while i < rows.len()
        invariant
            i <= rows.len(),
            all == rows_view(rows@),
            bytes_sum(all.take(i as int), p) == Some(sum),
            forall|row: &EventRow| #[trigger] counted.requires((row,)),
            forall|row: &EventRow, is: bool| #[trigger] counted.ensures((row,), is) ==> is == p(row@),
        decreases rows.len() - i,
    {
        proof {
            assert(all.take(i + 1).drop_last() =~= all.take(i as int));
            assert(all.take(i + 1).last() == rows@[i as int]@);
        }
        if counted(&rows[i]) {
            let total: Option<i64> = match rows[i].bytes_before.checked_sub(rows[i].bytes_after) {
                Some(recovered) => sum.checked_add(recovered),
                None => None,
            };
            match total {
                Some(next) => {
                    sum = next;
                },
                None => {
                    proof {
                        lemma_sum_fails_early(all, p, i + 1);
                    }
                    return None;
                },
            }
        }
        i += 1;
    }
    assert(all.take(i as int) =~= all);
    Some(sum)
}

/// The bytes recovered from a project since a time.
pub open spec fn project_sum(events: Seq<EventModel>, since: i64, path: Seq<char>) -> Option<i64> {
    bytes_sum(events, |row: EventModel| succeeded_since(row, since) && row.path == path)
}

/// The paths of the projects that were cleaned since a time.
pub open spec fn cleaned_paths(events: Seq<EventModel>, since: i64) -> Seq<Seq<char>> {
    text_set(
        picked(
            events,
            |row: EventModel|
                if succeeded_since(row, since) {
                    Some(row.path)
                } else {
                    None
                },
        ),
    )
}

/// The bytes recovered from each of some projects; `None` where a number is too
/// large.
pub open spec fn project_sums(events: Seq<EventModel>, since: i64, paths: Seq<Seq<char>>) -> Option<Seq<(Seq<char>, i64)>>
    decreases paths.len(),
{
    if paths.len() == 0 {
        Some(Seq::empty())
    } else {
        match project_sums(events, since, paths.drop_last()) {
            None => None,
            Some(before) => match project_sum(events, since, paths.last()) {
                None => None,
                Some(sum) => Some(before.push((paths.last(), sum))),
            },
        }
    }
}

/// The projects from which the most bytes were recovered, with the most first.
pub open spec fn top_projects(events: Seq<EventModel>, since: i64, n: nat) -> Option<Seq<(Seq<char>, i64)>> {
    match project_sums(events, since, cleaned_paths(events, since)) {
        None => None,
        Some(sums) => {
            let sorted = stably_sorted(sums, |a: (Seq<char>, i64), b: (Seq<char>, i64)| a.1 > b.1);
            Some(
                if n < sorted.len() {
                    sorted.take(n as int)
                } else {
                    sorted
                },
            )
        },
    }
}

impl View for ProjectBytes {
    type V = (Seq<char>, i64);

    open spec fn view(&self) -> (Seq<char>, i64) {
        (self.path@, self.bytes)
    }
}

proof fn lemma_sums_fail_early(events: Seq<EventModel>, since: i64, paths: Seq<Seq<char>>, n: int)
    requires
        0 <= n <= paths.len(),
        project_sums(events, since, paths.take(n)) is None,
    ensures
        project_sums(events, since, paths) is None,
    decreases paths.len() - n,
{
    if n < paths.len() {
        assert(paths.take(n + 1).drop_last() =~= paths.take(n));
        lemma_sums_fail_early(events, since, paths, n + 1);
    } else {
        assert(paths.take(n) =~= paths);
    }
}

impl Store {
    /// The bytes recovered since a time.
    pub fn total_bytes_recovered(&self, since: SystemTime) -> (result: Result<i64, StoreError>)
        ensures
            match epoch_of(since@) {
                None => result == Err::<i64, StoreError>(StoreError::BeforeEpoch),
                Some(secs) => match bytes_sum(
                    self@.clean_events,
                    |row: EventModel| succeeded_since(row, secs),
                ) {
                    Some(sum) => result == Ok::<i64, StoreError>(sum),
                    None => result == Err::<i64, StoreError>(StoreError::OutOfRange),
                },
            },
    {
        let from: i64 = match to_epoch(since) {
            Ok(secs) => secs,
            Err(error) => return Err(error),
        };
        let counted = |row: &EventRow| -> (is: bool)
            ensures
                is == succeeded_since(row@, from),
        {
            row.ts >= from && row.exit_code == Some(0i32)
        };
        match sum_bytes(&self.clean_events, counted, Ghost(|row: EventModel| succeeded_since(row, from))) {
            Some(sum) => Ok(sum),
            None => Err(StoreError::OutOfRange),
        }
    }

    /// The projects from which the most bytes were recovered since a time.
    pub fn top_projects_by_bytes(&self, since: SystemTime, n: usize) -> (result: Result<Vec<ProjectBytes>, StoreError>)
        ensures
            match epoch_of(since@) {
                None => result matches Err(error) && error@ == StoreFault::BeforeEpoch,
                Some(secs) => match top_projects(self@.clean_events, secs, n as nat) {
                    Some(rows) => result matches Ok(list) && rows_view(list@) == rows,
                    None => result matches Err(error) && error@ == StoreFault::OutOfRange,
                },
            },
    {
        let from: i64 = match to_epoch(since) {
            Ok(secs) => secs,
            Err(error) => return Err(error),
        };
        let events = &self.clean_events;
        let ghost all_events = self@.clean_events;
        let pick = |row: &EventRow| -> (found: Option<String>)
            ensures
                match found {
                    Some(path) => succeeded_since(row@, from) && path@ == row@.path,
                    None => !succeeded_since(row@, from),
                },
        {
            if row.ts >= from && row.exit_code == Some(0i32) {
                Some(row.path.clone())
            } else {
                None
            }
        };
        let ghost g = |row: EventModel|
            if succeeded_since(row, from) {
                Some(row.path)
            } else {
                None::<Seq<char>>
            };
        let mut paths: Vec<String> = Vec::new();
        pick_rows(events, pick, &mut paths, Ghost(g));
        proof {
            assert(rows_view(paths@) =~= texts(paths@));
            assert(texts(paths@) =~= picked(all_events, g));
        }
        sort_texts(&mut paths);
        let ghost names = texts(paths@);
        assert(names == cleaned_paths(all_events, from));
        let mut list: Vec<ProjectBytes> = Vec::new();
        let mut i: usize = 0;
        assert(names.take(0) =~= Seq::empty());
        assert(rows_view(list@) =~= Seq::empty());
        while i < paths.len()
            invariant
                i <= paths.len(),
                names == texts(paths@),
                all_events == rows_view(events@),
                names == cleaned_paths(all_events, from),
                project_sums(all_events, from, names.take(i as int)) == Some(rows_view(list@)),
                epoch_of(since@) == Some(from),
                self@.clean_events == all_events,
            decreases paths.len() - i,
        {
            let path = paths[i].as_str();
            proof {
                assert(names.take(i + 1).drop_last() =~= names.take(i as int));
                assert(names.take(i + 1).last() == path@);
            }
            let own = |row: &EventRow| -> (is: bool)
                ensures
                    is == (succeeded_since(row@, from) && row@.path == path@),
            {
                row.ts >= from && row.exit_code == Some(0i32) && text_equal(row.path.as_str(), path)
            };
            match sum_bytes(
                events,
                own,
                Ghost(|row: EventModel| succeeded_since(row, from) && row.path == path@),
            ) {
                Some(sum) => {
                    push_row(&mut list, ProjectBytes { path: paths[i].clone(), bytes: sum });
                },
                None => {
                    proof {
                        lemma_sums_fail_early(all_events, from, names, i + 1);
                    }
                    return Err(StoreError::OutOfRange);
                },
            }
            i += 1;
        }
        assert(names.take(i as int) =~= names);
        let less = |a: &ProjectBytes, b: &ProjectBytes| -> (is: bool)
            ensures
                is == (a@.1 > b@.1),
        {
            a.bytes > b.bytes
        };
        sort_rows(&mut list, less, Ghost(|a: (Seq<char>, i64), b: (Seq<char>, i64)| a.1 > b.1));
        if n < list.len() {
            let ghost before = rows_view(list@);
            list.truncate(n);
            assert(rows_view(list@) =~= before.take(n as int));
        }
        Ok(list)
    }

    /// How many attempts since a time ended with an exit code other than zero.
    pub fn failed_clean_attempts(&self, since: SystemTime) -> (result: Result<i64, StoreError>)
        ensures
            match epoch_of(since@) {
                None => result == Err::<i64, StoreError>(StoreError::BeforeEpoch),
                Some(secs) => {
                    let count = event_count(self@.clean_events, |row: EventModel| failed_since(row, secs));
                    if count <= i64::MAX {
                        result == Ok::<i64, StoreError>(count as i64)
                    } else {
                        result == Err::<i64, StoreError>(StoreError::OutOfRange)
                    }
                },
            },
    {
        let from: i64 = match to_epoch(since) {
            Ok(secs) => secs,
            Err(error) => return Err(error),
        };
        let failed = |row: &EventRow| -> (is: bool)
            ensures
                is == failed_since(row@, from),
        {
            row.ts >= from && match row.exit_code {
                Some(code) => code != 0,
                None => false,
            }
        };
        let rows = select_rows(&self.clean_events, failed, Ghost(|row: EventModel| failed_since(row, from)));
        let count: u64 = rows.len() as u64;
        if count > i64::MAX as u64 {
            return Err(StoreError::OutOfRange);
        }
        Ok(count as i64)
    }
}

/// Whether an attempt since a time ended with an exit code other than zero.
pub open spec fn failed_since(row: EventModel, since: i64) -> bool {
    row.ts >= since && (row.exit_code matches Some(code) && code != 0)
}

// ------------------------------------------------------------- review status

/// A count as it is read back: one that is too large to be stored becomes zero.
pub open spec fn stored_count(n: usize) -> usize {
    if n <= i64::MAX {
        n
    } else {
        0
    }
}

/// A number of bytes as it is read back: at most the greatest one that can be
/// stored.
pub open spec fn stored_bytes(n: u64) -> u64 {
    if n <= i64::MAX {
        n
    } else {
        i64::MAX as u64
    }
}

/// A summary as it is read back.
pub open spec fn stored_summary(summary: ReviewSummary) -> ReviewSummary {
    ReviewSummary {
        total_projects: stored_count(summary.total_projects),
        cleanable_projects: stored_count(summary.cleanable_projects),
        skipped_projects: stored_count(summary.skipped_projects),
        cleanable_bytes: stored_bytes(summary.cleanable_bytes),
        active_recent_write: stored_count(summary.active_recent_write),
        active_process: stored_count(summary.active_process),
        managed_cache: stored_count(summary.managed_cache),
        container_storage: stored_count(summary.container_storage),
        scan_error: stored_count(summary.scan_error),
        no_target: stored_count(summary.no_target),
        target_read_error: stored_count(summary.target_read_error),
    }
}

fn count_to_store(n: usize) -> (stored: usize)
    ensures
        stored == stored_count(n),
{
    if n as u64 <= 9_223_372_036_854_775_807 {
        n
    } else {
        0
    }
}

/// The store with a review status in place of the last one.
pub open spec fn review_recorded(store: StoreModel, reviewed_at: i64, source: Seq<char>, summary: ReviewSummary) -> StoreModel {
    StoreModel {
        review_status: Some(StatusModel { reviewed_at, source, summary: stored_summary(summary) }),
        ..store
    }
}

impl Store {
    /// Records the last review.
    pub fn record_review_status(&mut self, reviewed_at: SystemTime, source: &str, summary: &ReviewSummary) -> (result: Result<
        (),
        StoreError,
    >)
        ensures
            match epoch_of(reviewed_at@) {
                None => result matches Err(error) && error@ == StoreFault::BeforeEpoch && final(self)@ == old(self)@,
                Some(secs) => result is Ok && final(self)@ == review_recorded(old(self)@, secs, source@, *summary),
            },
            consistent(old(self)@) ==> consistent(final(self)@),
    {
        let secs: i64 = match to_epoch(reviewed_at) {
            Ok(secs) => secs,
            Err(error) => return Err(error),
        };
        self.review_status = Some(
            StatusRow {
                reviewed_at: secs,
                source: source.to_owned(),
                summary: ReviewSummary {
                    total_projects: count_to_store(summary.total_projects),
                    cleanable_projects: count_to_store(summary.cleanable_projects),
                    skipped_projects: count_to_store(summary.skipped_projects),
                    cleanable_bytes: if summary.cleanable_bytes <= 9_223_372_036_854_775_807 {
                        summary.cleanable_bytes
                    } else {
                        9_223_372_036_854_775_807
                    },
                    active_recent_write: count_to_store(summary.active_recent_write),
                    active_process: count_to_store(summary.active_process),
                    managed_cache: count_to_store(summary.managed_cache),
                    container_storage: count_to_store(summary.container_storage),
                    scan_error: count_to_store(summary.scan_error),
                    no_target: count_to_store(summary.no_target),
                    target_read_error: count_to_store(summary.target_read_error),
                },
            },
        );
        Ok(())
    }

    /// The last review.
    pub fn last_review_status(&self) -> (status: Option<ReviewStatus>)
        ensures
            match self@.review_status {
                Some(row) => status matches Some(s) && s.reviewed_at@ == time_of(row.reviewed_at) && s.source@
                    == row.source && s.summary == row.summary,
                None => status is None,
            },
    {
        match &self.review_status {
            Some(row) => Some(
                ReviewStatus {
                    reviewed_at: from_epoch(row.reviewed_at),
                    source: row.source.clone(),
                    summary: row.summary,
                },
            ),
            None => None,
        }
    }
}

} // verus!
