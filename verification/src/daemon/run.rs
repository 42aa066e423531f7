//! A cleanup run: each prepared review is validated once more, cleaned, and
//! accounted for.

use crate::cleaner::{CleanAttemptOutcome, CleanResult};
use crate::daemon::cycle::{coverage, coverage_of, errors_since, PreparedReview};
use crate::daemon::{path_text, source_label, RunCycleResult, RunSource};
use crate::path::{path_views, PathBuf};
use crate::resolve::Resolutions;
use crate::safety::{
    cleanable_bytes_in, cleanable_in, lemma_cleanable_bounded, review_summary, summarizes, CleanDecision, ProjectReview, ReviewSummary, SkipReason,
};
use crate::store::generations::observations_reverified;
use crate::store::history::{attempt_stored, problem_recorded, review_recorded, run_finished, run_started};
use crate::store::migrate::exit_message;
use crate::store::projects::project_marked;
use crate::store::rows::{optional_text, CleanEvent, ErrorRecord, EventModel};
use crate::store::{epoch_of, Store, StoreError, StoreFault, StoreModel};
use crate::text::{lossy_chars, signed_decimal};
use crate::time::{Duration, SystemTime};
use crate::store::keys::consistent;
use vstd::prelude::*;

verus! {

/// Why a run stops.
#[derive(Debug, PartialEq, Eq)]
pub enum RunError {
    Store(StoreError),
    /// An attempt that was not skipped says not how it ended.
    MissingOutcome,
    /// An attempt that failed in cargo has no exit code.
    MissingExitCode,
    /// An attempt that could not run cargo has no message.
    MissingAuditMessage,
}

/// The contents of an error.
pub enum RunFault {
    Store(StoreFault),
    MissingOutcome,
    MissingExitCode,
    MissingAuditMessage,
}

impl View for RunError {
    type V = RunFault;

    open spec fn view(&self) -> RunFault {
        match self {
            RunError::Store(error) => RunFault::Store(error@),
            RunError::MissingOutcome => RunFault::MissingOutcome,
            RunError::MissingExitCode => RunFault::MissingExitCode,
            RunError::MissingAuditMessage => RunFault::MissingAuditMessage,
        }
    }
}

impl RunError {
    /// The error in words, where it is not one of the store.
    pub fn message(&self) -> (text: Option<&'static str>)
        ensures
            text is None <==> self is Store,
            text matches Some(t) ==> t@ == match self {
                RunError::MissingOutcome => "non-skipped clean result is missing its attempt outcome"@,
                RunError::MissingExitCode => "nonzero Cargo attempt is missing its exit code"@,
                _ => "runner failure is missing its audit message"@,
            },
    {
        match self {
            RunError::Store(_) => None,
            RunError::MissingOutcome => Some("non-skipped clean result is missing its attempt outcome"),
            RunError::MissingExitCode => Some("nonzero Cargo attempt is missing its exit code"),
            RunError::MissingAuditMessage => Some("runner failure is missing its audit message"),
        }
    }
}

/// What a run has done so far.
#[derive(Debug, Clone, Copy, PartialEq, Eq, Structural)]
pub struct RunCounts {
    pub cleaned: i64,
    pub skipped_by_cleaner: i64,
    pub bytes_recovered: i64,
    pub errors: i64,
    pub cargo_failures: i64,
    pub measurement_failures: i64,
    pub cleanup_failures: i64,
}

/// Nothing done.
pub open spec fn no_counts() -> RunCounts {
    RunCounts {
        cleaned: 0,
        skipped_by_cleaner: 0,
        bytes_recovered: 0,
        errors: 0,
        cargo_failures: 0,
        measurement_failures: 0,
        cleanup_failures: 0,
    }
}

/// A run under way.
#[derive(Debug)]
pub struct RunState {
    pub run_id: i64,
    pub started: SystemTime,
    pub source: RunSource,
    pub generation_id: Option<i64>,
    pub reviews: Vec<ProjectReview>,
    pub reverified: Vec<bool>,
    pub scan_errors: Vec<PathBuf>,
    pub discovery_blocks: Vec<PathBuf>,
    pub coverage_incomplete: bool,
    /// The review to go on with.
    pub next: usize,
    pub counts: RunCounts,
}

impl RunState {
    /// Whether the run can go on: every review has its mark, the counts are those
    /// of the cleanable reviews gone through, and there are not more reviews than can be
    /// counted.
    pub open spec fn well_formed(&self) -> bool {
        &&& self.next <= self.reviews@.len()
        &&& self.reverified@.len() == self.reviews@.len()
        &&& self.reviews@.len() <= 0x1000_0000_0000_0000
        &&& counts_within(self.counts, self.cleanable_so_far())
    }

    /// How many of the reviews gone through were cleanable to the last.
    pub open spec fn cleanable_so_far(&self) -> int {
        cleanable_in(self.reviews@.take(self.next as int)) as int
    }

    /// The run with another decision on the review it is at.
    pub open spec fn with_decision(&self, decision: CleanDecision) -> Seq<ProjectReview> {
        self.reviews@.update(
            self.next as int,
            ProjectReview { decision, ..self.reviews@[self.next as int] },
        )
    }
}

/// Whether counts are those of a number of reviews: each review is cleaned, skipped
/// or failed once at most, and may fail to be measured besides.
pub open spec fn counts_within(counts: RunCounts, n: int) -> bool {
    &&& 0 <= counts.cleaned
    &&& 0 <= counts.skipped_by_cleaner
    &&& 0 <= counts.bytes_recovered
    &&& 0 <= counts.cargo_failures
    &&& 0 <= counts.measurement_failures <= n
    &&& 0 <= counts.cleanup_failures
    &&& counts.cleaned + counts.skipped_by_cleaner + counts.cargo_failures + counts.cleanup_failures <= n
    &&& counts.errors == counts.cargo_failures + counts.measurement_failures + counts.cleanup_failures
}

// ---------------------------------------------------------------------- begin

/// The reviews of prepared reviews.
pub open spec fn reviews_of(prepared: Seq<PreparedReview>) -> Seq<ProjectReview> {
    prepared.map_values(|p: PreparedReview| p.review)
}

/// The marks of prepared reviews.
pub open spec fn marks_of(prepared: Seq<PreparedReview>) -> Seq<bool> {
    prepared.map_values(|p: PreparedReview| p.reverified_across_boot)
}

/// Whether nothing is cleanable in one list of reviews that is not in another.
pub open spec fn admits_no_more(reviews: Seq<ProjectReview>, before: Seq<ProjectReview>) -> bool {
    &&& reviews.len() == before.len()
    &&& forall|i: int|
        0 <= i < reviews.len() && (#[trigger] reviews[i]).decision == CleanDecision::Cleanable ==> before[i].decision
            == CleanDecision::Cleanable
}

/// One more review counts where it is cleanable; another decision on it changes nothing
/// of those before it.
proof fn lemma_next_counts(reviews: Seq<ProjectReview>, changed: Seq<ProjectReview>, n: int)
    requires
        0 <= n < reviews.len() == changed.len(),
        forall|i: int| 0 <= i < n ==> reviews[i] == #[trigger] changed[i],
    ensures
        cleanable_in(changed.take(n)) == cleanable_in(reviews.take(n)),
        cleanable_in(changed.take(n + 1)) == cleanable_in(reviews.take(n)) + if changed[n].decision
            == CleanDecision::Cleanable {
            1int
        } else {
            0
        },
{
    assert(changed.take(n) =~= reviews.take(n));
    assert(changed.take(n + 1).drop_last() =~= reviews.take(n));
    assert(changed.take(n + 1).last() == changed[n]);
}

/// Starts a run over prepared reviews.
pub fn begin_run(
    store: &mut Store,
    prepared: Vec<PreparedReview>,
    generation_id: Option<i64>,
    coverage_incomplete: bool,
    policy_hash: &str,
    scan_interval: Duration,
    source: RunSource,
    started: SystemTime,
    known: &Resolutions,
) -> (result: Result<RunState, StoreError>)
    requires
        prepared@.len() <= 0x1000_0000_0000_0000,
    ensures
        match epoch_of(started@) {
            None => result matches Err(error) && error@ == StoreFault::BeforeEpoch && final(store)@ == old(store)@,
            Some(secs) => match run_started(old(store)@, secs) {
                Err(fault) => result matches Err(error) && error@ == fault && final(store)@ == old(store)@,
                Ok(after) => final(store)@ == after && match coverage_of(
                    after,
                    policy_hash@,
                    errors_since(started@, scan_interval@ as int),
                    known@,
                ) {
                    Err(fault) => result matches Err(error) && error@ == fault,
                    Ok(view) => result matches Ok(run) && {
                        &&& run.well_formed()
                        &&& run.run_id == old(store)@.next_run_id
                        &&& run.started == started
                        &&& run.source == source
                        &&& run.generation_id == generation_id
                        &&& run.reviews@ == reviews_of(prepared@)
                        &&& run.reverified@ == marks_of(prepared@)
                        &&& path_views(run.scan_errors@) == view.scan_errors
                        &&& path_views(run.discovery_blocks@) == view.discovery_blocks
                        &&& run.coverage_incomplete == (coverage_incomplete || view.incomplete)
                        &&& run.next == 0
                        &&& run.counts == no_counts()
                    },
                },
            },
        },
        consistent(old(store)@) ==> consistent(final(store)@),
{
    let run_id: i64 = match store.start_run(started) {
        Ok(id) => id,
        Err(error) => return Err(error),
    };
    let limits = match coverage(store, policy_hash, started, scan_interval, known) {
        Ok(limits) => limits,
        Err(error) => return Err(error),
    };
    let ghost all = prepared@;
    let mut rest = prepared;
    let mut reviews: Vec<ProjectReview> = Vec::new();
    let mut reverified: Vec<bool> = Vec::new();
    let ghost mut n: int = 0;
    assert(rest@ =~= all.skip(0));
    assert(reviews@ =~= reviews_of(all.take(0)));
    assert(reverified@ =~= marks_of(all.take(0)));
    while rest.len() > 0
        invariant
            0 <= n <= all.len(),
            rest@ == all.skip(n),
            reviews@ == reviews_of(all.take(n)),
            reverified@ == marks_of(all.take(n)),
        decreases rest.len(),
    {
        let one = rest.remove(0);
        proof {
            assert(one == all[n]);
            assert(rest@ =~= all.skip(n + 1));
            assert(reviews_of(all.take(n + 1)) =~= reviews_of(all.take(n)).push(one.review));
            assert(marks_of(all.take(n + 1)) =~= marks_of(all.take(n)).push(one.reverified_across_boot));
            n = n + 1;
        }
        reverified.push(one.reverified_across_boot);
        reviews.push(one.review);
    }
    assert(all.take(n) =~= all);
    Ok(
        RunState {
            run_id,
            started,
            source,
            generation_id,
            reviews,
            reverified,
            scan_errors: limits.scan_errors,
            discovery_blocks: limits.discovery_blocks,
            coverage_incomplete: coverage_incomplete || limits.incomplete,
            next: 0,
            counts: RunCounts {
                cleaned: 0,
                skipped_by_cleaner: 0,
                bytes_recovered: 0,
                errors: 0,
                cargo_failures: 0,
                measurement_failures: 0,
                cleanup_failures: 0,
            },
        },
    )
}

// --------------------------------------------------------------------- deciding

/// What a run does next.
#[derive(Debug, Clone, Copy, PartialEq, Eq, Structural)]
pub enum RunAction {
    /// Validate this review once more.
    Revalidate(usize),
    /// Go past this review with the decision it has.
    PassOver(usize),
    /// Finish the run.
    Finish,
}

/// What is said where a target cannot be read.
pub open spec fn read_error_text() -> Seq<char> {
    "target read error: unable to read direct target directory"@
}

/// The store after a decision: a target that cannot be read is recorded.
pub open spec fn decision_recorded(store: StoreModel, review: ProjectReview, decision: CleanDecision, now: int) -> Result<
    StoreModel,
    StoreFault,
> {
    if decision == CleanDecision::Skipped(SkipReason::TargetReadError) {
        problem_recorded(store, "review"@, path_text(review.target_path@), read_error_text(), now)
    } else {
        Ok(store)
    }
}

fn record_problem(store: &mut Store, category: &str, path: Option<String>, message: &str, now: SystemTime) -> (result: Result<
    (),
    StoreError,
>)
    ensures
        match problem_recorded(old(store)@, category@, optional_text(path), message@, now@) {
            Ok(after) => result is Ok && final(store)@ == after,
            Err(fault) => result matches Err(error) && error@ == fault && final(store)@ == old(store)@,
        },
        consistent(old(store)@) ==> consistent(final(store)@),
{
    store.record_error(
        &ErrorRecord { id: 0, ts: now, category: category.to_owned(), path, message: message.to_owned() },
    )
}

fn record_read_error(store: &mut Store, review: &ProjectReview, decision: CleanDecision, now: SystemTime) -> (result: Result<
    (),
    StoreError,
>)
    ensures
        match decision_recorded(old(store)@, *review, decision, now@) {
            Ok(after) => result is Ok && final(store)@ == after,
            Err(fault) => result matches Err(error) && error@ == fault && final(store)@ == old(store)@,
        },
        consistent(old(store)@) ==> consistent(final(store)@),
{
    match decision {
        CleanDecision::Skipped(SkipReason::TargetReadError) => record_problem(
            store,
            "review",
            review.target_path.to_str(),
            "target read error: unable to read direct target directory",
            now,
        ),
        _ => Ok(()),
    }
}

/// Whether a run is as it was but for its reviews, where it is, and its counts.
pub open spec fn same_run(a: RunState, b: RunState) -> bool {
    &&& a.run_id == b.run_id
    &&& a.started == b.started
    &&& a.source == b.source
    &&& a.generation_id == b.generation_id
    &&& a.reverified == b.reverified
    &&& a.scan_errors == b.scan_errors
    &&& a.discovery_blocks == b.discovery_blocks
    &&& a.coverage_incomplete == b.coverage_incomplete
}

impl RunState {
    /// What the run does next.
    pub fn next_action(&self) -> (action: RunAction)
        ensures
            action == (if self.next >= self.reviews@.len() {
                RunAction::Finish
            } else if self.reviews@[self.next as int].decision == CleanDecision::Cleanable {
                RunAction::Revalidate(self.next)
            } else {
                RunAction::PassOver(self.next)
            }),
    {
        if self.next >= self.reviews.len() {
            RunAction::Finish
        } else if self.reviews[self.next].decision == CleanDecision::Cleanable {
            RunAction::Revalidate(self.next)
        } else {
            RunAction::PassOver(self.next)
        }
    }

    fn set_decision(&mut self, decision: CleanDecision)
        requires
            old(self).next < old(self).reviews@.len(),
        ensures
            final(self).reviews@ == old(self).with_decision(decision),
            same_run(*final(self), *old(self)),
            final(self).next == old(self).next,
            final(self).counts == old(self).counts,
    {
        let i: usize = self.next;
        let ghost before = self.reviews@;
        let mut review = self.reviews.remove(i);
        review.decision = decision;
        self.reviews.insert(i, review);
        assert(self.reviews@ =~= before.update(i as int, ProjectReview { decision, ..before[i as int] }));
    }

    /// Takes the decision on the review that the run is at: the one it has, or the
    /// one that validating it once more gave. Says whether the project is to be
    /// cleaned now.
    pub fn decide(&mut self, store: &mut Store, decision: CleanDecision, now: SystemTime) -> (result: Result<bool, RunError>)
        requires
            old(self).well_formed(),
            old(self).next < old(self).reviews@.len(),
            old(self).reviews@[old(self).next as int].decision != CleanDecision::Cleanable ==> decision == old(
                self,
            ).reviews@[old(self).next as int].decision,
        ensures
            final(self).well_formed(),
            same_run(*final(self), *old(self)),
            final(self).counts == old(self).counts,
            final(self).reviews@ == old(self).with_decision(decision),
            admits_no_more(final(self).reviews@, old(self).reviews@),
            match decision_recorded(old(store)@, old(self).reviews@[old(self).next as int], decision, now@) {
                Err(fault) => result matches Err(error) && error@ == RunFault::Store(fault) && final(store)@
                    == old(store)@ && final(self).next == old(self).next,
                Ok(after) => final(store)@ == after && result == Ok::<bool, RunError>(
                    decision == CleanDecision::Cleanable,
                ) && final(self).next == (if decision == CleanDecision::Cleanable {
                    old(self).next
                } else {
                    (old(self).next + 1) as usize
                }),
            },
            consistent(old(store)@) ==> consistent(final(store)@),
    {
        let ghost before = self.reviews@;
        self.set_decision(decision);
        proof {
            lemma_next_counts(before, self.reviews@, self.next as int);
        }
        match record_read_error(store, &self.reviews[self.next], decision, now) {
            Err(error) => return Err(RunError::Store(error)),
            Ok(_) => {},
        }
        if decision == CleanDecision::Cleanable {
            Ok(true)
        } else {
            assert(self.next < self.reviews.len());
            self.next = self.next + 1;
            Ok(false)
        }
    }
}

// --------------------------------------------------------------------- cleaned

/// How far the records of an attempt have come.
pub struct Chain {
    pub store: StoreModel,
    pub fault: Option<RunFault>,
}

/// One more record, made only where it is wanted and none has failed.
pub open spec fn followed(
    chain: Chain,
    wanted: bool,
    change: spec_fn(StoreModel) -> Result<StoreModel, StoreFault>,
) -> Chain {
    if chain.fault is Some || !wanted {
        chain
    } else {
        match change(chain.store) {
            Ok(store) => Chain { store, fault: None },
            Err(fault) => Chain { store: chain.store, fault: Some(RunFault::Store(fault)) },
        }
    }
}

/// A chain that stops where something is missing.
pub open spec fn needing(chain: Chain, missing: bool, fault: RunFault) -> Chain {
    if chain.fault is None && missing {
        Chain { fault: Some(fault), ..chain }
    } else {
        chain
    }
}

/// The milliseconds of a span, as far as they fit.
pub open spec fn millis(span: Duration) -> i64 {
    ((span@ / 1_000_000) as u128) as i64
}

/// The row of an attempt.
pub open spec fn attempt_row(run_id: i64, path: Seq<u8>, result: CleanResult, outcome: CleanAttemptOutcome) -> EventModel {
    EventModel {
        id: 0,
        run_id,
        ts: 0,
        path: lossy_chars(path),
        bytes_before: result.bytes_before,
        bytes_after: result.bytes_after,
        duration_ms: millis(result.duration),
        exit_code: result.exit_code,
        stderr_excerpt: result.stderr_excerpt@,
        outcome,
        measurement_failed: result.measurement_error is Some,
    }
}

/// What is recorded of an attempt that failed in cargo.
pub open spec fn exit_text(code: i32, stderr_excerpt: Seq<char>) -> Seq<char> {
    let exited = "cargo clean exited "@ + signed_decimal(code as int);
    if stderr_excerpt.len() == 0 {
        exited
    } else {
        exited + ": "@ + stderr_excerpt
    }
}

/// The records of an attempt that was not skipped.
pub open spec fn attempt_recorded(
    store: StoreModel,
    run_id: i64,
    generation_id: Option<i64>,
    review: ProjectReview,
    reverified: bool,
    result: CleanResult,
    now: int,
) -> Chain {
    let path = review.path@;
    match result.outcome {
        None => Chain { store, fault: Some(RunFault::MissingOutcome) },
        Some(outcome) => {
            let event = followed(
                Chain { store, fault: None },
                true,
                |s: StoreModel| attempt_stored(s, attempt_row(run_id, path, result, outcome), now),
            );
            let seen_again = followed(
                event,
                reverified && outcome != CleanAttemptOutcome::RunnerFailure && generation_id is Some
                    && review.reviewed_identity is Some,
                |s: StoreModel|
                    observations_reverified(s, generation_id->0, path, review.reviewed_identity->0),
            );
            let marked = followed(
                seen_again,
                outcome == CleanAttemptOutcome::Success && result.measurement_error is None,
                |s: StoreModel| project_marked(s, path, now),
            );
            let cargo = followed(
                needing(
                    marked,
                    outcome == CleanAttemptOutcome::CargoNonzero && result.exit_code is None,
                    RunFault::MissingExitCode,
                ),
                outcome == CleanAttemptOutcome::CargoNonzero,
                |s: StoreModel|
                    problem_recorded(
                        s,
                        "clean"@,
                        path_text(path),
                        exit_text(result.exit_code->0, result.stderr_excerpt@),
                        now,
                    ),
            );
            let runner = followed(
                needing(
                    cargo,
                    outcome == CleanAttemptOutcome::RunnerFailure && result.attempt_error is None,
                    RunFault::MissingAuditMessage,
                ),
                outcome == CleanAttemptOutcome::RunnerFailure,
                |s: StoreModel|
                    problem_recorded(s, "clean"@, path_text(path), (result.attempt_error->0)@, now),
            );
            followed(
                runner,
                result.measurement_error is Some,
                |s: StoreModel|
                    problem_recorded(s, "clean"@, path_text(path), (result.measurement_error->0)@, now),
            )
        },
    }
}

/// The bytes that an attempt recovered.
pub open spec fn recovered(result: CleanResult) -> int {
    if result.bytes_before > result.bytes_after {
        result.bytes_before - result.bytes_after
    } else {
        0
    }
}

/// The counts after an attempt that was not skipped.
pub open spec fn attempt_counted(counts: RunCounts, result: CleanResult) -> RunCounts {
    let measured = result.measurement_error is None;
    let failed_measurement: int = if measured {
        0
    } else {
        1
    };
    match result.outcome {
        Some(CleanAttemptOutcome::Success) => RunCounts {
            cleaned: (counts.cleaned + if measured {
                1int
            } else {
                0
            }) as i64,
            bytes_recovered: (counts.bytes_recovered + if measured {
                recovered(result)
            } else {
                0
            }) as i64,
            errors: (counts.errors + failed_measurement) as i64,
            measurement_failures: (counts.measurement_failures + failed_measurement) as i64,
            ..counts
        },
        Some(CleanAttemptOutcome::CargoNonzero) => RunCounts {
            errors: (counts.errors + 1 + failed_measurement) as i64,
            cargo_failures: (counts.cargo_failures + 1) as i64,
            measurement_failures: (counts.measurement_failures + failed_measurement) as i64,
            ..counts
        },
        Some(CleanAttemptOutcome::RunnerFailure) => RunCounts {
            errors: (counts.errors + 1 + failed_measurement) as i64,
            cleanup_failures: (counts.cleanup_failures + 1) as i64,
            measurement_failures: (counts.measurement_failures + failed_measurement) as i64,
            ..counts
        },
        None => counts,
    }
}

/// What the end of an attempt comes to: the records, and the counts where all of
/// them were made.
pub open spec fn attempt_ended(
    store: StoreModel,
    run: RunState,
    decision: CleanDecision,
    attempt: Result<CleanResult, String>,
    now: int,
) -> (Chain, RunCounts) {
    let review = ProjectReview { decision, ..run.reviews@[run.next as int] };
    match attempt {
        Ok(result) => if result.skipped {
            (
                followed(
                    Chain { store, fault: None },
                    true,
                    |s: StoreModel| decision_recorded(s, review, decision, now),
                ),
                RunCounts {
                    skipped_by_cleaner: (run.counts.skipped_by_cleaner + if decision == CleanDecision::Cleanable {
                        1int
                    } else {
                        0
                    }) as i64,
                    ..run.counts
                },
            )
        } else {
            (
                attempt_recorded(
                    store,
                    run.run_id,
                    run.generation_id,
                    review,
                    run.reverified@[run.next as int],
                    result,
                    now,
                ),
                attempt_counted(run.counts, result),
            )
        },
        Err(message) => (
            followed(
                Chain { store, fault: None },
                true,
                |s: StoreModel| problem_recorded(s, "clean"@, path_text(review.path@), message@, now),
            ),
            RunCounts {
                errors: (run.counts.errors + 1) as i64,
                cleanup_failures: (run.counts.cleanup_failures + 1) as i64,
                ..run.counts
            },
        ),
    }
}

/// Whether an attempt ended before cargo was run.
pub open spec fn was_skipped(attempt: Result<CleanResult, String>) -> bool {
    attempt matches Ok(result) && result.skipped
}

/// Whether what an attempt recovered is counted: it succeeded and was measured.
pub open spec fn counts_bytes(result: CleanResult) -> bool {
    &&& !result.skipped
    &&& result.outcome == Some(CleanAttemptOutcome::Success)
    &&& result.measurement_error is None
}

/// Whether the bytes that an attempt recovered can be counted, where they are.
pub open spec fn bytes_fit(counts: RunCounts, attempt: Result<CleanResult, String>) -> bool {
    attempt matches Ok(result) ==> counts_bytes(result) ==> {
        &&& i64::MIN <= result.bytes_before - result.bytes_after <= i64::MAX
        &&& counts.bytes_recovered + recovered(result) <= i64::MAX
    }
}

fn record_attempt(
    store: &mut Store,
    run_id: i64,
    generation_id: Option<i64>,
    review: &ProjectReview,
    reverified: bool,
    result: &CleanResult,
    now: SystemTime,
) -> (recorded: Result<(), RunError>)
    ensures
        ({
            let chain = attempt_recorded(old(store)@, run_id, generation_id, *review, reverified, *result, now@);
            &&& final(store)@ == chain.store
            &&& match chain.fault {
                Some(fault) => recorded matches Err(error) && error@ == fault,
                None => recorded is Ok,
            }
        }),
        consistent(old(store)@) ==> consistent(final(store)@),
{
    let outcome = match result.outcome {
        Some(outcome) => outcome,
        None => return Err(RunError::MissingOutcome),
    };
    let event = CleanEvent {
        id: 0,
        run_id,
        ts: now,
        path: review.path.to_string_lossy(),
        bytes_before: result.bytes_before,
        bytes_after: result.bytes_after,
        duration_ms: result.duration.as_millis() as i64,
        exit_code: result.exit_code,
        stderr_excerpt: result.stderr_excerpt.clone(),
        outcome,
        measurement_failed: result.measurement_error.is_some(),
    };
    match store.record_clean_event(&event) {
        Ok(_) => {},
        Err(error) => return Err(RunError::Store(error)),
    }
    if reverified && outcome != CleanAttemptOutcome::RunnerFailure {
        match (generation_id, &review.reviewed_identity) {
            (Some(id), Some(identity)) => match store.mark_observation_reverified(id, &review.path, identity) {
                Ok(_) => {},
                Err(error) => return Err(RunError::Store(error)),
            },
            _ => {},
        }
    }
    match outcome {
        CleanAttemptOutcome::Success => {
            if result.measurement_error.is_none() {
                match store.mark_project_cleaned(&review.path, now) {
                    Ok(_) => {},
                    Err(error) => return Err(RunError::Store(error)),
                }
            }
        },
        CleanAttemptOutcome::CargoNonzero => {
            let code: i32 = match result.exit_code {
                Some(code) => code,
                None => return Err(RunError::MissingExitCode),
            };
            let detail = exit_message(code, result.stderr_excerpt.as_str());
            match record_problem(store, "clean", review.path.to_str(), detail.as_str(), now) {
                Ok(_) => {},
                Err(error) => return Err(RunError::Store(error)),
            }
        },
        CleanAttemptOutcome::RunnerFailure => match &result.attempt_error {
            None => return Err(RunError::MissingAuditMessage),
            Some(message) => match record_problem(store, "clean", review.path.to_str(), message.as_str(), now) {
                Ok(_) => {},
                Err(error) => return Err(RunError::Store(error)),
            },
        },
    }
    match &result.measurement_error {
        Some(message) => match record_problem(store, "clean", review.path.to_str(), message.as_str(), now) {
            Ok(_) => {},
            Err(error) => return Err(RunError::Store(error)),
        },
        None => {},
    }
    Ok(())
}

impl RunState {
    fn count_attempt(&mut self, result: &CleanResult)
        requires
            old(self).well_formed(),
            old(self).next < old(self).reviews@.len(),
            !result.skipped,
            counts_bytes(*result) ==> {
                &&& i64::MIN <= result.bytes_before - result.bytes_after <= i64::MAX
                &&& old(self).counts.bytes_recovered + recovered(*result) <= i64::MAX
            },
        ensures
            final(self).counts == attempt_counted(old(self).counts, *result),
            counts_within(final(self).counts, old(self).cleanable_so_far() + 1),
            final(self).reviews == old(self).reviews,
            final(self).next == old(self).next,
            same_run(*final(self), *old(self)),
    {
        proof {
            lemma_cleanable_bounded(self.reviews@, self.next as int);
        }
        let mut counts = self.counts;
        match result.outcome {
            Some(CleanAttemptOutcome::Success) => {
                if result.measurement_error.is_none() {
                    counts.cleaned = counts.cleaned + 1;
                    let gained: i64 = result.bytes_before - result.bytes_after;
                    if gained > 0 {
                        counts.bytes_recovered = counts.bytes_recovered + gained;
                    }
                }
            },
            Some(CleanAttemptOutcome::CargoNonzero) => {
                counts.errors = counts.errors + 1;
                counts.cargo_failures = counts.cargo_failures + 1;
            },
            Some(CleanAttemptOutcome::RunnerFailure) => {
                counts.errors = counts.errors + 1;
                counts.cleanup_failures = counts.cleanup_failures + 1;
            },
            None => {},
        }
        if result.measurement_error.is_some() && result.outcome.is_some() {
            counts.errors = counts.errors + 1;
            counts.measurement_failures = counts.measurement_failures + 1;
        }
        self.counts = counts;
    }

    /// Accounts for the attempt on the review that the run is at, which was cleanable when
    /// the attempt began; `decision` is what the validation immediately before cargo left
    /// of it.
    pub fn cleaned(
        &mut self,
        store: &mut Store,
        decision: CleanDecision,
        attempt: Result<CleanResult, String>,
        now: SystemTime,
    ) -> (result: Result<(), RunError>)
        requires
            old(self).well_formed(),
            old(self).next < old(self).reviews@.len(),
            old(self).reviews@[old(self).next as int].decision == CleanDecision::Cleanable,
            decision != CleanDecision::Cleanable ==> was_skipped(attempt),
            bytes_fit(old(self).counts, attempt),
        ensures
            final(self).well_formed(),
            same_run(*final(self), *old(self)),
            final(self).reviews@ == old(self).with_decision(decision),
            admits_no_more(final(self).reviews@, old(self).reviews@),
            final(store)@ == attempt_ended(old(store)@, *old(self), decision, attempt, now@).0.store,
            match attempt_ended(old(store)@, *old(self), decision, attempt, now@).0.fault {
                Some(fault) => result matches Err(error) && error@ == fault && final(self).next == old(self).next
                    && final(self).counts == old(self).counts,
                None => result is Ok && final(self).next == old(self).next + 1 && final(self).counts == attempt_ended(
                    old(store)@,
                    *old(self),
                    decision,
                    attempt,
                    now@,
                ).1,
            },
            consistent(old(store)@) ==> consistent(final(store)@),
    {
        let ghost before = *self;
        self.set_decision(decision);
        let i: usize = self.next;
        let ghost review = ProjectReview { decision, ..before.reviews@[i as int] };
        assert(self.reviews@[i as int] == review);
        proof {
            lemma_next_counts(before.reviews@, self.reviews@, i as int);
            lemma_cleanable_bounded(self.reviews@, i as int);
        }
        match attempt {
            Ok(done) => {
                if done.skipped {
                    match record_read_error(store, &self.reviews[i], decision, now) {
                        Ok(_) => {},
                        Err(error) => return Err(RunError::Store(error)),
                    }
                    if decision == CleanDecision::Cleanable {
                        let mut counts = self.counts;
                        counts.skipped_by_cleaner = counts.skipped_by_cleaner + 1;
                        self.counts = counts;
                    }
                } else {
                    match record_attempt(
                        store,
                        self.run_id,
                        self.generation_id,
                        &self.reviews[i],
                        self.reverified[i],
                        &done,
                        now,
                    ) {
                        Ok(_) => {},
                        Err(error) => return Err(error),
                    }
                    self.count_attempt(&done);
                }
            },
            Err(message) => {
                match record_problem(store, "clean", self.reviews[i].path.to_str(), message.as_str(), now) {
                    Ok(_) => {},
                    Err(error) => return Err(RunError::Store(error)),
                }
                let mut counts = self.counts;
                counts.errors = counts.errors + 1;
                counts.cleanup_failures = counts.cleanup_failures + 1;
                self.counts = counts;
            },
        }
        assert(i < self.reviews.len());
        self.next = i + 1;
        Ok(())
    }
}

// ---------------------------------------------------------------------- finish

/// What a finished run comes to.
pub open spec fn run_result(run: RunState, skipped: int) -> RunCycleResult {
    RunCycleResult {
        run_id: run.run_id,
        cleaned: run.counts.cleaned,
        skipped: skipped as i64,
        bytes_recovered: run.counts.bytes_recovered,
        errors: run.counts.errors,
        cargo_failures: run.counts.cargo_failures,
        measurement_failures: run.counts.measurement_failures,
        cleanup_failures: run.counts.cleanup_failures,
        coverage_incomplete: run.coverage_incomplete,
    }
}

/// The store after a run has finished, or how far that came.
pub open spec fn run_closed(store: StoreModel, run: RunState, summary: ReviewSummary, now: int) -> (StoreModel, Option<StoreFault>) {
    match epoch_of(run.started@) {
        None => (store, Some(StoreFault::BeforeEpoch)),
        Some(secs) => {
            let reviewed = review_recorded(store, secs, source_label(run.source), summary);
            match epoch_of(now) {
                None => (reviewed, Some(StoreFault::BeforeEpoch)),
                Some(finished) => (
                    run_finished(
                        reviewed,
                        run.run_id,
                        finished,
                        run.counts.cleaned,
                        run.counts.bytes_recovered,
                        run.counts.errors,
                    ),
                    None,
                ),
            }
        },
    }
}

impl RunState {
    /// Finishes the run: records the review and what the run did.
    pub fn finish(&self, store: &mut Store, now: SystemTime) -> (result: Result<RunCycleResult, RunError>)
        requires
            self.well_formed(),
            self.next == self.reviews@.len(),
            cleanable_bytes_in(self.reviews@) <= u64::MAX,
        ensures
            result matches Ok(done) ==> 0 <= done.cleaned && 0 <= done.skipped && done.cleaned + done.skipped
                + done.cargo_failures + done.cleanup_failures <= self.reviews@.len(),
            exists|summary: ReviewSummary| #[trigger]
                summarizes(summary, self.reviews@) && final(store)@ == run_closed(old(store)@, *self, summary, now@).0
                    && match run_closed(old(store)@, *self, summary, now@).1 {
                    Some(fault) => result matches Err(error) && error@ == RunFault::Store(fault),
                    None => result == Ok::<RunCycleResult, RunError>(
                        run_result(*self, summary.skipped_projects + self.counts.skipped_by_cleaner),
                    ),
                },
            consistent(old(store)@) ==> consistent(final(store)@),
    {
        proof {
            lemma_cleanable_bounded(self.reviews@, self.next as int);
            assert(self.reviews@.take(self.next as int) =~= self.reviews@);
        }
        let summary = review_summary(&self.reviews);
        let skipped: i64 = summary.skipped_projects as i64 + self.counts.skipped_by_cleaner;
        assert(summarizes(summary, self.reviews@));
        match store.record_review_status(self.started, self.source.label(), &summary) {
            Ok(_) => {},
            Err(error) => return Err(RunError::Store(error)),
        }
        match store.finish_run(
            self.run_id,
            now,
            self.counts.cleaned,
            self.counts.bytes_recovered,
            self.counts.errors,
        ) {
            Ok(_) => {},
            Err(error) => return Err(RunError::Store(error)),
        }
        Ok(
            RunCycleResult {
                run_id: self.run_id,
                cleaned: self.counts.cleaned,
                skipped,
                bytes_recovered: self.counts.bytes_recovered,
                errors: self.counts.errors,
                cargo_failures: self.counts.cargo_failures,
                measurement_failures: self.counts.measurement_failures,
                cleanup_failures: self.counts.cleanup_failures,
                coverage_incomplete: self.coverage_incomplete,
            },
        )
    }
}

// ------------------------------------------------------------------------ laws

/// The errors of a run are its failures in cargo, in measuring and in cleaning
/// otherwise; each project is cleaned, skipped or failed once at most, and only one that was
/// cleanable to the last.
pub proof fn errors_are_failures(run: RunState, skipped: int)
    requires
        run.well_formed(),
    ensures
        ({
            let result = run_result(run, skipped);
            &&& result.errors == result.cargo_failures + result.measurement_failures + result.cleanup_failures
            &&& result.cleaned + run.counts.skipped_by_cleaner + result.cargo_failures + result.cleanup_failures
                <= cleanable_in(run.reviews@)
            &&& result.measurement_failures <= cleanable_in(run.reviews@) <= run.reviews@.len()
        }),
{
    lemma_cleanable_bounded(run.reviews@, run.next as int);
}

/// A project that was not cleanable when a run came to it is passed over with the decision
/// it had, and nothing is counted as done to it.
pub proof fn refused_projects_are_passed_over(run: RunState)
    requires
        run.well_formed(),
        run.next < run.reviews@.len(),
        run.reviews@[run.next as int].decision != CleanDecision::Cleanable,
    ensures
        ({
            let decision = run.reviews@[run.next as int].decision;
            &&& run.with_decision(decision) == run.reviews@
            &&& cleanable_in(run.reviews@.take(run.next + 1)) == run.cleanable_so_far()
        }),
{
    let decision = run.reviews@[run.next as int].decision;
    assert(run.with_decision(decision) =~= run.reviews@);
    lemma_next_counts(run.reviews@, run.reviews@, run.next as int);
}

/// Only an attempt that succeeded and was measured counts as cleaned and recovers
/// bytes.
pub proof fn only_measured_successes_count(counts: RunCounts, result: CleanResult)
    requires
        counts_within(counts, 0x1000_0000_0000_0000),
        0 <= counts.bytes_recovered + recovered(result) <= i64::MAX,
    ensures
        attempt_counted(counts, result).cleaned == counts.cleaned + 1 || attempt_counted(counts, result).cleaned
            == counts.cleaned,
        attempt_counted(counts, result).cleaned == counts.cleaned + 1 <==> result.outcome == Some(
            CleanAttemptOutcome::Success,
        ) && result.measurement_error is None,
        attempt_counted(counts, result).cleaned == counts.cleaned ==> attempt_counted(counts, result).bytes_recovered
            == counts.bytes_recovered,
{
}

} // verus!
