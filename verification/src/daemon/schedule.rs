//! When the background process acts.

use crate::daemon::DaemonOptions;
use crate::store::generations::current_generation_of;
use crate::store::history::{
    latest_completed_run, lemma_completed_runs_have_finished, lemma_latest_completed_run, lemma_no_completed_run, run_after,
};
use crate::store::rows::{SchedulerRow, SchedulerStatus};
use crate::store::scheduler::{forced, retry_cleared, scheduled, three_epochs, with_scheduler};
use crate::store::{epoch_of, time_of, Store, StoreError, StoreFault, StoreModel};
use crate::time::{representable, Duration, SystemTime};
use crate::store::keys::consistent;
use vstd::prelude::*;

verus! {

/// The least time between two forced scans, in seconds.
pub const FORCED_SCAN_MIN_INTERVAL_SECS: u64 = 300;

/// The longest time to wait without looking at the clock, in milliseconds.
pub const WAIT_CHUNK_MILLIS: u64 = 250;

/// The lesser of two points in time.
pub open spec fn earlier(a: int, b: int) -> int {
    if b < a {
        b
    } else {
        a
    }
}

/// The greater of two points in time.
pub open spec fn later(a: int, b: int) -> int {
    if b >= a {
        b
    } else {
        a
    }
}

fn earlier_time(a: SystemTime, b: SystemTime) -> (time: SystemTime)
    ensures
        time@ == earlier(a@, b@),
{
    if b.is_before(&a) {
        b
    } else {
        a
    }
}

fn later_time(a: SystemTime, b: SystemTime) -> (time: SystemTime)
    ensures
        time@ == later(a@, b@),
{
    if b.is_before(&a) {
        a
    } else {
        b
    }
}

/// A time at which the next scan is due, but not later than an interval from now.
pub fn clamp_next_scan_at(persisted: SystemTime, now: SystemTime, interval: Duration) -> (time: SystemTime)
    requires
        representable(now@ + interval@),
    ensures
        time@ == earlier(persisted@, now@ + interval@),
{
    match now.checked_add(interval) {
        Some(limit) => earlier_time(persisted, limit),
        None => persisted,
    }
}

/// How long to wait before looking at the clock again; `None` where the deadline
/// has been reached.
pub fn wall_clock_wait_chunk(deadline: SystemTime, now: SystemTime) -> (wait: Option<Duration>)
    ensures
        wait is Some <==> now@ < deadline@,
        wait matches Some(span) ==> span@ == earlier(deadline@ - now@, WAIT_CHUNK_MILLIS * 1_000_000),
{
    match deadline.duration_since(&now) {
        None => None,
        Some(remaining) => {
            if remaining.is_zero() {
                None
            } else {
                let chunk = Duration::from_millis(WAIT_CHUNK_MILLIS);
                Some(
                    if chunk.is_shorter(&remaining) {
                        chunk
                    } else {
                        remaining
                    },
                )
            }
        },
    }
}

/// A wait ends at the deadline or before it, and never takes longer than a chunk.
pub proof fn waits_are_short(deadline: int, now: int)
    requires
        now < deadline,
    ensures
        now < now + earlier(deadline - now, WAIT_CHUNK_MILLIS * 1_000_000) <= deadline,
        earlier(deadline - now, WAIT_CHUNK_MILLIS * 1_000_000) <= WAIT_CHUNK_MILLIS * 1_000_000,
{
}

// ------------------------------------------------------------------- outcomes

/// The times of a schedule.
pub struct ScheduleView {
    pub updated_at: int,
    pub next_clean_at: int,
    pub next_scan_at: int,
}

impl View for SchedulerStatus {
    type V = ScheduleView;

    open spec fn view(&self) -> ScheduleView {
        ScheduleView {
            updated_at: self.updated_at@,
            next_clean_at: self.next_clean_at@,
            next_scan_at: self.next_scan_at@,
        }
    }
}

/// What a change of the schedule comes to.
pub struct Rescheduled {
    pub store: StoreModel,
    pub schedule: ScheduleView,
    pub fault: Option<StoreFault>,
}

/// The schedule as it is, with nothing wrong.
pub open spec fn unchanged(store: StoreModel, schedule: ScheduleView) -> Rescheduled {
    Rescheduled { store, schedule, fault: None }
}

/// The store with the times of the scheduler recorded.
pub open spec fn status_recorded(store: StoreModel, updated_at: int, next_clean_at: int, next_scan_at: int) -> Result<
    StoreModel,
    StoreFault,
> {
    match three_epochs(updated_at, next_clean_at, next_scan_at) {
        Some((updated, clean, scan)) => Ok(
            with_scheduler(store, scheduled(store.scheduler_state, updated, clean, scan)),
        ),
        None => Err(StoreFault::BeforeEpoch),
    }
}

/// A schedule recorded with the time at which it was made.
pub open spec fn recorded(store: StoreModel, schedule: ScheduleView, updated_at: int) -> Rescheduled {
    match status_recorded(store, updated_at, schedule.next_clean_at, schedule.next_scan_at) {
        Ok(after) => Rescheduled { store: after, schedule, fault: None },
        Err(fault) => Rescheduled { store, schedule, fault: Some(fault) },
    }
}

/// The schedule with the next scan at another time, recorded where it differs.
pub open spec fn scan_moved(store: StoreModel, schedule: ScheduleView, next_scan_at: int, now: int) -> Rescheduled {
    if schedule.next_scan_at == next_scan_at {
        unchanged(store, schedule)
    } else {
        recorded(store, ScheduleView { next_scan_at, ..schedule }, now)
    }
}

/// The time that optional seconds stand for.
pub open spec fn optional_time_of(secs: Option<i64>) -> Option<int> {
    match secs {
        Some(s) => Some(time_of(s)),
        None => None,
    }
}

/// When a failed scan is tried again.
pub open spec fn retry_time(store: StoreModel) -> Option<int> {
    match store.scheduler_state {
        Some(row) => optional_time_of(row.scan_retry_at),
        None => None,
    }
}

/// When a scan was last forced.
pub open spec fn forced_time(store: StoreModel) -> Option<int> {
    match store.scheduler_state {
        Some(row) => optional_time_of(row.last_forced_scan_at),
        None => None,
    }
}

/// The least time between two forced scans.
pub open spec fn forced_interval() -> int {
    FORCED_SCAN_MIN_INTERVAL_SECS * 1_000_000_000
}

/// Whether a scan may be forced: none was, or long enough ago.
pub open spec fn may_force(store: StoreModel, now: int) -> bool {
    match forced_time(store) {
        None => true,
        Some(last) => now - last >= forced_interval(),
    }
}

/// When a scan may be forced next.
pub open spec fn next_forced(last: int, now: int) -> int {
    if representable(last + forced_interval()) {
        last + forced_interval()
    } else if representable(now + forced_interval()) {
        now + forced_interval()
    } else {
        now
    }
}

/// The schedule where no generation of the policy is valid: a scan is forced, but
/// not while a retry is pending and not too often.
pub open spec fn missing_scan_scheduled(
    store: StoreModel,
    schedule: ScheduleView,
    policy_hash: Option<Seq<char>>,
    now: int,
) -> Rescheduled {
    match policy_hash {
        None => unchanged(store, schedule),
        Some(hash) => if current_generation_of(store.discovery_generations, hash) is Some {
            unchanged(store, schedule)
        } else {
            match retry_time(store) {
                Some(retry) => if retry > now {
                    scan_moved(store, schedule, retry, now)
                } else {
                    scan_forced(retry_cleared(store), schedule, now)
                },
                None => scan_forced(store, schedule, now),
            }
        },
    }
}

/// The schedule with a forced scan as soon as one may be forced.
pub open spec fn scan_forced(store: StoreModel, schedule: ScheduleView, now: int) -> Rescheduled {
    if may_force(store, now) {
        match epoch_of(now) {
            None => Rescheduled { store, schedule, fault: Some(StoreFault::BeforeEpoch) },
            Some(secs) => scan_moved(
                with_scheduler(store, forced(store.scheduler_state, secs)),
                schedule,
                now,
                now,
            ),
        }
    } else {
        scan_moved(store, schedule, next_forced(forced_time(store)->0, now), now)
    }
}

/// Whether a change of the schedule went as specified.
pub open spec fn went_as(
    result: Result<(), StoreError>,
    store: StoreModel,
    schedule: ScheduleView,
    specified: Rescheduled,
) -> bool {
    &&& store == specified.store
    &&& schedule == specified.schedule
    &&& match specified.fault {
        Some(fault) => result matches Err(error) && error@ == fault,
        None => result is Ok,
    }
}

fn move_scan(store: &mut Store, schedule: &mut SchedulerStatus, next_scan_at: SystemTime, now: SystemTime) -> (result: Result<
    (),
    StoreError,
>)
    ensures
        went_as(result, final(store)@, final(schedule)@, scan_moved(old(store)@, old(schedule)@, next_scan_at@, now@)),
{
    if schedule.next_scan_at.is_same(&next_scan_at) {
        return Ok(());
    }
    schedule.next_scan_at = next_scan_at;
    store.record_scheduler_status(now, schedule.next_clean_at, schedule.next_scan_at)
}

fn force_scan(store: &mut Store, schedule: &mut SchedulerStatus, now: SystemTime) -> (result: Result<(), StoreError>)
    ensures
        went_as(result, final(store)@, final(schedule)@, scan_forced(old(store)@, old(schedule)@, now@)),
{
    let interval = Duration::from_secs(FORCED_SCAN_MIN_INTERVAL_SECS);
    let next_scan_at = match store.last_forced_scan_at() {
        None => now,
        Some(last) => {
            let elapsed = match now.duration_since(&last) {
                Some(span) => !span.is_shorter(&interval),
                None => false,
            };
            if elapsed {
                now
            } else {
                let next = match last.checked_add(interval) {
                    Some(time) => time,
                    None => match now.checked_add(interval) {
                        Some(time) => time,
                        None => now,
                    },
                };
                return move_scan(store, schedule, next, now);
            }
        },
    };
    match store.record_forced_scan_at(now) {
        Ok(_) => move_scan(store, schedule, next_scan_at, now),
        Err(error) => Err(error),
    }
}

/// Schedules a scan where no generation of the policy is valid.
pub fn schedule_missing_generation_scan(
    store: &mut Store,
    schedule: &mut SchedulerStatus,
    policy_hash: Option<&str>,
    now: SystemTime,
) -> (result: Result<(), StoreError>)
    ensures
        went_as(
            result,
            final(store)@,
            final(schedule)@,
            missing_scan_scheduled(
                old(store)@,
                old(schedule)@,
                match policy_hash {
                    Some(hash) => Some(hash@),
                    None => None,
                },
                now@,
            ),
        ),
        consistent(old(store)@) ==> consistent(final(store)@),
{
    match policy_hash {
        None => return Ok(()),
        Some(hash) => {
            if store.has_matching_generation(hash) {
                return Ok(());
            }
        },
    }
    match store.scan_retry_at() {
        Some(retry_at) => {
            if now.is_before(&retry_at) {
                return move_scan(store, schedule, retry_at, now);
            }
            store.clear_scan_retry_at();
        },
        None => {},
    }
    force_scan(store, schedule, now)
}

/// When a scan that failed is tried again.
pub open spec fn retry_after_failure(store: StoreModel, policy_hash: Seq<char>, interval: int, now: int) -> int {
    let second = 1_000_000_000int;
    let retry = now + later(interval, second);
    if current_generation_of(store.discovery_generations, policy_hash) is Some {
        retry
    } else {
        match forced_time(store) {
            Some(last) => later(
                retry,
                if representable(last + forced_interval()) {
                    last + forced_interval()
                } else {
                    last
                },
            ),
            None => retry,
        }
    }
}

/// The schedule after a scan has failed: neither a scan nor a cleanup before the
/// scan is tried again.
pub open spec fn failure_deferred(
    store: StoreModel,
    schedule: ScheduleView,
    policy_hash: Seq<char>,
    interval: int,
    now: int,
) -> Rescheduled {
    let retry = retry_after_failure(store, policy_hash, interval, now);
    let moved = ScheduleView {
        next_scan_at: retry,
        next_clean_at: later(schedule.next_clean_at, retry),
        ..schedule
    };
    match (epoch_of(retry), store.scheduler_state) {
        (None, _) => Rescheduled { store, schedule: moved, fault: Some(StoreFault::BeforeEpoch) },
        (Some(secs), None) => Rescheduled { store, schedule: moved, fault: Some(StoreFault::NoSchedulerState) },
        (Some(secs), Some(row)) => recorded(
            with_scheduler(store, SchedulerRow { scan_retry_at: Some(secs), ..row }),
            moved,
            now,
        ),
    }
}

/// Puts off scans and cleanups after a scan has failed.
pub fn defer_after_scan_failure(
    store: &mut Store,
    schedule: &mut SchedulerStatus,
    policy_hash: &str,
    scan_interval: Duration,
    now: SystemTime,
) -> (result: Result<(), StoreError>)
    requires
        representable(now@ + later(scan_interval@ as int, 1_000_000_000)),
    ensures
        went_as(
            result,
            final(store)@,
            final(schedule)@,
            failure_deferred(old(store)@, old(schedule)@, policy_hash@, scan_interval@ as int, now@),
        ),
        consistent(old(store)@) ==> consistent(final(store)@),
{
    let second = Duration::from_secs(1);
    let delay = if scan_interval.is_shorter(&second) {
        second
    } else {
        scan_interval
    };
    let mut retry_at = match now.checked_add(delay) {
        Some(time) => time,
        None => now,
    };
    if !store.has_matching_generation(policy_hash) {
        match store.last_forced_scan_at() {
            Some(last) => {
                let forced_again = match last.checked_add(Duration::from_secs(FORCED_SCAN_MIN_INTERVAL_SECS)) {
                    Some(time) => time,
                    None => last,
                };
                retry_at = later_time(retry_at, forced_again);
            },
            None => {},
        }
    }
    assert(retry_at@ == retry_after_failure(store@, policy_hash@, scan_interval@ as int, now@));
    schedule.next_scan_at = retry_at;
    schedule.next_clean_at = later_time(schedule.next_clean_at, retry_at);
    match store.record_scan_retry_at(retry_at) {
        Ok(_) => store.record_scheduler_status(now, schedule.next_clean_at, schedule.next_scan_at),
        Err(error) => Err(error),
    }
}

/// When a cleanup is first due: an interval after the last run that completed, or from
/// now where none has.
pub open spec fn first_clean_at(store: StoreModel, clean_interval: int, now: int) -> int {
    match latest_completed_run(store.runs) {
        Some(run) => time_of(run.finished_at->0) + clean_interval,
        None => now + clean_interval,
    }
}

/// The schedule that a process starts with: the stored one with its scan not too
/// far off, or a new one.
pub open spec fn started(store: StoreModel, clean_interval: int, scan_interval: int, now: int) -> Rescheduled {
    match store.scheduler_state {
        Some(row) => {
            let stored = ScheduleView {
                updated_at: time_of(row.updated_at),
                next_clean_at: time_of(row.next_clean_at),
                next_scan_at: time_of(row.next_scan_at),
            };
            let next = earlier(stored.next_scan_at, now + scan_interval);
            scan_moved(store, stored, next, stored.updated_at)
        },
        None => recorded(
            store,
            ScheduleView {
                updated_at: now,
                next_clean_at: first_clean_at(store, clean_interval, now),
                next_scan_at: now + scan_interval,
            },
            now,
        ),
    }
}

/// Whether the times of the schedule that a process starts with can be represented.
pub open spec fn intervals_fit(store: StoreModel, clean_interval: int, scan_interval: int, now: int) -> bool {
    &&& representable(now + scan_interval)
    &&& store.scheduler_state is None ==> representable(first_clean_at(store, clean_interval, now))
}

/// The schedule that a process starts with.
pub fn scheduler_status_or_initialize(store: &mut Store, options: DaemonOptions, now: SystemTime) -> (result: Result<
    SchedulerStatus,
    StoreError,
>)
    requires
        intervals_fit(old(store)@, options.clean_interval@ as int, options.scan_interval@ as int, now@),
    ensures
        ({
            let specified = started(
                old(store)@,
                options.clean_interval@ as int,
                options.scan_interval@ as int,
                now@,
            );
            &&& final(store)@ == specified.store
            &&& match specified.fault {
                Some(fault) => result matches Err(error) && error@ == fault,
                None => result matches Ok(schedule) && schedule@ == specified.schedule,
            }
        }),
        consistent(old(store)@) ==> consistent(final(store)@),
{
    match store.scheduler_status() {
        Some(status) => {
            let mut schedule = status;
            let next = clamp_next_scan_at(status.next_scan_at, now, options.scan_interval);
            match move_scan(store, &mut schedule, next, status.updated_at) {
                Ok(_) => Ok(schedule),
                Err(error) => Err(error),
            }
        },
        None => {
            let from = match store.last_completed_run() {
                Some(run) => match run.finished_at {
                    Some(finished) => finished,
                    None => now,
                },
                None => now,
            };
            proof {
                lemma_completed_runs_have_finished(store@.runs);
            }
            let next_clean_at = match from.checked_add(options.clean_interval) {
                Some(time) => time,
                None => now,
            };
            let next_scan_at = match now.checked_add(options.scan_interval) {
                Some(time) => time,
                None => now,
            };
            match store.record_scheduler_status(now, next_clean_at, next_scan_at) {
                Ok(_) => Ok(SchedulerStatus { updated_at: now, next_clean_at, next_scan_at }),
                Err(error) => Err(error),
            }
        },
    }
}

// ------------------------------------------------------------------------ due

/// What is due.
#[derive(Debug, Clone, Copy, PartialEq, Eq, Structural)]
pub struct DueWork {
    pub scan: bool,
    pub clean: bool,
}

/// When something is due next.
pub fn next_due(schedule: &SchedulerStatus) -> (time: SystemTime)
    ensures
        time@ == earlier(schedule@.next_clean_at, schedule@.next_scan_at),
{
    earlier_time(schedule.next_clean_at, schedule.next_scan_at)
}

/// What is due now.
pub fn due_work(schedule: &SchedulerStatus, now: SystemTime) -> (work: DueWork)
    ensures
        work.scan == (now@ >= schedule@.next_scan_at),
        work.clean == (now@ >= schedule@.next_clean_at),
{
    DueWork { scan: !now.is_before(&schedule.next_scan_at), clean: !now.is_before(&schedule.next_clean_at) }
}

/// Whether a process scans before it waits: where no generation of the policy is
/// valid and a scan is due.
pub fn scans_at_start(store: &Store, schedule: &SchedulerStatus, policy_hash: Option<&str>, now: SystemTime) -> (scans: bool)
    ensures
        scans == match policy_hash {
            None => false,
            Some(hash) => current_generation_of(store@.discovery_generations, hash@) is None && now@
                >= schedule@.next_scan_at,
        },
{
    match policy_hash {
        None => false,
        Some(hash) => !store.has_matching_generation(hash) && !now.is_before(&schedule.next_scan_at),
    }
}

/// Forgets a pending retry and schedules the next scan after one that succeeded.
pub fn scan_succeeded(store: &mut Store, schedule: &mut SchedulerStatus, scan_interval: Duration, now: SystemTime)
    requires
        representable(now@ + scan_interval@),
    ensures
        final(store)@ == retry_cleared(old(store)@),
        final(schedule)@ == (ScheduleView { next_scan_at: now@ + scan_interval@, ..old(schedule)@ }),
        consistent(old(store)@) ==> consistent(final(store)@),
{
    store.clear_scan_retry_at();
    schedule.next_scan_at = match now.checked_add(scan_interval) {
        Some(time) => time,
        None => now,
    };
}

/// Schedules the next cleanup after one that ran.
pub fn clean_finished(schedule: &mut SchedulerStatus, clean_interval: Duration, now: SystemTime)
    requires
        representable(now@ + clean_interval@),
    ensures
        final(schedule)@ == (ScheduleView { next_clean_at: now@ + clean_interval@, ..old(schedule)@ }),
{
    schedule.next_clean_at = match now.checked_add(clean_interval) {
        Some(time) => time,
        None => now,
    };
}

// ----------------------------------------------------------------------- laws

/// Once something is due, a wait for it is over.
pub proof fn due_work_is_not_waited_for(schedule: ScheduleView, now: int)
    ensures
        (now >= schedule.next_scan_at || now >= schedule.next_clean_at) <==> !(now < earlier(
            schedule.next_clean_at,
            schedule.next_scan_at,
        )),
{
}

/// Two forced scans are never closer than the least time between them: while the
/// last one is more recent, forcing leaves the record of it alone.
pub proof fn forced_scans_keep_their_distance(store: StoreModel, schedule: ScheduleView, hash: Seq<char>, now: int)
    requires
        forced_time(store) is Some,
        now - forced_time(store)->0 < forced_interval(),
    ensures
        forced_time(missing_scan_scheduled(store, schedule, Some(hash), now).store) == forced_time(store),
{
}

/// After a scan has failed, neither a scan nor a cleanup is due before the retry.
pub proof fn failed_scans_defer_cleanups(
    store: StoreModel,
    schedule: ScheduleView,
    policy_hash: Seq<char>,
    interval: int,
    now: int,
)
    requires
        interval >= 0,
    ensures
        failure_deferred(store, schedule, policy_hash, interval, now).schedule.next_scan_at > now,
        failure_deferred(store, schedule, policy_hash, interval, now).schedule.next_clean_at
            >= failure_deferred(store, schedule, policy_hash, interval, now).schedule.next_scan_at,
{
}

/// A scan that failed is tried again an interval later, at least a second later: where
/// there is no valid discovery and a scan was forced, not before the next one may be.
pub proof fn failed_scans_are_tried_again(
    store: StoreModel,
    schedule: ScheduleView,
    policy_hash: Seq<char>,
    interval: int,
    now: int,
)
    requires
        interval >= 0,
    ensures
        failure_deferred(store, schedule, policy_hash, interval, now).schedule.next_scan_at >= now + interval,
        failure_deferred(store, schedule, policy_hash, interval, now).schedule.next_scan_at >= now + 1_000_000_000,
        current_generation_of(store.discovery_generations, policy_hash) is Some || forced_time(store) is None ==> {
            ||| failure_deferred(store, schedule, policy_hash, interval, now).schedule.next_scan_at == now + interval
            ||| failure_deferred(store, schedule, policy_hash, interval, now).schedule.next_scan_at == now + 1_000_000_000
        },
        current_generation_of(store.discovery_generations, policy_hash) is None && (forced_time(store) matches Some(last)
            && representable(last + forced_interval())) ==> {
            let next = failure_deferred(store, schedule, policy_hash, interval, now).schedule.next_scan_at;
            &&& next >= forced_time(store)->0 + forced_interval()
            &&& next == now + interval || next == now + 1_000_000_000 || next == forced_time(store)->0 + forced_interval()
        },
{
}

/// Without a stored schedule the first cleanup comes an interval after the last run that
/// completed, whatever runs were broken off since.
pub proof fn first_cleanups_follow_the_last_completed_run(
    store: StoreModel,
    clean_interval: int,
    scan_interval: int,
    now: int,
    i: int,
)
    requires
        store.scheduler_state is None,
        0 <= i < store.runs.len(),
        store.runs[i].finished_at is Some,
        forall|j: int|
            0 <= j < store.runs.len() && j != i && store.runs[j].finished_at is Some ==> run_after(
                store.runs[i],
                #[trigger] store.runs[j],
            ),
    ensures
        ({
            let schedule = started(store, clean_interval, scan_interval, now).schedule;
            &&& schedule.next_clean_at == time_of(store.runs[i].finished_at->0) + clean_interval
            &&& schedule.next_scan_at == now + scan_interval
        }),
{
    lemma_latest_completed_run(store.runs, i);
}

/// Without a stored schedule the first cleanup comes an interval from now where no run has
/// ever completed.
pub proof fn first_cleanups_wait_an_interval(store: StoreModel, clean_interval: int, scan_interval: int, now: int)
    requires
        store.scheduler_state is None,
        forall|i: int| 0 <= i < store.runs.len() ==> (#[trigger] store.runs[i]).finished_at is None,
    ensures
        ({
            let schedule = started(store, clean_interval, scan_interval, now).schedule;
            &&& schedule.next_clean_at == now + clean_interval
            &&& schedule.next_scan_at == now + scan_interval
        }),
{
    lemma_no_completed_run(store.runs);
}

/// A process that starts again goes on with the schedule that was recorded, to the
/// second: it does not wait a full interval anew, and a scan comes no later than an
/// interval from now.
pub proof fn restarts_resume_the_schedule(
    store: StoreModel,
    schedule: ScheduleView,
    updated_at: int,
    clean_interval: int,
    scan_interval: int,
    now: int,
)
    requires
        representable(schedule.next_clean_at),
        representable(schedule.next_scan_at),
        recorded(store, schedule, updated_at).fault is None,
    ensures
        ({
            let again = started(
                recorded(store, schedule, updated_at).store,
                clean_interval,
                scan_interval,
                now,
            ).schedule;
            &&& schedule.next_clean_at - 1_000_000_000 < again.next_clean_at <= schedule.next_clean_at
            &&& again.next_scan_at <= schedule.next_scan_at
            &&& schedule.next_scan_at <= now + scan_interval ==> schedule.next_scan_at - 1_000_000_000
                < again.next_scan_at
            &&& again.next_scan_at <= now + scan_interval
        }),
{
    crate::store::storing_a_time_drops_less_than_a_second(schedule.next_clean_at);
    crate::store::storing_a_time_drops_less_than_a_second(schedule.next_scan_at);
}

} // verus!
