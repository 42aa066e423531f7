//! The turns of the background process: what it does next, from what has happened.

use crate::daemon::schedule::{
    clean_finished, defer_after_scan_failure, due_work, earlier, failure_deferred, intervals_fit, later,
    missing_scan_scheduled, next_due, recorded, scan_succeeded, scans_at_start, schedule_missing_generation_scan,
    scheduler_status_or_initialize, started, Rescheduled, ScheduleView,
};
use crate::daemon::DaemonOptions;
use crate::store::generations::current_generation_of;
use crate::store::rows::{optional_text, SchedulerStatus};
use crate::store::scheduler::retry_cleared;
use crate::store::{Store, StoreError, StoreFault, StoreModel};
use crate::time::{representable, SystemTime};
use crate::store::keys::consistent;
use vstd::prelude::*;

verus! {

/// How far a turn has come.
#[derive(Debug, Clone, Copy, PartialEq, Eq, Structural)]
pub enum Stage {
    /// One turn has ended and the next has not begun.
    Between,
    /// The turn waits for what is due first.
    Waiting,
    /// The turn scans, and cleans afterwards where that is due too.
    Scanning { clean_due: bool },
    /// The turn cleans.
    Cleaning,
    /// There are no more turns.
    Stopped,
}

/// What the process does next.
#[derive(Debug, Clone, Copy, PartialEq, Eq, Structural)]
pub enum NextStep {
    /// Read the settings and begin a turn, or stop where that was requested.
    BeginTurn,
    /// Wait until a point in time, or until a stop is requested.
    WaitUntil(SystemTime),
    /// Scan.
    Scan,
    /// Clean.
    Clean,
    /// Nothing more.
    Stop,
}

/// The background process between two things that it does.
#[derive(Debug)]
pub struct DaemonLoop {
    pub schedule: SchedulerStatus,
    pub stage: Stage,
    pub policy_hash: Option<String>,
    pub options: DaemonOptions,
}

/// What an event comes to.
pub struct Turned {
    pub store: StoreModel,
    pub schedule: ScheduleView,
    pub stage: Stage,
    pub fault: Option<StoreFault>,
}

/// A change of the schedule with the stage after it; a fault ends the turns.
pub open spec fn at_stage(change: Rescheduled, stage: Stage) -> Turned {
    Turned {
        store: change.store,
        schedule: change.schedule,
        stage: if change.fault is Some {
            Stage::Stopped
        } else {
            stage
        },
        fault: change.fault,
    }
}

/// Whether an event came to what is specified.
pub open spec fn turned_as(result: Result<(), StoreError>, store: StoreModel, turns: DaemonLoop, specified: Turned) -> bool {
    &&& store == specified.store
    &&& turns.schedule@ == specified.schedule
    &&& turns.stage == specified.stage
    &&& match specified.fault {
        Some(fault) => result matches Err(error) && error@ == fault,
        None => result is Ok,
    }
}

/// The start of the process: the stored schedule or a new one, with a scan at once where
/// no generation of the policy is valid and one is due.
pub open spec fn loop_started(
    store: StoreModel,
    policy_hash: Option<Seq<char>>,
    clean_interval: int,
    scan_interval: int,
    now: int,
) -> Turned {
    let first = started(store, clean_interval, scan_interval, now);
    if first.fault is Some {
        at_stage(first, Stage::Stopped)
    } else {
        let second = missing_scan_scheduled(first.store, first.schedule, policy_hash, now);
        let scans = policy_hash matches Some(hash) && current_generation_of(second.store.discovery_generations, hash)
            is None && now >= second.schedule.next_scan_at;
        at_stage(
            second,
            if scans {
                Stage::Scanning { clean_due: false }
            } else {
                Stage::Between
            },
        )
    }
}

/// The end of a wait: what is due is done, a scan before a cleanup.
pub open spec fn after_wait(store: StoreModel, schedule: ScheduleView, stopped: bool, now: int) -> Turned {
    let unmoved = Rescheduled { store, schedule, fault: None };
    if stopped {
        at_stage(unmoved, Stage::Stopped)
    } else if now >= schedule.next_scan_at {
        at_stage(unmoved, Stage::Scanning { clean_due: now >= schedule.next_clean_at })
    } else if now >= schedule.next_clean_at {
        at_stage(unmoved, Stage::Cleaning)
    } else {
        at_stage(recorded(store, schedule, now), Stage::Between)
    }
}

/// The end of a scan: after a failure both deadlines are put off and the turn ends.
pub open spec fn after_scan(
    store: StoreModel,
    schedule: ScheduleView,
    clean_due: bool,
    policy_hash: Option<Seq<char>>,
    scan_interval: int,
    succeeded: bool,
    now: int,
) -> Turned {
    if !succeeded {
        at_stage(
            failure_deferred(
                store,
                schedule,
                match policy_hash {
                    Some(hash) => hash,
                    None => ""@,
                },
                scan_interval,
                now,
            ),
            Stage::Between,
        )
    } else {
        let cleared = retry_cleared(store);
        let moved = ScheduleView { next_scan_at: now + scan_interval, ..schedule };
        if clean_due {
            at_stage(Rescheduled { store: cleared, schedule: moved, fault: None }, Stage::Cleaning)
        } else {
            at_stage(recorded(cleared, moved, now), Stage::Between)
        }
    }
}

/// The end of a cleanup: the next one is an interval away.
pub open spec fn after_clean(store: StoreModel, schedule: ScheduleView, clean_interval: int, now: int) -> Turned {
    at_stage(
        recorded(store, ScheduleView { next_clean_at: now + clean_interval, ..schedule }, now),
        Stage::Between,
    )
}

impl DaemonLoop {
    /// The process as it starts, with its schedule in the store.
    pub fn start(store: &mut Store, policy_hash: Option<String>, options: DaemonOptions, now: SystemTime) -> (result: Result<
        DaemonLoop,
        StoreError,
    >)
        requires
            intervals_fit(old(store)@, options.clean_interval@ as int, options.scan_interval@ as int, now@),
        ensures
            ({
                let specified = loop_started(
                    old(store)@,
                    optional_text(policy_hash),
                    options.clean_interval@ as int,
                    options.scan_interval@ as int,
                    now@,
                );
                &&& final(store)@ == specified.store
                &&& match specified.fault {
                    Some(fault) => result matches Err(error) && error@ == fault,
                    None => {
                        &&& result matches Ok(turns)
                        &&& turns.schedule@ == specified.schedule
                        &&& turns.stage == specified.stage
                        &&& turns.policy_hash == policy_hash
                        &&& turns.options == options
                    },
                }
            }),
            consistent(old(store)@) ==> consistent(final(store)@),
    {
        let mut schedule = match scheduler_status_or_initialize(store, options, now) {
            Ok(status) => status,
            Err(error) => return Err(error),
        };
        let hash = text_of(&policy_hash);
        match schedule_missing_generation_scan(store, &mut schedule, hash, now) {
            Ok(_) => {},
            Err(error) => return Err(error),
        }
        let stage = if scans_at_start(store, &schedule, hash, now) {
            Stage::Scanning { clean_due: false }
        } else {
            Stage::Between
        };
        Ok(DaemonLoop { schedule, stage, policy_hash, options })
    }

    /// What the process does next.
    pub fn next_step(&self) -> (step: NextStep)
        ensures
            match self.stage {
                Stage::Between => step is BeginTurn,
                Stage::Waiting => step matches NextStep::WaitUntil(time) && time@ == earlier(
                    self.schedule@.next_clean_at,
                    self.schedule@.next_scan_at,
                ),
                Stage::Scanning { .. } => step is Scan,
                Stage::Cleaning => step is Clean,
                Stage::Stopped => step is Stop,
            },
    {
        match self.stage {
            Stage::Between => NextStep::BeginTurn,
            Stage::Waiting => NextStep::WaitUntil(next_due(&self.schedule)),
            Stage::Scanning { .. } => NextStep::Scan,
            Stage::Cleaning => NextStep::Clean,
            Stage::Stopped => NextStep::Stop,
        }
    }

    /// A stop was requested before a turn began.
    pub fn stop(&mut self)
        ensures
            *final(self) == (DaemonLoop { stage: Stage::Stopped, ..*old(self) }),
    {
        self.stage = Stage::Stopped;
    }

    /// Begins a turn with the settings as they are now.
    pub fn begin_turn(&mut self, store: &mut Store, policy_hash: Option<String>, options: DaemonOptions, now: SystemTime) -> (result: Result<
        (),
        StoreError,
    >)
        requires
            old(self).stage == Stage::Between,
        ensures
            turned_as(
                result,
                final(store)@,
                *final(self),
                at_stage(
                    missing_scan_scheduled(old(store)@, old(self).schedule@, optional_text(policy_hash), now@),
                    Stage::Waiting,
                ),
            ),
            final(self).policy_hash == policy_hash,
            final(self).options == options,
            consistent(old(store)@) ==> consistent(final(store)@),
    {
        let result = schedule_missing_generation_scan(store, &mut self.schedule, text_of(&policy_hash), now);
        self.stage = if result.is_ok() {
            Stage::Waiting
        } else {
            Stage::Stopped
        };
        self.policy_hash = policy_hash;
        self.options = options;
        result
    }

    /// The wait of a turn has ended, at a deadline or because a stop was requested.
    pub fn waited(&mut self, store: &mut Store, stopped: bool, now: SystemTime) -> (result: Result<(), StoreError>)
        requires
            old(self).stage == Stage::Waiting,
        ensures
            turned_as(result, final(store)@, *final(self), after_wait(old(store)@, old(self).schedule@, stopped, now@)),
            final(self).policy_hash == old(self).policy_hash,
            final(self).options == old(self).options,
            consistent(old(store)@) ==> consistent(final(store)@),
    {
        let due = due_work(&self.schedule, now);
        if stopped {
            self.stage = Stage::Stopped;
            Ok(())
        } else if due.scan {
            self.stage = Stage::Scanning { clean_due: due.clean };
            Ok(())
        } else if due.clean {
            self.stage = Stage::Cleaning;
            Ok(())
        } else {
            self.end_turn(store, now)
        }
    }

    /// The scan of a turn has ended.
    pub fn scanned(&mut self, store: &mut Store, succeeded: bool, now: SystemTime) -> (result: Result<(), StoreError>)
        requires
            old(self).stage is Scanning,
            succeeded ==> representable(now@ + old(self).options.scan_interval@),
            !succeeded ==> representable(now@ + later(old(self).options.scan_interval@ as int, 1_000_000_000)),
        ensures
            turned_as(
                result,
                final(store)@,
                *final(self),
                after_scan(
                    old(store)@,
                    old(self).schedule@,
                    old(self).stage->clean_due,
                    optional_text(old(self).policy_hash),
                    old(self).options.scan_interval@ as int,
                    succeeded,
                    now@,
                ),
            ),
            final(self).policy_hash == old(self).policy_hash,
            final(self).options == old(self).options,
            consistent(old(store)@) ==> consistent(final(store)@),
    {
        if !succeeded {
            let hash = match text_of(&self.policy_hash) {
                Some(hash) => hash,
                None => "",
            };
            let result = defer_after_scan_failure(store, &mut self.schedule, hash, self.options.scan_interval, now);
            self.stage = if result.is_ok() {
                Stage::Between
            } else {
                Stage::Stopped
            };
            return result;
        }
        scan_succeeded(store, &mut self.schedule, self.options.scan_interval, now);
        match self.stage {
            Stage::Scanning { clean_due: true } => {
                self.stage = Stage::Cleaning;
                Ok(())
            },
            _ => self.end_turn(store, now),
        }
    }

    /// The cleanup of a turn has ended.
    pub fn cleaned(&mut self, store: &mut Store, now: SystemTime) -> (result: Result<(), StoreError>)
        requires
            old(self).stage == Stage::Cleaning,
            representable(now@ + old(self).options.clean_interval@),
        ensures
            turned_as(
                result,
                final(store)@,
                *final(self),
                after_clean(old(store)@, old(self).schedule@, old(self).options.clean_interval@ as int, now@),
            ),
            final(self).policy_hash == old(self).policy_hash,
            final(self).options == old(self).options,
            consistent(old(store)@) ==> consistent(final(store)@),
    {
        clean_finished(&mut self.schedule, self.options.clean_interval, now);
        self.end_turn(store, now)
    }

    fn end_turn(&mut self, store: &mut Store, now: SystemTime) -> (result: Result<(), StoreError>)
        ensures
            turned_as(
                result,
                final(store)@,
                *final(self),
                at_stage(recorded(old(store)@, old(self).schedule@, now@), Stage::Between),
            ),
            final(self).policy_hash == old(self).policy_hash,
            final(self).options == old(self).options,
    {
        let result = store.record_scheduler_status(now, self.schedule.next_clean_at, self.schedule.next_scan_at);
        self.stage = if result.is_ok() {
            Stage::Between
        } else {
            Stage::Stopped
        };
        result
    }
}

fn text_of(text: &Option<String>) -> (found: Option<&str>)
    ensures
        match found {
            Some(t) => optional_text(*text) == Some(t@),
            None => optional_text(*text) is None,
        },
{
    match text {
        Some(t) => Some(t.as_str()),
        None => None,
    }
}

// ----------------------------------------------------------------------- laws

/// Nothing is done before its time: a wait leads to a scan only where one is due, and to
/// a cleanup without a scan only where that alone is due.
pub proof fn only_due_work_is_done(store: StoreModel, schedule: ScheduleView, stopped: bool, now: int)
    ensures
        after_wait(store, schedule, stopped, now).stage is Scanning <==> !stopped && now >= schedule.next_scan_at,
        after_wait(store, schedule, stopped, now).stage is Cleaning <==> !stopped && now < schedule.next_scan_at && now
            >= schedule.next_clean_at,
        stopped ==> after_wait(store, schedule, stopped, now).store == store,
{
}

/// A turn whose scan fails cleans nothing, and neither does one before the scan is tried
/// again: no wait that ends before the retry leads to a scan or a cleanup.
pub proof fn failed_scans_clean_nothing(
    store: StoreModel,
    schedule: ScheduleView,
    clean_due: bool,
    policy_hash: Option<Seq<char>>,
    scan_interval: int,
    now: int,
    later_store: StoreModel,
    soon: int,
)
    requires
        scan_interval >= 0,
        now <= soon,
        soon < after_scan(store, schedule, clean_due, policy_hash, scan_interval, false, now).schedule.next_scan_at,
    ensures
        ({
            let failed = after_scan(store, schedule, clean_due, policy_hash, scan_interval, false, now);
            &&& !(failed.stage is Cleaning)
            &&& !(after_wait(later_store, failed.schedule, false, soon).stage is Cleaning)
            &&& !(after_wait(later_store, failed.schedule, false, soon).stage is Scanning)
        }),
{
}

/// A scan that succeeds while a cleanup is due leads to that cleanup, and the next
/// cleanup is a full interval after it.
pub proof fn due_cleanups_follow_their_scan(
    store: StoreModel,
    schedule: ScheduleView,
    policy_hash: Option<Seq<char>>,
    clean_interval: int,
    scan_interval: int,
    now: int,
    done: int,
)
    ensures
        ({
            let scanned = after_scan(store, schedule, true, policy_hash, scan_interval, true, now);
            &&& scanned.stage is Cleaning
            &&& scanned.fault is None
            &&& after_clean(scanned.store, scanned.schedule, clean_interval, done).schedule.next_clean_at == done
                + clean_interval
            &&& after_clean(scanned.store, scanned.schedule, clean_interval, done).schedule.next_scan_at == now
                + scan_interval
        }),
{
}

} // verus!
