//! What the schedule of the daemon comes to, in terms of the times that it is given.

use crate::cache::{project_synced, projects_synced, Sync};
use crate::cleaner::{
    first_executable, is_clean_step, CargoCandidate, CleanAttemptOutcome, CleanFacts, CleanProbe, CleanStep, RunReply,
};
use crate::daemon::schedule::{
    failure_deferred, forced_time, missing_scan_scheduled, recorded, retry_time, started, ScheduleView,
};
use crate::daemon::turns::{after_clean, after_scan, after_wait, loop_started, Stage};
use crate::path::{same_path, PathBuf};
use crate::resolve::{physical_path, Finding, Resolved};
use crate::store::generations::current_generation_of;
use crate::store::laws::{on_record, removed_projects_are_gone};
use crate::store::rows::ProjectModel;
use crate::store::{epoch_of, time_of, StoreModel};
use crate::time::representable;
use vstd::prelude::*;
use vstd::utf8::*;

verus! {

// -------------------------------------------------------------------- schedule

/// A schedule that is put down without a fault can be read back from the store, to the
/// second.
pub proof fn schedules_are_put_down(store: StoreModel, schedule: ScheduleView, updated_at: int)
    requires
        recorded(store, schedule, updated_at).fault is None,
    ensures
        recorded(store, schedule, updated_at).schedule == schedule,
        recorded(store, schedule, updated_at).store.scheduler_state matches Some(row) && epoch_of(schedule.next_clean_at)
            == Some(row.next_clean_at) && epoch_of(schedule.next_scan_at) == Some(row.next_scan_at) && epoch_of(updated_at)
            == Some(row.updated_at),
        (StoreModel { scheduler_state: store.scheduler_state, ..recorded(store, schedule, updated_at).store }) == store,
{
}

/// A schedule that is put down with a fault leaves the store as it was.
pub proof fn faults_leave_the_store(store: StoreModel, schedule: ScheduleView, updated_at: int)
    requires
        recorded(store, schedule, updated_at).fault is Some,
    ensures
        recorded(store, schedule, updated_at).store == store,
        updated_at < 0 || schedule.next_clean_at < 0 || schedule.next_scan_at < 0,
{
}

/// A process that starts with a schedule on record keeps when it cleans next, and scans
/// when the record says or an interval from now, whichever comes first. One without a
/// record scans an interval from now.
pub proof fn starts_go_on_with_the_record(store: StoreModel, clean_interval: int, scan_interval: int, now: int)
    ensures
        ({
            let schedule = started(store, clean_interval, scan_interval, now).schedule;
            match store.scheduler_state {
                Some(row) => {
                    &&& schedule.next_clean_at == time_of(row.next_clean_at)
                    &&& schedule.next_scan_at <= time_of(row.next_scan_at)
                    &&& schedule.next_scan_at <= now + scan_interval
                    &&& schedule.next_scan_at == time_of(row.next_scan_at) || schedule.next_scan_at == now + scan_interval
                },
                None => schedule.next_scan_at == now + scan_interval,
            }
        }),
{
}

/// While a discovery of the policy is valid, or there is no policy, no scan is brought
/// forward.
pub proof fn valid_discoveries_force_no_scan(store: StoreModel, schedule: ScheduleView, policy_hash: Option<Seq<char>>, now: int)
    requires
        policy_hash matches Some(hash) ==> current_generation_of(store.discovery_generations, hash) is Some,
    ensures
        missing_scan_scheduled(store, schedule, policy_hash, now).store == store,
        missing_scan_scheduled(store, schedule, policy_hash, now).schedule == schedule,
        missing_scan_scheduled(store, schedule, policy_hash, now).fault is None,
{
}

/// Without a valid discovery of the policy, a scan is due at once, and on record as
/// forced, unless one was forced shortly before or a failed one waits to be tried again:
/// then it is due when the least time since the forced one has passed, or at the retry.
pub proof fn missing_discoveries_force_a_scan(store: StoreModel, schedule: ScheduleView, hash: Seq<char>, now: int)
    requires
        current_generation_of(store.discovery_generations, hash) is None,
        now >= 0,
        representable(now),
    ensures
        ({
            let after = missing_scan_scheduled(store, schedule, Some(hash), now);
            let pending = retry_time(store) matches Some(retry) && retry > now;
            let recent = forced_time(store) matches Some(last) && now - last < 300_000_000_000;
            &&& pending ==> after.schedule.next_scan_at == retry_time(store)->0
            &&& pending ==> forced_time(after.store) == forced_time(store)
            &&& !pending && !recent ==> after.schedule.next_scan_at == now
            &&& !pending && !recent ==> (after.fault is None ==> forced_time(after.store) == Some(
                time_of((now / 1_000_000_000) as i64),
            ))
            &&& !pending && recent && representable(forced_time(store)->0 + 300_000_000_000) ==> after.schedule.next_scan_at
                == forced_time(store)->0 + 300_000_000_000
            &&& after.schedule.next_clean_at == schedule.next_clean_at
        }),
{
}

/// A failed scan is tried again no sooner than an interval, and a second, from now, and
/// the retry is on record.
pub proof fn failed_scans_are_tried_again(store: StoreModel, schedule: ScheduleView, hash: Seq<char>, interval: int, now: int)
    requires
        interval >= 0,
    ensures
        ({
            let after = failure_deferred(store, schedule, hash, interval, now);
            &&& after.schedule.next_scan_at >= now + interval
            &&& after.schedule.next_scan_at >= now + 1_000_000_000
            &&& after.schedule.next_clean_at >= schedule.next_clean_at
            &&& after.schedule.next_clean_at == schedule.next_clean_at || after.schedule.next_clean_at
                == after.schedule.next_scan_at
            &&& current_generation_of(store.discovery_generations, hash) is Some ==> after.schedule.next_scan_at == now
                + interval || after.schedule.next_scan_at == now + 1_000_000_000
            &&& after.fault is None ==> (after.store.scheduler_state matches Some(row) && row.scan_retry_at == epoch_of(
                after.schedule.next_scan_at,
            ) && row.scan_retry_at is Some && epoch_of(after.schedule.next_scan_at) == Some(row.next_scan_at))
        }),
{
}

// ----------------------------------------------------------------------- turns

/// A wait ends in what is due: a scan, with the cleanup behind it if that is due too, or
/// else a cleanup; with nothing due another turn begins; and a request to stop goes
/// before all of it.
pub proof fn waits_end_in_what_is_due(store: StoreModel, schedule: ScheduleView, stopped: bool, now: int)
    ensures
        after_wait(store, schedule, stopped, now).schedule == schedule,
        stopped ==> after_wait(store, schedule, stopped, now).stage == Stage::Stopped,
        !stopped && now >= schedule.next_scan_at ==> after_wait(store, schedule, stopped, now).stage == (Stage::Scanning {
            clean_due: now >= schedule.next_clean_at,
        }),
        !stopped && now < schedule.next_scan_at && now >= schedule.next_clean_at ==> after_wait(
            store,
            schedule,
            stopped,
            now,
        ).stage == Stage::Cleaning,
        !stopped && now < schedule.next_scan_at && now < schedule.next_clean_at && after_wait(
            store,
            schedule,
            stopped,
            now,
        ).fault is None ==> after_wait(store, schedule, stopped, now).stage == Stage::Between,
{
}

/// After a scan that succeeded the next one is due an interval from now, no retry is on
/// record, and a cleanup follows exactly if one is due.
pub proof fn scans_that_succeed_are_repeated(
    store: StoreModel,
    schedule: ScheduleView,
    clean_due: bool,
    policy_hash: Option<Seq<char>>,
    interval: int,
    now: int,
)
    ensures
        ({
            let after = after_scan(store, schedule, clean_due, policy_hash, interval, true, now);
            &&& after.schedule.next_scan_at == now + interval
            &&& after.schedule.next_clean_at == schedule.next_clean_at
            &&& retry_time(after.store) is None
            &&& after.fault is None ==> (after.stage == Stage::Cleaning <==> clean_due)
            &&& after.fault is None && !clean_due ==> after.stage == Stage::Between
        }),
{
}

/// After a cleanup the next one is due an interval from now, and the scan stays where it
/// was.
pub proof fn cleanups_are_repeated(store: StoreModel, schedule: ScheduleView, interval: int, now: int)
    ensures
        ({
            let after = after_clean(store, schedule, interval, now);
            &&& after.schedule.next_clean_at == now + interval
            &&& after.schedule.next_scan_at == schedule.next_scan_at
            &&& after.fault is None ==> after.stage == Stage::Between && (after.store.scheduler_state matches Some(row)
                && epoch_of(now + interval) == Some(row.next_clean_at))
        }),
{
}

/// A process that starts scans before its first wait exactly if its policy has no valid
/// discovery and the scan is due.
pub proof fn starts_scan_what_is_missing(
    store: StoreModel,
    policy_hash: Option<Seq<char>>,
    clean_interval: int,
    scan_interval: int,
    now: int,
)
    requires
        loop_started(store, policy_hash, clean_interval, scan_interval, now).fault is None,
    ensures
        ({
            let turn = loop_started(store, policy_hash, clean_interval, scan_interval, now);
            &&& turn.stage == (Stage::Scanning { clean_due: false }) || turn.stage == Stage::Between
            &&& turn.stage is Scanning <==> (policy_hash matches Some(hash) && current_generation_of(
                turn.store.discovery_generations,
                hash,
            ) is None && now >= turn.schedule.next_scan_at)
        }),
{
}

// -------------------------------------------------------------------- cleaning

/// An attempt reports what was measured: the bytes before and after, how long it took
/// and how cargo exited; a project without a target, or one that is held back at the
/// last moment, is skipped with nothing recovered.
pub proof fn attempts_report_what_happened(step: CleanStep, project: Seq<u8>, facts: CleanFacts)
    requires
        is_clean_step(step, project, facts),
    ensures
        facts.target_directory == Some(false) ==> (step matches CleanStep::Finished(result) && result.skipped
            && result.path@ == project && result.bytes_before == 0 && result.bytes_after == 0 && result.outcome is None),
        facts.target_directory == Some(true) && facts.bytes_before is Some && facts.validated == Some(false) ==> (
        step matches CleanStep::Finished(result) && result.skipped && result.path@ == project && result.outcome is None
            && result.bytes_before == facts.bytes_before->0 && result.bytes_after == facts.bytes_before->0),
        facts.target_directory == Some(true) && facts.bytes_before is Some && facts.validated == Some(true)
            && facts.run is None ==> step == CleanStep::Probe(CleanProbe::Run),
        facts.target_directory == Some(true) && facts.bytes_before is Some && facts.validated == Some(true)
            && facts.run is Some && facts.bytes_after is Some ==> {
            &&& step matches CleanStep::Finished(result)
            &&& !result.skipped
            &&& result.path@ == project
            &&& result.bytes_before == facts.bytes_before->0
            &&& result.duration == facts.elapsed
            &&& facts.bytes_after->0 matches Ok(bytes) ==> result.bytes_after == bytes && result.measurement_error is None
            &&& facts.bytes_after->0 is Err ==> result.bytes_after == result.bytes_before && result.measurement_error is Some
            &&& facts.run->0 matches RunReply::Exited(exit) ==> result.exit_code == Some(exit.exit_code)
                && result.attempt_error is None && (result.outcome == Some(CleanAttemptOutcome::Success) <==> exit.exit_code
                == 0) && (result.outcome == Some(CleanAttemptOutcome::CargoNonzero) <==> exit.exit_code != 0)
            &&& facts.run->0 matches RunReply::Failed(error) ==> result.exit_code is None && result.outcome == Some(
                CleanAttemptOutcome::RunnerFailure,
            ) && (result.attempt_error matches Some(message) && message@ == error@)
        },
{
}

/// The program that is run is the first of the candidates that can be executed; there is
/// none exactly if none can.
pub proof fn first_executables_are_run(candidates: Seq<CargoCandidate>, i: int)
    ensures
        0 <= i < candidates.len() && candidates[i].executable && (forall|k: int|
            0 <= k < i ==> !(#[trigger] candidates[k]).executable) ==> first_executable(candidates) == Some(
            candidates[i].path@,
        ),
        (forall|k: int| 0 <= k < candidates.len() ==> !(#[trigger] candidates[k]).executable) ==> first_executable(
            candidates,
        ) is None,
    decreases candidates.len(),
{
    if candidates.len() > 0 {
        let rest = candidates.drop_first();
        first_executables_are_run(rest, i - 1);
        if 0 < i < candidates.len() && candidates[i].executable && (forall|k: int|
            0 <= k < i ==> !(#[trigger] candidates[k]).executable) {
            assert(rest[i - 1] == candidates[i]);
            assert(!candidates[0].executable);
            assert forall|k: int| 0 <= k < i - 1 implies !(#[trigger] rest[k]).executable by {
                assert(rest[k] == candidates[k + 1]);
            }
        }
        if forall|k: int| 0 <= k < candidates.len() ==> !(#[trigger] candidates[k]).executable {
            assert(!candidates[0].executable);
            assert forall|k: int| 0 <= k < rest.len() implies !(#[trigger] rest[k]).executable by {
                assert(rest[k] == candidates[k + 1]);
            }
        }
    }
}

// ----------------------------------------------------------------------- cache

/// A project that is not present any more is taken off the record and reported, and the
/// other projects stay; one that is present at its own physical path is left alone.
pub proof fn absent_projects_are_forgotten(sync: Sync, known: Map<Seq<u8>, Resolved>, present: Seq<PathBuf>, name: Seq<char>)
    requires
        sync.fault is None,
    ensures
        (forall|i: int| 0 <= i < present.len() ==> !same_path(encode_utf8(name), (#[trigger] present[i])@)) ==> {
            let after = project_synced(sync, known, present, name);
            &&& after.fault is None
            &&& after.removed == sync.removed.push(encode_utf8(name))
            &&& !on_record(after.store.projects, name)
            &&& forall|row: ProjectModel|
                row.path != name ==> (#[trigger] after.store.projects.contains(row) <==> sync.store.projects.contains(row))
            &&& (StoreModel { projects: sync.store.projects, ..after.store }) == sync.store
        },
        (exists|i: int| 0 <= i < present.len() && same_path(encode_utf8(name), (#[trigger] present[i])@)) ==> {
            let after = project_synced(sync, known, present, name);
            &&& after.removed == sync.removed
            &&& physical_path(known, encode_utf8(name)) matches Finding::Known(Some(physical)) ==> (same_path(
                physical,
                encode_utf8(name),
            ) ==> after == sync)
            &&& physical_path(known, encode_utf8(name)) matches Finding::Known(None) ==> after.fault is Some
        },
{
    removed_projects_are_gone(sync.store.projects, name);
}

/// The projects that are reported as removed are exactly those that were on the list and
/// are not present any more.
pub proof fn removed_projects_are_absent(
    store: StoreModel,
    known: Map<Seq<u8>, Resolved>,
    present: Seq<PathBuf>,
    names: Seq<Seq<char>>,
)
    requires
        projects_synced(store, known, present, names).fault is None,
    ensures
        forall|i: int|
            0 <= i < names.len() && !crate::policy::among(encode_utf8(#[trigger] names[i]), present) ==> projects_synced(
                store,
                known,
                present,
                names,
            ).removed.contains(encode_utf8(names[i])),
        forall|k: int|
            0 <= k < projects_synced(store, known, present, names).removed.len() ==> !crate::policy::among(
                #[trigger] projects_synced(store, known, present, names).removed[k],
                present,
            ),
    decreases names.len(),
{
    if names.len() > 0 {
        let front = names.drop_last();
        let before = projects_synced(store, known, present, front);
        let after = projects_synced(store, known, present, names);
        assert(before.fault is None);
        removed_projects_are_absent(store, known, present, front);
        assert forall|i: int| 0 <= i < names.len() && !crate::policy::among(
            encode_utf8(#[trigger] names[i]),
            present,
        ) implies after.removed.contains(encode_utf8(names[i])) by {
            if i < front.len() {
                assert(front[i] == names[i]);
                let k = choose|k: int| 0 <= k < before.removed.len() && before.removed[k] == encode_utf8(names[i]);
                assert(after.removed[k] == before.removed[k]);
            } else {
                assert(after.removed[before.removed.len() as int] == encode_utf8(names[i]));
            }
        }
        assert forall|k: int| 0 <= k < after.removed.len() implies !crate::policy::among(
            #[trigger] after.removed[k],
            present,
        ) by {
            if k < before.removed.len() {
                assert(after.removed[k] == before.removed[k]);
            }
        }
    }
}

} // verus!
