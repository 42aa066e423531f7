use car_go_clean::cleaner::{CleanAttemptOutcome, CleanResult};
use car_go_clean::daemon::cycle::{
    begin_cycle, coverage, executable_reviews, prepare_observed_review, prepare_planned_review, PreparedReview,
};
use car_go_clean::daemon::run::{begin_run, RunAction, RunError};
use car_go_clean::daemon::schedule::{
    clamp_next_scan_at, clean_finished, defer_after_scan_failure, due_work, next_due, scan_succeeded, scans_at_start,
    schedule_missing_generation_scan, scheduler_status_or_initialize, wall_clock_wait_chunk,
};
use car_go_clean::daemon::turns::{DaemonLoop, NextStep, Stage};
use car_go_clean::daemon::{DaemonOptions, RunSource, ShutdownFlag};
use car_go_clean::identity::{BootSessionId, FilesystemIdentity, MountIdentity, ReviewedIdentity};
use car_go_clean::path::PathBuf;
use car_go_clean::policy::{ScopePolicy, POLICY_HASH_FORMAT_VERSION};
use car_go_clean::resolve::Resolutions;
use car_go_clean::safety::{CleanDecision, ProjectClass, ProjectReview, SkipReason};
use car_go_clean::store::rows::{
    DiscoveryOriginKind, ErrorRecord, GenerationReconciliation, ObservationReconciliation, OriginReconciliation,
};
use car_go_clean::store::{Store, StoreError};
use car_go_clean::time::{Duration, SystemTime};

fn at(secs: i64) -> SystemTime {
    SystemTime::from_secs(secs)
}

fn later(time: SystemTime, span: Duration) -> SystemTime {
    time.checked_add(span).unwrap()
}

fn file(inode: u64) -> FilesystemIdentity {
    FilesystemIdentity { device: 1, inode, mount: MountIdentity("1".to_string()) }
}

fn seen(boot: &str) -> ReviewedIdentity {
    ReviewedIdentity { project: file(10), target: file(11), boot_session: Some(BootSessionId(boot.to_string())) }
}

fn review(path: &str, bytes: u64, decision: CleanDecision) -> ProjectReview {
    ProjectReview {
        path: PathBuf::new(path),
        canonical_path: Some(PathBuf::new(path)),
        class: ProjectClass::Workspace,
        target_path: PathBuf::new(&format!("{path}/target")),
        target_bytes: bytes,
        reviewed_identity: Some(seen("boot-a")),
        decision,
    }
}

fn prepared(path: &str, bytes: u64, decision: CleanDecision) -> PreparedReview {
    PreparedReview { review: review(path, bytes, decision), reverified_across_boot: false }
}

/// A policy that covers `/work` but for `/work/vendor`.
fn policy() -> ScopePolicy {
    ScopePolicy {
        canonical_scan_roots: vec![PathBuf::new("/work")],
        canonical_project_paths: vec![],
        lexical_exclusions: vec!["/work/vendor".to_string()],
        canonical_exclusions: vec![],
        protected_roots: vec![],
        target_quiet_period: Duration::from_secs(60),
        scan_interval: Duration::from_secs(60),
        config_source: PathBuf::new("/config.toml"),
        hash: "hash".to_string(),
        policy_hash_format_version: POLICY_HASH_FORMAT_VERSION,
    }
}

/// A store with one completed generation that authorizes the projects.
fn store_with(projects: &[&str]) -> Store {
    let mut store = Store::empty();
    let observations = projects
        .iter()
        .map(|path| ObservationReconciliation {
            project_path: PathBuf::new(path),
            project_identity: file(10),
            target_identity: Some(file(11)),
            observed_at: at(1_000),
            authorized: true,
            blocked_reason: None,
        })
        .collect();
    let generation = GenerationReconciliation {
        policy_hash: "hash".to_string(),
        boot_session_id: Some("boot-a".to_string()),
        origins: vec![OriginReconciliation {
            kind: DiscoveryOriginKind::ScanRoot,
            configured_path: PathBuf::new("/work"),
            canonical_path: Some(PathBuf::new("/work")),
            completed: true,
            error: None,
            observations,
        }],
    };
    store.reconcile_generation(at(1_000), &generation).unwrap();
    store
}

fn result_of(path: &str, before: i64, after: i64, outcome: CleanAttemptOutcome) -> CleanResult {
    CleanResult {
        path: PathBuf::new(path),
        bytes_before: before,
        bytes_after: after,
        duration: Duration::from_millis(20),
        exit_code: match outcome {
            CleanAttemptOutcome::Success => Some(0),
            CleanAttemptOutcome::CargoNonzero => Some(101),
            CleanAttemptOutcome::RunnerFailure => None,
        },
        stderr_excerpt: String::new(),
        outcome: Some(outcome),
        attempt_error: match outcome {
            CleanAttemptOutcome::RunnerFailure => Some("gone".to_string()),
            _ => None,
        },
        measurement_error: None,
        skipped: false,
    }
}

#[test]
fn wall_clock_wait_chunk_polls_until_deadline_is_reached() {
    let now = later(SystemTime::epoch(), Duration::from_secs(100));
    let deadline = later(now, Duration::from_secs(1));

    assert_eq!(wall_clock_wait_chunk(deadline, now), Some(Duration::from_millis(250)));
    assert_eq!(
        wall_clock_wait_chunk(deadline, later(now, Duration::from_millis(900))),
        Some(Duration::from_millis(100))
    );
    assert_eq!(wall_clock_wait_chunk(deadline, deadline), None);
    assert_eq!(wall_clock_wait_chunk(deadline, later(deadline, Duration::from_secs(1))), None);
}

#[test]
fn a_shutdown_is_requested_once_and_stays() {
    let mut flag = ShutdownFlag::new();
    assert!(!flag.is_requested());
    flag.request();
    assert!(flag.is_requested());
}

#[test]
fn persisted_scans_are_never_further_away_than_the_interval() {
    let interval = Duration::from_secs(60);
    assert_eq!(clamp_next_scan_at(at(10_000), at(1_000), interval), at(1_060));
    assert_eq!(clamp_next_scan_at(at(1_010), at(1_000), interval), at(1_010));
}

#[test]
fn schedules_start_one_interval_away_and_are_kept() {
    let mut store = Store::empty();
    let options = DaemonOptions {
        clean_interval: Duration::from_secs(600),
        scan_interval: Duration::from_secs(300),
        target_quiet_period: Duration::from_secs(60),
    };
    let first = scheduler_status_or_initialize(&mut store, options, at(1_000)).unwrap();
    assert_eq!(first.next_clean_at, at(1_600));
    assert_eq!(first.next_scan_at, at(1_300));
    let second = scheduler_status_or_initialize(&mut store, options, at(1_100)).unwrap();
    assert_eq!(second.next_clean_at, at(1_600));
    assert_eq!(second.next_scan_at, at(1_300));
    assert_eq!(next_due(&second), at(1_300));
    assert!(!due_work(&second, at(1_299)).scan);
    assert!(due_work(&second, at(1_300)).scan);
    assert!(!due_work(&second, at(1_300)).clean);
}

#[test]
fn first_cleanups_follow_the_last_run_that_completed() {
    let options = DaemonOptions {
        clean_interval: Duration::from_secs(600),
        scan_interval: Duration::from_secs(300),
        target_quiet_period: Duration::from_secs(60),
    };
    let mut store = Store::empty();
    let older = store.start_run(at(100)).unwrap();
    store.finish_run(older, at(150), 1, 10, 0).unwrap();
    store.start_run(at(200)).unwrap();
    assert_eq!(store.last_run().unwrap().finished_at, None);
    assert_eq!(store.last_completed_run().unwrap().id, older);
    let first = scheduler_status_or_initialize(&mut store, options, at(1_000)).unwrap();
    assert_eq!(first.next_clean_at, at(750));
    assert_eq!(first.next_scan_at, at(1_300));
    let kept = store.scheduler_status().unwrap();
    assert_eq!((kept.next_clean_at, kept.next_scan_at), (at(750), at(1_300)));

    let mut broken = Store::empty();
    broken.start_run(at(200)).unwrap();
    assert!(broken.last_completed_run().is_none());
    let first = scheduler_status_or_initialize(&mut broken, options, at(1_000)).unwrap();
    assert_eq!(first.next_clean_at, at(1_600));
}

#[test]
fn missing_generations_force_a_scan_but_not_too_often() {
    let mut store = Store::empty();
    let mut schedule = scheduler_status_or_initialize(&mut store, DaemonOptions::default(), at(1_000)).unwrap();
    schedule_missing_generation_scan(&mut store, &mut schedule, Some("hash"), at(1_000)).unwrap();
    assert_eq!(schedule.next_scan_at, at(1_000));
    assert!(scans_at_start(&store, &schedule, Some("hash"), at(1_000)));
    assert_eq!(store.last_forced_scan_at(), Some(at(1_000)));

    schedule_missing_generation_scan(&mut store, &mut schedule, Some("hash"), at(1_100)).unwrap();
    assert_eq!(store.last_forced_scan_at(), Some(at(1_000)));
    assert!(!scans_at_start(&store, &schedule, None, at(1_100)));
}

#[test]
fn failed_scans_move_both_deadlines_and_success_clears_the_retry() {
    let mut store = store_with(&["/work/app"]);
    let mut schedule = scheduler_status_or_initialize(&mut store, DaemonOptions::default(), at(1_000)).unwrap();
    schedule.next_clean_at = at(1_001);
    defer_after_scan_failure(&mut store, &mut schedule, "hash", Duration::from_secs(60), at(1_000)).unwrap();
    assert_eq!(schedule.next_scan_at, at(1_060));
    assert_eq!(schedule.next_clean_at, at(1_060));
    assert_eq!(store.scan_retry_at(), Some(at(1_060)));

    scan_succeeded(&mut store, &mut schedule, Duration::from_secs(300), at(1_070));
    assert_eq!(store.scan_retry_at(), None);
    assert_eq!(schedule.next_scan_at, at(1_370));
    clean_finished(&mut schedule, Duration::from_secs(600), at(1_080));
    assert_eq!(schedule.next_clean_at, at(1_680));
}

#[test]
fn cycles_review_what_the_current_generation_authorizes() {
    let store = store_with(&["/work/app", "/work/lib"]);
    let scope =
        begin_cycle(&store, None, Duration::from_secs(60), at(1_100), &Resolutions::new()).unwrap();
    assert_eq!(scope.generation_id, None);
    assert!(scope.observations.is_empty());

    let policy = policy();
    let scope =
        begin_cycle(&store, Some(&policy), Duration::from_secs(60), at(1_100), &Resolutions::new()).unwrap();
    assert_eq!(scope.generation_id, Some(store.current_generation("hash").unwrap().id));
    let paths: Vec<String> =
        scope.observations.iter().map(|observation| observation.project_path.to_str().unwrap()).collect();
    assert_eq!(paths, vec!["/work/app", "/work/lib"]);
    assert!(!scope.coverage.incomplete);
}

#[test]
fn another_policy_has_no_authority_over_known_projects() {
    let store = store_with(&["/work/app"]);
    let other = ScopePolicy { hash: "other".to_string(), ..policy() };
    let scope =
        begin_cycle(&store, Some(&other), Duration::from_secs(60), at(1_100), &Resolutions::new()).unwrap();
    assert_eq!(scope.generation_id, None);
    assert!(scope.observations.is_empty());
    assert!(scope.coverage.incomplete);
}

#[test]
fn recorded_scan_errors_limit_the_coverage() {
    let mut store = store_with(&["/work/app"]);
    let clear = coverage(&store, "hash", at(1_100), Duration::from_secs(60), &Resolutions::new()).unwrap();
    assert!(!clear.incomplete);
    store
        .record_error(&ErrorRecord {
            id: 0,
            ts: at(1_090),
            category: "scan".to_string(),
            path: Some("/work/closed".to_string()),
            message: "denied".to_string(),
        })
        .unwrap();
    let limited = coverage(&store, "hash", at(1_100), Duration::from_secs(60), &Resolutions::new()).unwrap();
    assert!(limited.incomplete);
    assert_eq!(limited.scan_errors, vec![PathBuf::new("/work/closed")]);
}

#[test]
fn bound_reviews_never_become_cleanable() {
    let policy = policy();
    let store = store_with(&["/work/app"]);
    let generation = store.current_generation("hash").unwrap();
    let observation = &store.authorized_observations(generation.id)[0];

    let kept = prepare_observed_review(Some(&policy), review("/work/app", 5, CleanDecision::Cleanable), observation);
    assert_eq!(kept.review.decision, CleanDecision::Cleanable);
    assert!(!kept.reverified_across_boot);

    let mut moved = review("/work/app", 5, CleanDecision::Cleanable);
    moved.reviewed_identity = Some(ReviewedIdentity { project: file(99), ..seen("boot-a") });
    let refused = prepare_observed_review(Some(&policy), moved, observation);
    assert_eq!(refused.review.decision, CleanDecision::Skipped(SkipReason::ProjectIdentityChanged));

    let unscoped = prepare_observed_review(None, review("/work/app", 5, CleanDecision::Cleanable), observation);
    assert_eq!(unscoped.review.decision, CleanDecision::Skipped(SkipReason::OutOfScope));
    let excluded =
        prepare_observed_review(Some(&policy), review("/work/vendor/app", 5, CleanDecision::Cleanable), observation);
    assert_eq!(excluded.review.decision, CleanDecision::Skipped(SkipReason::Excluded));

    let skipped = review("/work/app", 5, CleanDecision::Skipped(SkipReason::NoTarget));
    let still = prepare_observed_review(Some(&policy), skipped, observation);
    assert_eq!(still.review.decision, CleanDecision::Skipped(SkipReason::NoTarget));
}

#[test]
fn plans_are_held_to_what_they_saw() {
    let policy = policy();
    let planned = review("/work/app", 5, CleanDecision::Cleanable);
    let same = prepare_planned_review(Some(&policy), &planned, review("/work/app", 6, CleanDecision::Cleanable));
    assert_eq!(same.review.decision, CleanDecision::Cleanable);
    let mut other = review("/work/app", 6, CleanDecision::Cleanable);
    other.reviewed_identity = Some(ReviewedIdentity { target: file(12), ..seen("boot-a") });
    let changed = prepare_planned_review(Some(&policy), &planned, other);
    assert_eq!(changed.review.decision, CleanDecision::Skipped(SkipReason::TargetIdentityChanged));
    let kept = executable_reviews(vec![
        review("/work/app", 5, CleanDecision::Cleanable),
        review("/work/lib", 5, CleanDecision::Skipped(SkipReason::NoTarget)),
    ]);
    assert_eq!(kept.len(), 1);
}

#[test]
fn a_run_counts_what_it_cleaned_and_skipped() {
    let mut store = store_with(&["/work/app", "/work/idle", "/work/lib"]);
    let reviews = vec![
        prepared("/work/app", 100, CleanDecision::Cleanable),
        prepared("/work/idle", 0, CleanDecision::Skipped(SkipReason::NoTarget)),
        prepared("/work/lib", 50, CleanDecision::Cleanable),
    ];
    let known = Resolutions::new();
    let mut run = begin_run(
        &mut store,
        reviews,
        Some(1),
        false,
        "hash",
        Duration::from_secs(60),
        RunSource::Dynamic,
        at(1_100),
        &known,
    )
    .unwrap();

    assert_eq!(run.next_action(), RunAction::Revalidate(0));
    assert!(run.decide(&mut store, CleanDecision::Cleanable, at(1_101)).unwrap());
    run.cleaned(
        &mut store,
        CleanDecision::Cleanable,
        Ok(result_of("/work/app", 100, 10, CleanAttemptOutcome::Success)),
        at(1_102),
    )
    .unwrap();

    assert_eq!(run.next_action(), RunAction::PassOver(1));
    assert!(!run
        .decide(&mut store, CleanDecision::Skipped(SkipReason::NoTarget), at(1_103))
        .unwrap());

    assert_eq!(run.next_action(), RunAction::Revalidate(2));
    assert!(run.decide(&mut store, CleanDecision::Cleanable, at(1_104)).unwrap());
    run.cleaned(
        &mut store,
        CleanDecision::Cleanable,
        Ok(result_of("/work/lib", 50, 40, CleanAttemptOutcome::CargoNonzero)),
        at(1_105),
    )
    .unwrap();

    assert_eq!(run.next_action(), RunAction::Finish);
    let finished = run.finish(&mut store, at(1_106)).unwrap();
    assert_eq!(finished.cleaned, 1);
    assert_eq!(finished.bytes_recovered, 90);
    assert_eq!(finished.skipped, 1);
    assert_eq!(finished.errors, 1);
    assert_eq!(finished.cargo_failures, 1);
    assert_eq!(finished.measurement_failures, 0);
    assert_eq!(finished.cleanup_failures, 0);

    let last = store.last_run().unwrap();
    assert_eq!(last.id, finished.run_id);
    assert_eq!(last.finished_at, Some(at(1_106)));
    assert_eq!(last.bytes_recovered, 90);
    assert_eq!(store.clean_events_since(at(0)).unwrap().len(), 2);
    assert_eq!(store.failed_clean_attempts(at(0)).unwrap(), 1);
}

#[test]
fn attempts_without_an_outcome_are_errors() {
    let mut store = store_with(&["/work/app"]);
    let mut run = begin_run(
        &mut store,
        vec![prepared("/work/app", 100, CleanDecision::Cleanable)],
        Some(1),
        false,
        "hash",
        Duration::from_secs(60),
        RunSource::Reviewed,
        at(1_100),
        &Resolutions::new(),
    )
    .unwrap();
    run.decide(&mut store, CleanDecision::Cleanable, at(1_101)).unwrap();
    let mut result = result_of("/work/app", 100, 10, CleanAttemptOutcome::Success);
    result.outcome = None;
    let error = run.cleaned(&mut store, CleanDecision::Cleanable, Ok(result), at(1_102)).unwrap_err();
    assert_eq!(error, RunError::MissingOutcome);
    assert_eq!(error.message(), Some("non-skipped clean result is missing its attempt outcome"));
}

#[test]
fn runs_need_a_time_after_the_epoch() {
    let mut store = Store::empty();
    let begun = begin_run(
        &mut store,
        vec![],
        None,
        false,
        "hash",
        Duration::from_secs(60),
        RunSource::Dynamic,
        at(-5),
        &Resolutions::new(),
    );
    assert_eq!(begun.unwrap_err(), StoreError::BeforeEpoch);
}

fn short_options() -> DaemonOptions {
    DaemonOptions {
        clean_interval: Duration::from_secs(600),
        scan_interval: Duration::from_secs(300),
        target_quiet_period: Duration::from_secs(60),
    }
}

#[test]
fn turns_scan_and_clean_when_it_is_time() {
    let mut store = store_with(&["/work/app"]);
    let hash = || Some("hash".to_string());
    let mut turns = DaemonLoop::start(&mut store, hash(), short_options(), at(1_000)).unwrap();
    assert_eq!(turns.next_step(), NextStep::BeginTurn);
    turns.begin_turn(&mut store, hash(), short_options(), at(1_001)).unwrap();
    assert_eq!(turns.next_step(), NextStep::WaitUntil(at(1_300)));
    turns.waited(&mut store, false, at(1_700)).unwrap();
    assert_eq!(turns.next_step(), NextStep::Scan);
    turns.scanned(&mut store, true, at(1_710)).unwrap();
    assert_eq!(turns.next_step(), NextStep::Clean);
    turns.cleaned(&mut store, at(1_720)).unwrap();
    assert_eq!(turns.next_step(), NextStep::BeginTurn);
    let status = store.scheduler_status().unwrap();
    assert_eq!(status.next_scan_at, at(2_010));
    assert_eq!(status.next_clean_at, at(2_320));

    turns.begin_turn(&mut store, hash(), short_options(), at(1_721)).unwrap();
    turns.waited(&mut store, true, at(1_722)).unwrap();
    assert_eq!(turns.next_step(), NextStep::Stop);
}

#[test]
fn failed_scans_end_the_turn_without_a_cleanup() {
    let mut store = store_with(&["/work/app"]);
    let hash = || Some("hash".to_string());
    let mut turns = DaemonLoop::start(&mut store, hash(), short_options(), at(1_000)).unwrap();
    turns.begin_turn(&mut store, hash(), short_options(), at(1_001)).unwrap();
    turns.waited(&mut store, false, at(1_700)).unwrap();
    assert_eq!(turns.stage, Stage::Scanning { clean_due: true });
    turns.scanned(&mut store, false, at(1_710)).unwrap();
    assert_eq!(turns.next_step(), NextStep::BeginTurn);
    assert_eq!(turns.schedule.next_clean_at, at(2_010));
    turns.stop();
    assert_eq!(turns.next_step(), NextStep::Stop);
}

#[test]
fn a_process_without_a_generation_scans_first() {
    let mut store = Store::empty();
    let mut turns =
        DaemonLoop::start(&mut store, Some("hash".to_string()), short_options(), at(1_000)).unwrap();
    assert_eq!(turns.next_step(), NextStep::Scan);
    turns.scanned(&mut store, true, at(1_010)).unwrap();
    assert_eq!(turns.next_step(), NextStep::BeginTurn);
    assert_eq!(turns.schedule.next_scan_at, at(1_310));
}
