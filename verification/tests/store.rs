use car_go_clean::cache::Cache;
use car_go_clean::cleaner::CleanAttemptOutcome;
use car_go_clean::daemon::{generation_reconciliation, scan_publication};
use car_go_clean::identity::{FilesystemIdentity, MountIdentity, ReviewedIdentity};
use car_go_clean::path::PathBuf;
use car_go_clean::policy::ScopePolicy;
use car_go_clean::resolve::{Resolution, Resolutions};
use car_go_clean::safety::{CleanDecision, ProjectClass, ProjectReview, ReviewSummary, SkipReason};
use car_go_clean::scanner::{
    DiscoveryOriginResult, ObservedProject, ScanError, ScanErrorKind, ScanReport, WorktreeDiscovery,
};
use car_go_clean::store::codec::{
    decode_target, encode_target, parse_decision, parse_project_class, parse_skip_reason, project_class_label,
};
use car_go_clean::store::migrate::SchemaColumns;
use car_go_clean::store::plans::PlanLoadError;
use car_go_clean::store::rows::{CleanEvent, DiscoveryOriginKind, ErrorRecord, RunRow, TargetRow};
use car_go_clean::store::{
    from_epoch, path_to_string, to_epoch, Store, StoreError, REVIEW_PLAN_RETENTION, SCHEMA_VERSION,
};
use car_go_clean::time::{Duration, SystemTime};

fn at(secs: i64) -> SystemTime {
    SystemTime::from_secs(secs)
}

fn file(inode: u64) -> FilesystemIdentity {
    FilesystemIdentity { device: 1, inode, mount: MountIdentity("1".to_string()) }
}

fn physical(paths: &[&str]) -> Resolutions {
    let mut known = Resolutions::new();
    for path in paths {
        known.record(PathBuf::new(path), Resolution::Physical(PathBuf::new(path)));
    }
    known
}

fn origin(completed: bool, projects: &[&str]) -> DiscoveryOriginResult {
    DiscoveryOriginResult {
        kind: DiscoveryOriginKind::ScanRoot,
        configured_path: PathBuf::new("/work"),
        canonical_path: Some(PathBuf::new("/work")),
        completed,
        error: None,
        projects: projects
            .iter()
            .enumerate()
            .map(|(index, path)| ObservedProject {
                path: PathBuf::new(path),
                project_identity: file(index as u64),
                target_identity: None,
            })
            .collect(),
    }
}

fn publish(store: &mut Store, hash: &str, secs: i64, projects: &[&str]) -> i64 {
    let generation =
        generation_reconciliation(&vec![origin(true, projects)], hash, &Some("boot".to_string()), at(secs));
    store.reconcile_generation(at(secs), &generation).unwrap().id
}

fn review(path: &str, decision: CleanDecision) -> ProjectReview {
    ProjectReview {
        path: PathBuf::new(path),
        canonical_path: Some(PathBuf::new(path)),
        class: ProjectClass::Workspace,
        target_path: PathBuf::new(&format!("{path}/target")),
        target_bytes: 11,
        reviewed_identity: None,
        decision,
    }
}

fn event(run_id: i64, secs: i64, path: &str, before: i64, after: i64, outcome: CleanAttemptOutcome) -> CleanEvent {
    CleanEvent {
        id: 0,
        run_id,
        ts: at(secs),
        path: path.to_string(),
        bytes_before: before,
        bytes_after: after,
        duration_ms: 5,
        exit_code: Some(0),
        stderr_excerpt: String::new(),
        outcome,
        measurement_failed: false,
    }
}

#[test]
fn times_and_paths_have_to_fit_the_columns() {
    assert_eq!(to_epoch(at(5)), Ok(5));
    assert_eq!(to_epoch(at(-1)), Err(StoreError::BeforeEpoch));
    assert_eq!(from_epoch(7), at(7));
    assert_eq!(path_to_string(&PathBuf::new("/a")).unwrap(), "/a");
    let odd = PathBuf::from_bytes(b"/\xff".to_vec());
    assert_eq!(path_to_string(&odd), Err(StoreError::NotText(PathBuf::from_bytes(b"/\xff".to_vec()))));
}

#[test]
fn projects_are_kept_once_with_their_times() {
    let mut store = Store::empty();
    store.upsert_project(&PathBuf::new("/work/b"), at(1)).unwrap();
    store.upsert_project(&PathBuf::new("/work/a"), at(2)).unwrap();
    store.upsert_project(&PathBuf::new("/work/b"), at(3)).unwrap();
    assert_eq!(store.project_count(), 2);
    store.mark_project_cleaned(&PathBuf::new("/work/b"), at(9)).unwrap();
    let projects = store.all_projects();
    assert_eq!(projects[0].path, "/work/a");
    assert_eq!(projects[1].last_cleaned_at, Some(at(9)));
    store.remove_project(&PathBuf::new("/work/a")).unwrap();
    assert_eq!(store.project_count(), 1);
    store.replace_cached_project_path(&PathBuf::new("/work/b"), &PathBuf::new("/work/c")).unwrap();
    assert_eq!(store.all_projects()[0].path, "/work/c");
}

#[test]
fn runs_are_recorded_and_finished() {
    let mut store = Store::empty();
    assert_eq!(store.last_run().unwrap_err(), StoreError::NoRuns);
    let id = store.start_run(at(10)).unwrap();
    store.finish_run(id + 1, at(15), 9, 9, 9).unwrap();
    assert_eq!(store.last_run().unwrap().finished_at, None);
    store.finish_run(id, at(20), 2, 300, 1).unwrap();
    let run = store.last_run().unwrap();
    assert_eq!(run.started_at, at(10));
    assert_eq!(run.finished_at, Some(at(20)));
    assert_eq!(run.projects_cleaned, 2);
    assert_eq!(run.errors_count, 1);
}

#[test]
fn statistics_count_what_was_recovered() {
    let mut store = Store::empty();
    let run = store.start_run(at(10)).unwrap();
    store.record_clean_event(&event(run, 11, "/work/a", 100, 10, CleanAttemptOutcome::Success)).unwrap();
    store.record_clean_event(&event(run, 12, "/work/b", 300, 0, CleanAttemptOutcome::Success)).unwrap();
    let mut failed = event(run, 13, "/work/a", 50, 50, CleanAttemptOutcome::CargoNonzero);
    failed.exit_code = Some(101);
    store.record_clean_event(&failed).unwrap();
    assert_eq!(
        store.record_clean_event(&event(run + 1, 13, "/work/a", 1, 0, CleanAttemptOutcome::Success)),
        Err(StoreError::UnknownRun)
    );
    assert_eq!(store.total_bytes_recovered(at(0)).unwrap(), 390);
    assert_eq!(store.total_bytes_recovered(at(12)).unwrap(), 300);
    let top = store.top_projects_by_bytes(at(0), 1).unwrap();
    assert_eq!(top.len(), 1);
    assert_eq!(top[0].path, "/work/b");
    assert_eq!(store.failed_clean_attempts(at(0)).unwrap(), 1);
    assert_eq!(store.clean_events_since(at(12)).unwrap().len(), 2);
}

#[test]
fn problems_are_found_again_by_time() {
    let mut store = Store::empty();
    store
        .record_error(&ErrorRecord {
            id: 0,
            ts: at(50),
            category: "scan".to_string(),
            path: Some("/work/closed".to_string()),
            message: "denied".to_string(),
        })
        .unwrap();
    assert_eq!(store.errors_since(at(50)).unwrap().len(), 1);
    assert!(store.errors_since(at(51)).unwrap().is_empty());
    assert_eq!(store.scan_error_paths_since(at(0)).unwrap(), vec![PathBuf::new("/work/closed")]);
    assert!(store.scan_coverage_incomplete_since(at(0)).unwrap());
}

#[test]
fn only_the_newest_generation_is_current() {
    let mut store = Store::empty();
    let first = publish(&mut store, "hash", 100, &["/work/app"]);
    assert_eq!(store.current_generation("hash").unwrap().id, first);
    assert_eq!(store.authorized_observations(first).len(), 1);
    assert!(!store.current_generation_coverage_incomplete("hash"));
    let second = publish(&mut store, "other", 200, &["/work/app", "/work/lib"]);
    assert!(store.current_generation("hash").is_none());
    assert!(!store.has_matching_generation("hash"));
    assert!(store.authorized_observations(first).is_empty());
    assert_eq!(store.authorized_observations(second).len(), 2);
    assert_eq!(store.discovery_origins(second).len(), 1);
    assert!(store.current_generation_coverage_incomplete("hash"));
}

#[test]
fn an_origin_observes_a_project_once() {
    let mut store = Store::empty();
    let generation =
        generation_reconciliation(&vec![origin(true, &["/work/app", "/work/app"])], "hash", &None, at(1));
    assert_eq!(
        store.reconcile_generation(at(1), &generation).unwrap_err(),
        StoreError::DuplicateObservation(PathBuf::new("/work/app"))
    );
    assert!(store.current_generation("hash").is_none());
}

#[test]
fn plans_load_back_until_they_are_void() {
    let mut store = Store::empty();
    let generation = publish(&mut store, "hash", 100, &["/work/app"]);
    let reviews = vec![review("/work/app", CleanDecision::Cleanable)];
    let plan = store.create_review_plan(at(1_000), "hash", generation, true, 11, &reviews).unwrap();
    assert_eq!(plan.expires_at, at(2_800));

    let loaded = store.load_review_plan(plan.id, at(1_001), "hash", generation).unwrap();
    assert_eq!(loaded, plan);
    assert_eq!(loaded.targets[0].review, reviews[0]);
    assert!(loaded.coverage_incomplete);

    assert_eq!(store.load_review_plan(plan.id + 1, at(1_001), "hash", generation), Err(PlanLoadError::Missing));
    assert_eq!(
        store.load_review_plan(plan.id, at(1_001), "other", generation),
        Err(PlanLoadError::PolicyMismatch)
    );
    assert_eq!(store.load_review_plan(plan.id, at(1_001), "hash", generation), Err(PlanLoadError::Missing));
    let plan = store.create_review_plan(at(1_000), "hash", generation, true, 11, &reviews).unwrap();
    assert_eq!(
        store.load_review_plan(plan.id, at(1_001), "hash", generation + 1),
        Err(PlanLoadError::GenerationMismatch)
    );
    let plan = store.create_review_plan(at(1_000), "hash", generation, true, 11, &reviews).unwrap();
    assert_eq!(store.load_review_plan(plan.id, at(2_800), "hash", generation), Err(PlanLoadError::Expired));
    assert_eq!(PlanLoadError::Expired.message(), "review plan has expired");
}

#[test]
fn plans_are_bounded_in_number() {
    let mut store = Store::empty();
    let generation = publish(&mut store, "hash", 100, &["/work/app"]);
    for second in 0..25 {
        store.create_review_plan(at(1_000 + second), "hash", generation, false, 0, &vec![]).unwrap();
    }
    assert_eq!(store.review_plans.len(), REVIEW_PLAN_RETENTION);
    store.prune_review_plans(at(10_000), None).unwrap();
    assert!(store.review_plans.is_empty());
    assert_eq!(
        store.create_review_plan(at(1), "hash", generation + 1, false, 0, &vec![]).unwrap_err(),
        StoreError::NotCurrentGeneration
    );
}

#[test]
fn targets_are_read_back_from_their_columns() {
    for decision in [
        CleanDecision::Cleanable,
        CleanDecision::Skipped(SkipReason::NoTarget),
        CleanDecision::Skipped(SkipReason::ActiveRecentWrite { newest_age_secs: 9 }),
        CleanDecision::Skipped(SkipReason::CrossMountTarget),
    ] {
        let row = encode_target(3, &review("/work/app", decision)).unwrap();
        let target = decode_target(&row).unwrap();
        assert_eq!(target.ordinal, 3);
        assert_eq!(target.review, review("/work/app", decision));
    }
    assert_eq!(parse_project_class(project_class_label(ProjectClass::ContainerStorage)), Ok(ProjectClass::ContainerStorage));
    assert_eq!(parse_skip_reason("no_target", None), Ok(SkipReason::NoTarget));
}

#[test]
fn columns_that_stand_for_nothing_say_what_is_wrong() {
    let said = |text: &str| -> Result<(), String> { Err(text.to_string()) };
    let class = |label: &str| parse_project_class(label).map(|_| ());
    let reason = |label: &str, age| parse_skip_reason(label, age).map(|_| ());
    let decision = |label: &str, reason: Option<&str>, age| {
        parse_decision(label, &reason.map(|text| text.to_string()), age).map(|_| ())
    };
    assert_eq!(class("at\"tic"), said(r#"unknown persisted project class "at\"tic""#));
    assert_eq!(reason("active_recent_write", None), said("active_recent_write is missing newest age"));
    assert_eq!(reason("active_recent_write", Some(-1)), said("active_recent_write newest age is out of range"));
    assert_eq!(
        reason("no_target", Some(3)),
        said(r#"persisted skip reason "no_target" unexpectedly has a newest age"#)
    );
    assert_eq!(reason("tired", None), said(r#"unknown persisted skip reason "tired""#));
    assert_eq!(
        decision("skipped", None, None),
        said(r#"invalid persisted cleanup decision "skipped" with skip reason None"#)
    );
    assert_eq!(
        decision("maybe", Some("no_target"), None),
        said(r#"invalid persisted cleanup decision "maybe" with skip reason Some("no_target")"#)
    );

    let row = || encode_target(0, &review("/work/app", CleanDecision::Cleanable)).unwrap();
    let target = |row: TargetRow| decode_target(&row).map(|_| ());
    assert_eq!(target(TargetRow { ordinal: -1, ..row() }), said("review-plan target ordinal is out of range"));
    assert_eq!(
        target(TargetRow { project_device: Some(1), ..row() }),
        said("persisted review identity is incomplete")
    );
    assert_eq!(target(TargetRow { reviewed_bytes: -1, ..row() }), said("reviewed target bytes are out of range"));
    let identified = || TargetRow {
        project_device: Some(1),
        project_inode: Some(2),
        project_mount_id: Some("m".to_string()),
        target_device: Some(1),
        target_inode: Some(3),
        target_mount_id: Some("m".to_string()),
        ..row()
    };
    assert!(target(identified()).is_ok());
    assert_eq!(
        target(TargetRow { project_device: Some(-1), ..identified() }),
        said("project device is out of range")
    );
    assert_eq!(target(TargetRow { project_inode: Some(-1), ..identified() }), said("project inode is out of range"));
    assert_eq!(target(TargetRow { target_device: Some(-1), ..identified() }), said("target device is out of range"));
    assert_eq!(target(TargetRow { target_inode: Some(-1), ..identified() }), said("target inode is out of range"));
}

#[test]
fn unreadable_plans_say_what_is_wrong_first() {
    let mut store = Store::empty();
    let generation = publish(&mut store, "hash", 100, &["/work/app"]);
    let reviews =
        vec![review("/work/app", CleanDecision::Cleanable), review("/work/other", CleanDecision::Cleanable)];
    let plan = store.create_review_plan(at(1_000), "hash", generation, true, 11, &reviews).unwrap();
    store.review_plans[0].targets[1].reviewed_bytes = -1;
    store.review_plans[0].targets[1].project_class = "attic".to_string();
    let refused = store.load_review_plan(plan.id, at(1_001), "hash", generation).unwrap_err();
    assert_eq!(refused, PlanLoadError::Storage(r#"unknown persisted project class "attic""#.to_string()));
    assert_eq!(refused.message(), r#"review plan storage error: unknown persisted project class "attic""#);
    store.review_plans[0].targets[0].decision = "kept".to_string();
    assert_eq!(
        store.load_review_plan(plan.id, at(1_001), "hash", generation),
        Err(PlanLoadError::Storage(
            r#"invalid persisted cleanup decision "kept" with skip reason None"#.to_string()
        ))
    );
    assert_eq!(
        store.load_review_plan(plan.id, at(-1), "hash", generation),
        Err(PlanLoadError::Storage("second time provided was later than self".to_string()))
    );
}

#[test]
fn plans_name_the_first_target_that_cannot_be_stored() {
    let mut store = Store::empty();
    let generation = publish(&mut store, "hash", 100, &["/work/app"]);
    let good = || review("/work/app", CleanDecision::Cleanable);
    let odd = || PathBuf::from_bytes(b"/\xff".to_vec());
    let other = || PathBuf::from_bytes(b"/\xfe".to_vec());
    let large = ProjectReview { target_bytes: u64::MAX, path: odd(), ..good() };
    let old = review(
        "/work/app",
        CleanDecision::Skipped(SkipReason::ActiveRecentWrite { newest_age_secs: u64::MAX }),
    );
    let nameless = ProjectReview { canonical_path: Some(odd()), target_path: other(), ..good() };
    let far = ProjectReview {
        reviewed_identity: Some(ReviewedIdentity {
            project: file(u64::MAX),
            target: file(1),
            boot_session: None,
        }),
        target_bytes: u64::MAX,
        ..good()
    };
    let mut refused = |reviews: Vec<ProjectReview>| {
        store.create_review_plan(at(1_000), "hash", generation, true, 11, &reviews).unwrap_err()
    };
    assert_eq!(refused(vec![good(), large.clone(), old.clone()]), StoreError::BytesOutOfRange);
    assert_eq!(refused(vec![good(), old.clone(), large.clone()]), StoreError::AgeOutOfRange);
    assert_eq!(refused(vec![nameless.clone(), far.clone()]), StoreError::NotText(odd()));
    assert_eq!(refused(vec![far.clone(), nameless.clone()]), StoreError::OutOfRange);
    assert_eq!(
        refused(vec![ProjectReview { target_path: other(), ..good() }]),
        StoreError::NotText(other())
    );
}

#[test]
fn failed_discoveries_block_their_checkouts_until_they_succeed() {
    let mut store = Store::empty();
    let known = physical(&["/work/main", "/work/linked"]);
    store
        .replace_linked_worktrees(&PathBuf::new("/work/main"), &vec![PathBuf::new("/work/linked")], &known)
        .unwrap();
    assert!(store.blocked_worktree_discovery_paths(&known).unwrap().is_empty());
    store.mark_worktree_discovery_failed(&PathBuf::new("/work/main"), at(5), "fatal: broken", &known).unwrap();
    let blocked = store.blocked_worktree_discovery_paths(&known).unwrap();
    assert!(blocked.contains(&PathBuf::new("/work/main")));
    assert!(blocked.contains(&PathBuf::new("/work/linked")));
    assert!(store.is_active_worktree_discovery_identity(&PathBuf::new("/work/main")).unwrap());
    store
        .replace_linked_worktrees(&PathBuf::new("/work/main"), &vec![PathBuf::new("/work/linked")], &known)
        .unwrap();
    assert!(store.blocked_worktree_discovery_paths(&known).unwrap().is_empty());
}

#[test]
fn failed_checkouts_stay_blocked_whatever_others_do() {
    let mut store = Store::empty();
    let known = physical(&["/work/main", "/work/linked", "/work/other", "/work/spare"]);
    let main = PathBuf::new("/work/main");
    let other = PathBuf::new("/work/other");
    store.replace_linked_worktrees(&main, &vec![PathBuf::new("/work/linked")], &known).unwrap();
    store.replace_linked_worktrees(&other, &vec![PathBuf::new("/work/spare")], &known).unwrap();
    store.mark_worktree_discovery_failed(&main, at(5), "fatal: broken", &known).unwrap();
    store.mark_worktree_discovery_failed(&other, at(6), "fatal: locked", &known).unwrap();
    store.upsert_project(&PathBuf::new("/work/app"), at(7)).unwrap();
    store.replace_linked_worktrees(&other, &vec![], &known).unwrap();
    store.mark_worktree_discovery_failed(&main, at(8), "fatal: still broken", &known).unwrap();
    let blocked = store.blocked_worktree_discovery_paths(&known).unwrap();
    assert_eq!(blocked, vec![PathBuf::new("/work/linked"), PathBuf::new("/work/main")]);
}

#[test]
fn scans_are_published_at_once() {
    let mut store = Store::empty();
    let known = physical(&["/work/main", "/work/app"]);
    let report = ScanReport {
        projects: vec![PathBuf::new("/work/app")],
        errors: vec![ScanError {
            path: PathBuf::new("/work/closed"),
            message: "denied".to_string(),
            kind: ScanErrorKind::Scan,
        }],
        worktree_discoveries: vec![WorktreeDiscovery::Failure {
            primary: PathBuf::new("/work/main"),
            message: "fatal: broken".to_string(),
        }],
    };
    let generation = generation_reconciliation(&vec![origin(false, &["/work/app"])], "hash", &None, at(100));
    let publication = scan_publication(&report, generation, at(100));
    let published = store.publish_scan(at(100), &publication, &known).unwrap();
    assert_eq!(store.current_generation("hash").unwrap().id, published.id);
    assert!(store.current_generation_coverage_incomplete("hash"));
    assert_eq!(store.blocked_worktree_discovery_paths(&known).unwrap(), vec![PathBuf::new("/work/main")]);
    assert_eq!(store.scan_error_paths_since(at(0)).unwrap(), vec![PathBuf::new("/work/closed")]);
}

#[test]
fn the_cache_forgets_what_is_gone() {
    let mut store = Store::empty();
    let mut known = physical(&["/work/a"]);
    known.record(PathBuf::new("/work/b"), Resolution::NotFound);
    store.upsert_project(&PathBuf::new("/work/a"), at(1)).unwrap();
    store.upsert_project(&PathBuf::new("/work/b"), at(1)).unwrap();
    let removed = Cache::sync_on_disk(&mut store, &vec![PathBuf::new("/work/a")], &known).unwrap();
    assert_eq!(removed, vec![PathBuf::new("/work/b")]);
    assert_eq!(store.project_count(), 1);
    assert!(Cache::verify(true, true));
    assert!(!Cache::verify(true, false));
    let policy = ScopePolicy {
        canonical_scan_roots: vec![PathBuf::new("/work")],
        canonical_project_paths: vec![],
        lexical_exclusions: vec!["a".to_string()],
        canonical_exclusions: vec![],
        protected_roots: vec![],
        target_quiet_period: Duration::from_secs(1),
        scan_interval: Duration::from_secs(1),
        config_source: PathBuf::new("/config.toml"),
        hash: "hash".to_string(),
        policy_hash_format_version: 2,
    };
    assert!(Cache::reconcile_for_review(&mut store, &policy, &known).unwrap().is_empty());
}

#[test]
fn migrations_keep_history_and_grant_no_authority() {
    let mut store = Store::empty();
    let generation = publish(&mut store, "hash", 100, &["/work/app"]);
    let run = store.start_run(at(10)).unwrap();
    store.record_clean_event(&event(run, 11, "/work/app", 100, 10, CleanAttemptOutcome::Success)).unwrap();
    store.schema_version = 12;
    let columns = SchemaColumns { generation_authority: true, mount_identity: true };
    store.migrate(columns, &physical(&["/work/app"]), at(200)).unwrap();
    assert_eq!(store.schema_version, SCHEMA_VERSION);
    assert!(store.current_generation("hash").is_none());
    assert!(store.authorized_observations(generation).is_empty());
    assert_eq!(store.clean_events_since(at(0)).unwrap().len(), 1);
    assert_eq!(store.runs.len(), 1);

    let again = publish(&mut store, "hash", 300, &["/work/app"]);
    store.migrate(columns, &physical(&["/work/app"]), at(400)).unwrap();
    assert_eq!(store.current_generation("hash").unwrap().id, again);
}

#[test]
fn schedules_and_reviews_are_stored() {
    let mut store = Store::empty();
    assert!(store.scheduler_status().is_none());
    assert_eq!(store.record_scan_retry_at(at(1)), Err(StoreError::NoSchedulerState));
    store.record_scheduler_status(at(1), at(10), at(20)).unwrap();
    let status = store.scheduler_status().unwrap();
    assert_eq!(status.next_clean_at, at(10));
    assert_eq!(status.next_scan_at, at(20));
    store.record_scan_retry_at(at(30)).unwrap();
    assert_eq!(store.scan_retry_at(), Some(at(30)));
    store.clear_scan_retry_at();
    assert_eq!(store.scan_retry_at(), None);

    let summary = ReviewSummary {
        total_projects: 1,
        cleanable_projects: 1,
        skipped_projects: 0,
        cleanable_bytes: 11,
        active_recent_write: 0,
        active_process: 0,
        managed_cache: 0,
        container_storage: 0,
        scan_error: 0,
        no_target: 0,
        target_read_error: 0,
    };
    store.record_review_status(at(40), "run", &summary).unwrap();
    let review = store.last_review_status().unwrap();
    assert_eq!(review.reviewed_at, at(40));
    assert_eq!(review.summary.cleanable_bytes, 11);
    let copy = store.duplicate();
    assert_eq!(copy.scheduler_status(), store.scheduler_status());
}

#[test]
fn reverified_observations_take_the_new_session() {
    let mut store = Store::empty();
    let generation = publish(&mut store, "hash", 100, &["/work/app"]);
    let identity = car_go_clean::identity::ReviewedIdentity {
        project: file(5),
        target: file(6),
        boot_session: Some(car_go_clean::identity::BootSessionId("next".to_string())),
    };
    store.mark_observation_reverified(generation, &PathBuf::new("/work/app"), &identity).unwrap();
    let observed = &store.authorized_observations(generation)[0];
    assert_eq!(observed.project_identity, file(5));
    assert_eq!(observed.boot_session_id.as_deref(), Some("next"));
    assert_eq!(
        store.mark_observation_reverified(generation, &PathBuf::new("/work/none"), &identity),
        Err(StoreError::NoAuthorizedObservation)
    );
    store.runs.push(RunRow {
        id: 77,
        started_at: 1,
        finished_at: None,
        projects_cleaned: 0,
        bytes_recovered: 0,
        errors_count: 0,
    });
    assert_eq!(store.last_run().unwrap().id, 77);
}

#[test]
fn numbers_stay_different_and_the_newest_generation_alone_is_valid() {
    let mut store = Store::empty();
    let first = publish(&mut store, "hash", 100, &["/work/app"]);
    let second = publish(&mut store, "other", 200, &["/work/app"]);
    assert!(second > first);
    assert!(store.current_generation("hash").is_none());
    let current = store.current_generation("other").unwrap();
    assert_eq!((current.id, current.created_at), (second, at(200)));
    let valid: Vec<i64> =
        store.discovery_generations.iter().filter(|row| row.authority_valid).map(|row| row.id).collect();
    assert_eq!(valid, vec![second]);
    for secs in 0..5 {
        let run = store.start_run(at(300 + secs)).unwrap();
        store.record_clean_event(&event(run, 301 + secs, "/work/app", 2, 1, CleanAttemptOutcome::Success)).unwrap();
    }
    let mut numbers: Vec<i64> = store.runs.iter().map(|row| row.id).collect();
    numbers.dedup();
    assert_eq!(numbers.len(), 5);
    assert!(numbers.iter().all(|id| *id < store.next_run_id));
}

#[test]
fn failures_block_each_discovered_worktree_once() {
    let mut store = Store::empty();
    let known = physical(&["/work/main", "/work/linked", "/work/other"]);
    let main = PathBuf::new("/work/main");
    let linked = vec![PathBuf::new("/work/other"), PathBuf::new("/work/linked"), PathBuf::new("/work/other")];
    store.replace_linked_worktrees(&main, &linked, &known).unwrap();
    store.mark_worktree_discovery_failed(&main, at(5), "fatal: broken", &known).unwrap();
    store.mark_worktree_discovery_failed(&main, at(6), "fatal: again", &known).unwrap();
    let mut blocked = store.blocked_worktree_discovery_paths(&known).unwrap();
    blocked.sort_by_key(|path| path.to_str());
    assert_eq!(
        blocked,
        vec![PathBuf::new("/work/linked"), PathBuf::new("/work/main"), PathBuf::new("/work/other")]
    );
}
