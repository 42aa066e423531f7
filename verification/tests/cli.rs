use car_go_clean::cli::authority::{
    cleanup_authority_diagnostics, cleanup_authority_lines, cleanup_authority_status, root_diagnostics,
    root_provenance_label, service_diagnostics, GenerationState,
};
use car_go_clean::cli::format::{
    age_words, divergence_label, format_count, format_count_i64, format_count_u64, format_duration_display,
    format_paths, keep_tail, schedule_time_label, yes_no, yes_no_unknown,
};
use car_go_clean::cli::reports::{add_paths, normalize_scan_errors};
use car_go_clean::cli::reviews::{
    begin_reviews, class_label, cleanable_target_preview, decision_label, finish_reviews, refreshed_status,
    review_batch_incomplete_status, review_lines, review_source_label, review_status_lines, summary_lines,
};
use car_go_clean::cli::runs::{
    candidate_bytes, clean_report, current_plan_generation, preview_report, review_plan_lines, run_command_report,
    run_line, run_result_status, scan_execution, scan_lines, scan_projects, RunKind, RunOptions,
};
use car_go_clean::cli::since::{calendar_time, is_since_countable, parse_since, since_time, SinceError};
use car_go_clean::cli::{
    failure_reason, health_fault, json_failure_context, last_run_words, outcome_lines, paths_for,
    scheduler_status_lines, stats_lines, CommandKind, FailureCause, HealthFault, JsonFailureContext,
};
use car_go_clean::config::paths;
use car_go_clean::daemon::{RunCycleResult, ScanCycleResult};
use car_go_clean::environment::ProcessEnvironment;
use car_go_clean::outcome::{CommandOutcome, CommandStatus, ScanErrorReport};
use car_go_clean::path::PathBuf;
use car_go_clean::policy::{ProtectedRoot, ProtectedRootKind, RootProvenance, ScopePolicy};
use car_go_clean::resolve::Resolutions;
use car_go_clean::safety::{review_summary, CleanDecision, ProjectClass, ProjectReview, SkipReason};
use car_go_clean::scanner::DiscoveryOriginResult;
use car_go_clean::service::ServiceStatus;
use car_go_clean::store::plans::PlanLoadError;
use car_go_clean::store::rows::{DiscoveryOriginKind, GenerationReconciliation, OriginReconciliation, ProjectBytes, Run};
use car_go_clean::store::Store;
use car_go_clean::time::{Duration, SystemTime};

fn at(secs: i64) -> SystemTime {
    SystemTime::from_secs(secs)
}

fn origin(completed: bool, error: Option<&str>) -> DiscoveryOriginResult {
    DiscoveryOriginResult {
        kind: DiscoveryOriginKind::ScanRoot,
        configured_path: PathBuf::new("/work/root-alias"),
        canonical_path: Some(PathBuf::new("/work/physical-root")),
        completed,
        error: error.map(|text| text.to_string()),
        projects: vec![],
    }
}

fn scan(errors: usize, origins: Vec<DiscoveryOriginResult>) -> ScanCycleResult {
    ScanCycleResult { errors, generation: 3, policy_hash: "hash".to_string(), origins }
}

fn policy() -> ScopePolicy {
    ScopePolicy {
        canonical_scan_roots: vec![PathBuf::new("/work")],
        canonical_project_paths: vec![],
        lexical_exclusions: vec![],
        canonical_exclusions: vec![],
        protected_roots: vec![ProtectedRoot {
            path: PathBuf::new("/home/tester/.cargo"),
            kind: ProtectedRootKind::Cargo,
            provenance: RootProvenance::Default,
        }],
        target_quiet_period: Duration::from_secs(60),
        scan_interval: Duration::from_secs(60),
        config_source: PathBuf::new("/config.toml"),
        hash: "hash".to_string(),
        policy_hash_format_version: 2,
    }
}

fn review(path: &str, bytes: u64, decision: CleanDecision) -> ProjectReview {
    ProjectReview {
        path: PathBuf::new(path),
        canonical_path: Some(PathBuf::new(path)),
        class: ProjectClass::Workspace,
        target_path: PathBuf::new(&format!("{path}/target")),
        target_bytes: bytes,
        reviewed_identity: None,
        decision,
    }
}

fn published(completed: bool) -> Store {
    let mut store = Store::empty();
    let generation = GenerationReconciliation {
        policy_hash: "hash".to_string(),
        boot_session_id: None,
        origins: vec![OriginReconciliation {
            kind: DiscoveryOriginKind::ScanRoot,
            configured_path: PathBuf::new("/work"),
            canonical_path: Some(PathBuf::new("/work")),
            completed,
            error: if completed { None } else { Some("denied".to_string()) },
            observations: vec![],
        }],
    };
    store.reconcile_generation(at(1_000), &generation).unwrap();
    store
}

fn no_service() -> (car_go_clean::cli::authority::ServiceStateDiagnostics, Option<bool>) {
    service_diagnostics(
        false,
        None,
        Ok(ServiceStatus { installed: false, enabled: false, active: false }),
        Ok(None),
        &ProcessEnvironment { values: vec![] },
    )
}

fn run_result(cargo: i64, measurement: i64, cleanup: i64, coverage_incomplete: bool) -> RunCycleResult {
    RunCycleResult {
        run_id: 4,
        cleaned: 1,
        skipped: 2,
        bytes_recovered: 2_048,
        errors: cargo + measurement + cleanup,
        cargo_failures: cargo,
        measurement_failures: measurement,
        cleanup_failures: cleanup,
        coverage_incomplete,
    }
}

#[test]
fn broken_bound_root_maps_to_the_public_incomplete_exit_code() {
    let execution = scan_execution(&scan(1, vec![origin(false, Some("No such file or directory"))]));
    let outcome = execution.status.outcome();

    assert_eq!(outcome, CommandOutcome::Incomplete);
    assert_eq!(outcome.code(), 2);
}

#[test]
fn scans_report_their_open_origins() {
    let result = scan(2, vec![origin(true, None), origin(false, Some("denied"))]);
    assert_eq!(
        scan_lines(&result),
        vec![
            "Scan complete: errors=2",
            "Authority: generation=3 policy_hash=hash",
            "Incomplete origin: /work/root-alias (denied)",
        ]
    );
    let execution = scan_execution(&result);
    assert_eq!(execution.status.report().reasons, vec!["origin_incomplete", "scan_incomplete"]);
    assert_eq!(execution.scan_errors.len(), 1);
    assert!(scan_projects(&result).is_empty());
    assert_eq!(scan_execution(&scan(0, vec![origin(true, None)])).status.outcome(), CommandOutcome::Complete);
}

#[test]
fn numbers_are_grouped() {
    assert_eq!(format_count(0), "0");
    assert_eq!(format_count(999), "999");
    assert_eq!(format_count(1_000), "1,000");
    assert_eq!(format_count_u64(18_446_744_073_709_551_615), "18,446,744,073,709,551,615");
    assert_eq!(format_count_i64(-1_234_567), "-1,234,567");
}

#[test]
fn spans_show_their_three_greatest_units() {
    assert_eq!(format_duration_display(Duration::from_secs(0)), "0 seconds");
    assert_eq!(format_duration_display(Duration::from_millis(250)), "250 ms");
    assert_eq!(format_duration_display(Duration::from_secs(3_661)), "1 hour 1 minute 1 second");
    assert_eq!(format_duration_display(Duration::from_secs(90_061)), "1 day 1 hour 1 minute");
    assert_eq!(schedule_time_label(at(160), at(100)), "in 1 minute");
    assert_eq!(schedule_time_label(at(100), at(102)), "overdue by 2 seconds");
    assert_eq!(age_words(at(100), at(160)), "1 minute ago");
    assert_eq!(age_words(at(200), at(160)), "0 seconds ago");
}

#[test]
fn answers_are_worded() {
    assert_eq!(yes_no(true), "yes");
    assert_eq!(yes_no_unknown(None), "<unknown>");
    assert_ne!(divergence_label(Some(true)), divergence_label(Some(false)));
    assert_eq!(format_paths(&vec![]), "<none>");
    assert_eq!(format_paths(&vec![PathBuf::new("/a"), PathBuf::from_bytes(b"/\xff".to_vec())]), "/a, /\u{fffd}");
}

#[test]
fn tails_keep_the_last_lines() {
    let mut kept = Vec::new();
    for line in ["one", "two", "three"] {
        keep_tail(&mut kept, line.to_string(), 2);
    }
    assert_eq!(kept, vec!["two", "three"]);
    let mut none: Vec<String> = Vec::new();
    keep_tail(&mut none, "one".to_string(), 0);
    assert!(none.is_empty());
}

#[test]
fn spans_are_read_in_days_weeks_and_units() {
    assert_eq!(parse_since("2d").unwrap(), Duration::from_secs(172_800));
    assert_eq!(parse_since("1w").unwrap(), Duration::from_secs(604_800));
    assert_eq!(parse_since("1h 30m").unwrap(), Duration::from_secs(5_400));
    assert_eq!(parse_since("250ms").unwrap(), Duration::from_millis(250));
    assert!(matches!(parse_since("xd"), Err(SinceError::Number)));
    assert!(matches!(parse_since("soon"), Err(SinceError::Span(_))));
    assert!(is_since_countable("1h"));
    assert!(is_since_countable("123456789012s"));
    assert_eq!(parse_since("86400000000000ns").unwrap(), Duration::from_secs(86_400));
    assert!(matches!(parse_since("99999999999999999999s"), Err(SinceError::Span(_))));
    assert!(is_since_countable("1.5h 20m"));
    assert!(!is_since_countable("18446744073709551615s 1000ms"));
    assert!(is_since_countable("1s 86400000000000ns"));
    assert_eq!(parse_since("1s 86400000000000ns").unwrap(), Duration::from_secs(86_401));
    assert_eq!(parse_since("0.50000000000h 1m").unwrap(), Duration::from_secs(1_860));
    let long = "1s ".repeat(60);
    assert!(is_since_countable(&long));
    assert_eq!(parse_since(&long).unwrap(), Duration::from_secs(60));
    assert!(is_since_countable("00000000000000000001s 1ms"));
    assert_eq!(parse_since("00000000000000000001s 1ms").unwrap(), Duration::from_millis(1_001));
    assert!(!is_since_countable("18446744073709551615d"));
    assert_eq!(since_time(at(100), Some(Duration::from_secs(40))), Some(at(60)));
}

#[test]
fn times_are_shown_in_the_calendar() {
    assert_eq!(calendar_time(at(1_700_000_000)).unwrap(), "2023-11-14T22:13:20Z");
    assert_eq!(calendar_time(at(253_402_300_799)).unwrap(), "9999-12-31T23:59:59Z");
    assert!(calendar_time(at(253_402_300_800)).is_none());
}

#[test]
fn failures_are_reported_under_the_command() {
    assert_eq!(
        json_failure_context(CommandKind::Run, true, Some(5)),
        Some(JsonFailureContext { command: "run", review_id: Some(5) })
    );
    assert_eq!(json_failure_context(CommandKind::Run, false, Some(5)), None);
    assert_eq!(failure_reason(&vec![FailureCause::Plan(PlanLoadError::Expired)]), "review_plan_expired");
    assert_eq!(failure_reason(&vec![FailureCause::Plan(PlanLoadError::Missing)]), "review_plan_missing");
    assert_eq!(
        failure_reason(&vec![FailureCause::Plan(PlanLoadError::PolicyMismatch)]),
        "review_policy_mismatch"
    );
    assert_eq!(
        failure_reason(&vec![FailureCause::Plan(PlanLoadError::GenerationMismatch)]),
        "review_generation_mismatch"
    );
    assert_eq!(failure_reason(&vec![FailureCause::Message("oops".to_string())]), "command_failed");
}

#[test]
fn state_stands_below_the_chosen_directory() {
    let set = paths_for(paths(None, &PathBuf::new("/home/tester")), Some(PathBuf::new("/state")));
    assert_eq!(set.db_path, PathBuf::new("/state/state.db"));
    assert_eq!(set.log_path, PathBuf::new("/state/car-go-clean.log"));
    assert_eq!(set.lock_path, PathBuf::new("/state/daemon.lock"));
}

#[test]
fn health_names_the_first_place_that_is_missing() {
    let scan_dirs = vec![PathBuf::new("/work"), PathBuf::new("/gone")];
    let projects = vec![PathBuf::new("/app")];
    assert_eq!(
        health_fault(&scan_dirs, &vec![true, false], &projects, &vec![false]),
        Some(HealthFault::ScanDir(PathBuf::new("/gone")))
    );
    assert_eq!(
        health_fault(&scan_dirs, &vec![true, true], &projects, &vec![false]),
        Some(HealthFault::ProjectDir(PathBuf::new("/app")))
    );
    assert_eq!(health_fault(&scan_dirs, &vec![true, true], &projects, &vec![true]), None);
}

#[test]
fn outcomes_schedules_and_statistics_are_shown() {
    assert_eq!(
        outcome_lines(&CommandStatus::incomplete("scan_incomplete").report()),
        vec!["Outcome: incomplete (code=2)", "Reasons: scan_incomplete"]
    );
    let run = Run {
        id: 7,
        started_at: at(1),
        finished_at: None,
        projects_cleaned: 1_200,
        bytes_recovered: 5,
        errors_count: 0,
    };
    assert_eq!(last_run_words(&run, "5 B"), "id=7 cleaned=1,200 recovered=5 B errors=0");
    assert_eq!(
        stats_lines(10, 1, &vec![ProjectBytes { path: "/work/app".to_string(), bytes: 10 }]),
        vec!["Bytes recovered: 10", "Failed clean attempts: 1", "  1. /work/app - 10 bytes"]
    );
    let lines = scheduler_status_lines(Duration::from_secs(60), Duration::from_secs(120), None, at(0));
    assert_eq!(lines.len(), 5);
    assert!(lines[0].ends_with("1 minute"));
    assert!(lines[2].ends_with("<not recorded>"));
}

#[test]
fn run_options_choose_what_a_run_does() {
    let plain = RunOptions {
        dry_run: false,
        no_scan: false,
        include_managed_cache: false,
        include_active: false,
        force: false,
        all: false,
        review: None,
        json: false,
    };
    assert_eq!(plain.kind(), RunKind::Clean);
    assert!(plain.scans_first());
    let reviewed = RunOptions { review: Some(3), force: true, include_active: true, ..plain };
    assert_eq!(reviewed.kind(), RunKind::Reviewed(3));
    assert!(!reviewed.scans_first());
    let cached = RunOptions { no_scan: true, ..plain };
    assert!(!cached.scans_first());
    assert_eq!(cached.kind(), plain.kind());
    assert!(!cached.safety(Duration::from_secs(9)).force);
    assert!(!cached.safety(Duration::from_secs(9)).include_active);
    assert!(!cached.safety(Duration::from_secs(9)).include_managed_cache);
    let preview = RunOptions { dry_run: true, ..plain };
    assert_eq!(preview.kind(), RunKind::Preview);
    assert_eq!(plain.safety(Duration::from_secs(9)).target_quiet_period, Duration::from_secs(9));
}

#[test]
fn failures_outrank_a_limited_coverage() {
    assert_eq!(run_result_status(&run_result(0, 0, 0, false), &vec![]).outcome(), CommandOutcome::Complete);
    assert_eq!(run_result_status(&run_result(0, 0, 0, true), &vec![]).outcome(), CommandOutcome::Incomplete);
    let failed = run_result_status(&run_result(1, 1, 1, true), &vec![]);
    assert_eq!(failed.outcome(), CommandOutcome::Failed);
    assert_eq!(
        failed.report().reasons,
        vec!["cargo_failed", "cleanup_failed", "measurement_failed", "scan_incomplete"]
    );
    assert_eq!(
        run_line(&run_result(0, 0, 0, false)),
        "Run complete: cleaned=1 skipped=2 recovered=2048 errors=0"
    );
}

#[test]
fn authority_is_current_missing_or_invalid() {
    let policy = policy();
    let current = |store: &Store| {
        let (service, divergence) = no_service();
        cleanup_authority_diagnostics(&policy, store, at(1_010), Duration::from_secs(60), service, divergence).unwrap()
    };
    let complete = current(&published(true));
    assert_eq!(complete.generation_state, GenerationState::Current);
    assert!(complete.incomplete_origins.is_empty());
    let open = current(&published(false));
    assert_eq!(open.incomplete_origins.len(), 1);
    assert_eq!(cleanup_authority_status(&open).outcome(), CommandOutcome::Incomplete);
    let missing = current(&Store::empty());
    assert_eq!(missing.generation_state, GenerationState::Missing);
    assert_eq!(cleanup_authority_status(&missing).report().reasons, vec!["generation_missing", "scan_incomplete"]);
    assert!(cleanup_authority_lines(&missing).iter().any(|line| line.contains("/config.toml")));
    let mut known = Store::empty();
    known.upsert_project(&PathBuf::new("/work/app"), at(1_000)).unwrap();
    assert_eq!(current(&known).generation_state, GenerationState::Invalid);

    let report = clean_report(None, &run_result(0, 0, 0, false), &complete, Some(3));
    assert_eq!(report.generation, Some(3));
    let wrapped = run_command_report(report, run_result(0, 0, 0, false), "hash".to_string(), None);
    assert_eq!(wrapped.command, "run");
    assert_eq!(wrapped.policy_hash.as_deref(), Some("hash"));
}

#[test]
fn roots_are_shown_with_their_origin() {
    let shown = root_diagnostics(&policy().protected_roots);
    assert_eq!(shown[0].path, PathBuf::new("/home/tester/.cargo"));
    assert_eq!(shown[0].kind, "cargo");
    assert_eq!(shown[0].provenance, "default");
    assert!(root_provenance_label(&RootProvenance::Environment("CARGO_HOME".to_string())).contains("CARGO_HOME"));
}

#[test]
fn reports_are_kept_once_and_in_order() {
    let report = |kind: &str, path: &str| ScanErrorReport {
        kind: kind.to_string(),
        path: Some(PathBuf::new(path)),
        message: "denied".to_string(),
    };
    let mut reports = vec![report("scan_root", "/b"), report("scan_root", "/a"), report("scan_root", "/b")];
    normalize_scan_errors(&mut reports);
    assert_eq!(reports.len(), 2);
    assert_eq!(reports[0].path, Some(PathBuf::new("/a")));
    let before = reports.len();
    add_paths(&mut reports, &vec![PathBuf::new("/c")]);
    assert_eq!(reports.len(), before + 1);
}

#[test]
fn reviews_are_summed_up_and_stored() {
    let mut store = published(false);
    let begun =
        begin_reviews(&store, &policy(), Duration::from_secs(60), at(1_010), &Resolutions::new()).unwrap();
    assert!(!begun.generation_invalid);
    assert!(begun.origin_incomplete);
    let reviews = vec![
        review("/work/app", 100, CleanDecision::Cleanable),
        review("/work/lib", 7, CleanDecision::Skipped(SkipReason::ActiveProcess)),
    ];
    let batch = finish_reviews(&mut store, begun, reviews, "status", at(1_010), at(1_011)).unwrap();
    assert_eq!(review_batch_incomplete_status(&batch).outcome(), CommandOutcome::Incomplete);
    let (service, divergence) = no_service();
    let shown = cleanup_authority_diagnostics(
        &policy(),
        &store,
        at(1_012),
        Duration::from_secs(60),
        service,
        divergence,
    )
    .unwrap();
    assert_eq!(refreshed_status(Some(&batch), &shown).outcome(), CommandOutcome::Incomplete);
    assert_eq!(preview_report(None, &batch, &shown).status.outcome(), CommandOutcome::Incomplete);

    let status = store.last_review_status().unwrap();
    assert_eq!(status.summary.cleanable_bytes, 100);
    assert!(!review_status_lines(&status, "100 B", at(1_020)).is_empty());
    let summary = review_summary(&batch.reviews);
    assert_eq!(summary.active_process, 1);
    assert_eq!(candidate_bytes(&summary), Some(100));
    assert!(summary_lines(&summary, "100 B").iter().any(|line| line.contains("100 B")));
    assert_eq!(review_lines(&batch.reviews).len(), 2);
    assert_ne!(
        decision_label(CleanDecision::Cleanable),
        decision_label(CleanDecision::Skipped(SkipReason::NoTarget))
    );
    assert_ne!(class_label(ProjectClass::Workspace), class_label(ProjectClass::ManagedCache));
    assert!(!review_source_label("status").is_empty());
    assert!(cleanable_target_preview(&batch.reviews, 20, false).iter().any(|line| line.contains("/work/app/target")));
}

#[test]
fn plans_are_shown_with_their_times() {
    let mut store = published(true);
    let generation = current_plan_generation(&store, "hash");
    let plan = store
        .create_review_plan(
            at(1_700_000_000),
            "hash",
            generation,
            false,
            100,
            &vec![review("/work/app", 100, CleanDecision::Cleanable)],
        )
        .unwrap();
    let lines = review_plan_lines(&plan).unwrap();
    assert_eq!(lines[3], "Created: 2023-11-14T22:13:20Z");
    assert_eq!(lines[4], "Expires: 2023-11-14T22:43:20Z");
    assert_eq!(lines[5], "Candidate bytes: 100");
}
