use car_go_clean::activity::ActivitySignal;
use car_go_clean::identity::{BootSessionId, FilesystemIdentity, MountIdentity, ReviewedIdentity};
use car_go_clean::path::PathBuf;
use car_go_clean::policy::ScopePolicy;
use car_go_clean::resolve::{Answer, Resolution, Resolutions};
use car_go_clean::safety::revalidate::{
    bind_review_to_observation, policy_block_reason, revalidate_before_clean, ObservationIdentityStatus,
    RevalidationFacts, RevalidationProbe, RevalidationStep,
};
use car_go_clean::safety::review::{
    review_classified_project, review_project, review_project_with_discovery_blocks, ReviewFacts, ReviewProbe, ReviewStep,
    TargetEntry,
};
use car_go_clean::safety::tree::{directory_size, newest_file_mtime, newest_time, TreeEntry};
use car_go_clean::safety::{
    classify_legacy_component_patterns, classify_project, review_summary, CleanDecision, ProjectClass, ProjectReview,
    SafetyOptions, SkipReason,
};
use car_go_clean::storage::{protected_roots_for, HostPlatform};
use car_go_clean::time::{Duration, SystemTime};

const NOW: i64 = 100_000;

fn at(secs: i64) -> SystemTime {
    SystemTime::from_secs(secs)
}

fn file(inode: u64) -> FilesystemIdentity {
    FilesystemIdentity { device: 1, inode, mount: MountIdentity("1".to_string()) }
}

fn seen() -> ReviewedIdentity {
    ReviewedIdentity { project: file(10), target: file(11), boot_session: Some(BootSessionId("boot".to_string())) }
}

fn options() -> SafetyOptions {
    SafetyOptions {
        target_quiet_period: Duration::from_secs(60),
        include_managed_cache: false,
        include_active: false,
        force: false,
    }
}

/// The facts of a quiet project with a target.
fn quiet() -> ReviewFacts {
    ReviewFacts {
        manifest: Some(true),
        project_directory: Some(true),
        project_identity: Some(Some(file(10))),
        target_entry: Some(TargetEntry::Directory),
        target_identity: Some(Some(file(11))),
        boot_session: Some(Some(BootSessionId("boot".to_string()))),
        target_bytes: Some(Some(500)),
        blocked_path: Some(Some(PathBuf::new("/work/app"))),
        newest_write: Some(Some(Some(at(NOW - 3_600)))),
        canonical_path: Some(Some(PathBuf::new("/work/app"))),
    }
}

fn decide(class: ProjectClass, errors: &[&str], active: &[&str], opts: SafetyOptions, facts: ReviewFacts) -> ProjectReview {
    let errors = errors.iter().map(|path| PathBuf::new(path)).collect();
    let activity = active
        .iter()
        .map(|path| ActivitySignal { pid: 7, project_path: PathBuf::new(path), reason: String::new() })
        .collect();
    let project = PathBuf::new("/work/app");
    match review_classified_project(&project, class, &errors, &vec![], &activity, at(NOW), &opts, &facts) {
        ReviewStep::Reviewed(review) => review,
        other => panic!("still asks for {other:?}"),
    }
}

/// The home of the tests; nothing exists in it.
fn home() -> PathBuf {
    PathBuf::new("/home/tester")
}

/// Answers every path that a review has to have resolved with the path itself if it
/// is the project, else with nothing.
fn reviewed(project: &str, blocks: &[&str], opts: SafetyOptions, facts: &ReviewFacts) -> ReviewStep {
    let path = PathBuf::new(project);
    let blocks = blocks.iter().map(|block| PathBuf::new(block)).collect();
    let mut known = Resolutions::new();
    loop {
        match review_project_with_discovery_blocks(
            &path,
            &home(),
            HostPlatform::Linux,
            &known,
            &vec![],
            &blocks,
            &vec![],
            at(NOW),
            &opts,
            facts,
        ) {
            ReviewStep::Resolve(asked) if asked == path => {
                known.record(asked, Resolution::Physical(PathBuf::new(project)));
            }
            ReviewStep::Resolve(asked) => known.record(asked, Resolution::NotFound),
            step => return step,
        }
    }
}

fn skipped(reason: SkipReason) -> CleanDecision {
    CleanDecision::Skipped(reason)
}

#[test]
fn quiet_projects_are_cleanable() {
    let review = decide(ProjectClass::Workspace, &[], &[], options(), quiet());
    assert_eq!(review.decision, CleanDecision::Cleanable);
    assert_eq!(review.target_bytes, 500);
    assert_eq!(review.target_path, PathBuf::new("/work/app/target"));
    assert_eq!(review.canonical_path, Some(PathBuf::new("/work/app")));
    assert_eq!(review.reviewed_identity, Some(seen()));
}

#[test]
fn every_gate_names_its_reason() {
    let workspace = ProjectClass::Workspace;
    let of = |change: &dyn Fn(&mut ReviewFacts)| {
        let mut facts = quiet();
        change(&mut facts);
        decide(workspace, &[], &[], options(), facts).decision
    };
    assert_eq!(of(&|f| f.manifest = Some(false)), skipped(SkipReason::InvalidManifest));
    assert_eq!(of(&|f| f.project_directory = Some(false)), skipped(SkipReason::ProjectIdentityUnavailable));
    assert_eq!(of(&|f| f.project_identity = Some(None)), skipped(SkipReason::ProjectIdentityUnavailable));
    assert_eq!(of(&|f| f.target_entry = Some(TargetEntry::Missing)), skipped(SkipReason::NoTarget));
    assert_eq!(of(&|f| f.target_entry = Some(TargetEntry::Other)), skipped(SkipReason::TargetIdentityUnavailable));
    assert_eq!(
        of(&|f| f.target_identity = Some(Some(FilesystemIdentity { device: 2, ..file(11) }))),
        skipped(SkipReason::CrossDeviceTarget)
    );
    assert_eq!(
        of(&|f| f.target_identity = Some(Some(FilesystemIdentity { mount: MountIdentity("2".to_string()), ..file(11) }))),
        skipped(SkipReason::CrossMountTarget)
    );
    assert_eq!(of(&|f| f.target_bytes = Some(None)), skipped(SkipReason::TargetReadError));
    assert_eq!(of(&|f| f.newest_write = Some(None)), skipped(SkipReason::TargetReadError));
    assert_eq!(
        of(&|f| f.newest_write = Some(Some(Some(at(NOW - 59))))),
        skipped(SkipReason::ActiveRecentWrite { newest_age_secs: 59 })
    );
    assert_eq!(of(&|f| f.newest_write = Some(Some(Some(at(NOW - 60))))), CleanDecision::Cleanable);
    assert_eq!(
        of(&|f| f.newest_write = Some(Some(Some(at(NOW + 5))))),
        skipped(SkipReason::ActiveRecentWrite { newest_age_secs: 0 })
    );
}

#[test]
fn errors_processes_and_storage_hold_a_project_back() {
    let workspace = ProjectClass::Workspace;
    assert_eq!(
        decide(workspace, &["/work"], &[], options(), quiet()).decision,
        skipped(SkipReason::ScanError)
    );
    assert_eq!(decide(workspace, &["/other"], &[], options(), quiet()).decision, CleanDecision::Cleanable);
    assert_eq!(
        decide(workspace, &[], &["/work/app"], options(), quiet()).decision,
        skipped(SkipReason::ActiveProcess)
    );
    let eager = SafetyOptions { include_active: true, ..options() };
    assert_eq!(decide(workspace, &[], &["/work/app"], eager, quiet()).decision, CleanDecision::Cleanable);
    let forced = SafetyOptions { force: true, ..options() };
    assert_eq!(decide(workspace, &["/work"], &[], forced, quiet()).decision, CleanDecision::Cleanable);
    assert_eq!(
        decide(ProjectClass::ManagedCache, &[], &[], forced, quiet()).decision,
        skipped(SkipReason::ManagedCache)
    );
    assert_eq!(
        decide(ProjectClass::ContainerStorage, &[], &[], forced, quiet()).decision,
        skipped(SkipReason::ContainerStorage)
    );
    let included = SafetyOptions { include_managed_cache: true, ..options() };
    assert_eq!(decide(ProjectClass::ManagedCache, &[], &[], included, quiet()).decision, CleanDecision::Cleanable);
}

#[test]
fn blocked_checkouts_are_not_cleaned() {
    match reviewed("/work/alias", &["/work/app"], options(), &quiet()) {
        ReviewStep::Reviewed(review) => assert_eq!(review.decision, skipped(SkipReason::ScanError)),
        other => panic!("unexpected {other:?}"),
    }
}

#[test]
fn a_review_asks_for_the_manifest_first() {
    let mut facts = quiet();
    facts.manifest = None;
    assert_eq!(reviewed("/work/app", &[], options(), &facts), ReviewStep::Probe(ReviewProbe::Manifest));
}

#[test]
fn a_review_settles_the_class_before_anything_else() {
    let step = review_project(
        &PathBuf::new("/work/app"),
        &home(),
        HostPlatform::Linux,
        &Resolutions::new(),
        &vec![],
        &vec![],
        at(NOW),
        &options(),
        &quiet(),
    );
    assert!(matches!(step, ReviewStep::Resolve(_)));
    let forced = SafetyOptions { force: true, ..options() };
    let of = |project: &str| match reviewed(project, &[], forced, &quiet()) {
        ReviewStep::Reviewed(review) => (review.class, review.decision),
        other => panic!("unexpected {other:?}"),
    };
    assert_eq!(of("/work/app"), (ProjectClass::Workspace, CleanDecision::Cleanable));
    assert_eq!(
        of("/home/tester/.cargo/registry/src/dep"),
        (ProjectClass::ManagedCache, skipped(SkipReason::ManagedCache))
    );
    assert_eq!(
        of("/mnt/OrbStack/docker/app"),
        (ProjectClass::ContainerStorage, skipped(SkipReason::ContainerStorage))
    );
}

#[test]
fn summaries_add_up() {
    let review = |bytes, decision| ProjectReview {
        decision,
        target_bytes: bytes,
        ..decide(ProjectClass::Workspace, &[], &[], options(), quiet())
    };
    let summary = review_summary(&vec![
        review(10, CleanDecision::Cleanable),
        review(20, CleanDecision::Cleanable),
        review(40, skipped(SkipReason::NoTarget)),
        review(40, skipped(SkipReason::ActiveProcess)),
        review(40, skipped(SkipReason::ActiveRecentWrite { newest_age_secs: 1 })),
    ]);
    assert_eq!(summary.total_projects, 5);
    assert_eq!(summary.cleanable_projects, 2);
    assert_eq!(summary.skipped_projects, 3);
    assert_eq!(summary.cleanable_bytes, 30);
    assert_eq!(summary.no_target + summary.active_process + summary.active_recent_write, 3);
}

#[test]
fn trees_are_measured_through_their_regular_files() {
    let tree = vec![
        TreeEntry::File(5, Some(at(10))),
        TreeEntry::Symlink,
        TreeEntry::Directory(Some(vec![TreeEntry::File(3, Some(at(30)))])),
    ];
    assert_eq!(directory_size(&tree), Some(8));
    assert_eq!(newest_file_mtime(&tree), Some(Some(at(30))));
    assert_eq!(newest_file_mtime(&vec![]), Some(None));
    assert_eq!(directory_size(&vec![TreeEntry::Directory(None)]), None);
    assert_eq!(newest_file_mtime(&vec![TreeEntry::File(1, None)]), None);
    assert_eq!(newest_time(Some(at(1)), None), Some(at(1)));
    assert_eq!(newest_time(Some(at(1)), Some(at(2))), Some(at(2)));
}

#[test]
fn projects_are_classified_by_where_they_lie() {
    let home = PathBuf::new("/home/tester");
    let mut known = Resolutions::new();
    for path in ["/home/tester/.cargo/registry/src/dep", "/home/tester/work/app"] {
        known.record(PathBuf::new(path), Resolution::Physical(PathBuf::new(path)));
    }
    assert_eq!(
        classify_project(&PathBuf::new("/home/tester/.cargo/registry/src/dep"), &home, HostPlatform::Linux, &known),
        Answer::Known(ProjectClass::ManagedCache)
    );
    for root in protected_roots_for(&home, HostPlatform::Linux) {
        known.record(root.path, Resolution::NotFound);
    }
    for path in ["/home/tester/.bun/install", "/home/tester/.bun", "/home/tester/go/pkg", "/home/tester/go"] {
        known.record(PathBuf::new(path), Resolution::NotFound);
    }
    for path in ["/home/tester/.local/share", "/home/tester/.docker", "/home/tester"] {
        known.record(PathBuf::new(path), Resolution::Physical(PathBuf::new(path)));
    }
    assert_eq!(
        classify_project(&PathBuf::new("/home/tester/work/app"), &home, HostPlatform::Linux, &known),
        Answer::Known(ProjectClass::Workspace)
    );
    assert_eq!(
        classify_legacy_component_patterns(&PathBuf::new("/mnt/.cargo/registry/src/dep")),
        ProjectClass::ManagedCache
    );
    assert_eq!(classify_legacy_component_patterns(&PathBuf::new("/mnt/work/app")), ProjectClass::Workspace);
}

fn policy() -> ScopePolicy {
    ScopePolicy {
        canonical_scan_roots: vec![PathBuf::new("/work")],
        canonical_project_paths: vec![],
        lexical_exclusions: vec!["vendor".to_string()],
        canonical_exclusions: vec![],
        protected_roots: vec![],
        target_quiet_period: Duration::from_secs(60),
        scan_interval: Duration::from_secs(60),
        config_source: PathBuf::new("/config.toml"),
        hash: "hash".to_string(),
        policy_hash_format_version: 2,
    }
}

fn resolved() -> Resolutions {
    let mut known = Resolutions::new();
    for path in ["/work/app", "/work/app/target"] {
        known.record(PathBuf::new(path), Resolution::Physical(PathBuf::new(path)));
    }
    known
}

/// The resolved paths from which the project is known to be in a workspace.
fn workspace_known() -> Resolutions {
    let project = PathBuf::new("/work/app");
    let mut known = Resolutions::new();
    while let Answer::Unresolved(path) = classify_project(&project, &home(), HostPlatform::Linux, &known) {
        let resolution =
            if path == project { Resolution::Physical(PathBuf::new("/work/app")) } else { Resolution::NotFound };
        known.record(path, resolution);
    }
    known
}

fn revalidation_facts() -> RevalidationFacts {
    RevalidationFacts {
        before: resolved(),
        review_known: workspace_known(),
        review: quiet(),
        manifest: Some(true),
        project_directory: Some(true),
        target_directory: Some(true),
        project_identity: Some(Some(file(10))),
        target_identity: Some(Some(file(11))),
        after: resolved(),
        final_project: Some(Some(PathBuf::new("/work/app"))),
        final_target: Some(Some(PathBuf::new("/work/app/target"))),
    }
}

fn revalidated(facts: &RevalidationFacts) -> RevalidationStep {
    let review = decide(ProjectClass::Workspace, &[], &[], options(), quiet());
    revalidate_before_clean(
        &review,
        &policy(),
        &home(),
        HostPlatform::Linux,
        &vec![],
        &vec![],
        &vec![],
        at(NOW),
        &options(),
        facts,
    )
}

#[test]
fn unchanged_projects_stay_cleanable() {
    assert_eq!(revalidated(&revalidation_facts()), RevalidationStep::Decided(CleanDecision::Cleanable));
}

#[test]
fn changed_projects_are_held_back() {
    let of = |change: &dyn Fn(&mut RevalidationFacts)| {
        let mut facts = revalidation_facts();
        change(&mut facts);
        revalidated(&facts)
    };
    let refused = |reason| RevalidationStep::Decided(skipped(reason));
    assert_eq!(
        of(&|f| f.review.manifest = None),
        RevalidationStep::Probe(RevalidationProbe::Review(ReviewProbe::Manifest))
    );
    assert!(matches!(
        of(&|f| f.review_known = Resolutions::new()),
        RevalidationStep::Probe(RevalidationProbe::ResolveForReview(_))
    ));
    assert_eq!(
        of(&|f| f.review.newest_write = Some(Some(Some(at(NOW - 1))))),
        refused(SkipReason::ActiveRecentWrite { newest_age_secs: 1 })
    );
    assert_eq!(of(&|f| f.review.project_identity = Some(Some(file(99)))), refused(SkipReason::ProjectIdentityChanged));
    assert_eq!(of(&|f| f.manifest = Some(false)), refused(SkipReason::ProjectIdentityUnavailable));
    assert_eq!(of(&|f| f.target_directory = Some(false)), refused(SkipReason::TargetIdentityUnavailable));
    assert_eq!(of(&|f| f.project_identity = Some(Some(file(99)))), refused(SkipReason::ProjectIdentityChanged));
    assert_eq!(of(&|f| f.target_identity = Some(Some(file(99)))), refused(SkipReason::TargetIdentityChanged));
    assert_eq!(of(&|f| f.final_target = Some(None)), refused(SkipReason::TargetIdentityUnavailable));
    assert_eq!(
        of(&|f| f.final_project = Some(Some(PathBuf::new("/work/other")))),
        refused(SkipReason::ProjectIdentityChanged)
    );
    assert_eq!(
        of(&|f| f.final_target = Some(Some(PathBuf::new("/work/vendor/target")))),
        refused(SkipReason::Excluded)
    );
}

#[test]
fn policies_block_what_lies_outside_or_is_excluded() {
    let mut review = decide(ProjectClass::Workspace, &[], &[], options(), quiet());
    assert_eq!(policy_block_reason(&policy(), &review, &options(), &resolved()), Answer::Known(None));
    let narrow = ScopePolicy { canonical_scan_roots: vec![PathBuf::new("/elsewhere")], ..policy() };
    assert_eq!(
        policy_block_reason(&narrow, &review, &options(), &resolved()),
        Answer::Known(Some(SkipReason::OutOfScope))
    );
    let strict = ScopePolicy { lexical_exclusions: vec!["app".to_string()], ..policy() };
    assert_eq!(
        policy_block_reason(&strict, &review, &options(), &resolved()),
        Answer::Known(Some(SkipReason::Excluded))
    );
    assert!(matches!(
        policy_block_reason(&policy(), &review, &options(), &Resolutions::new()),
        Answer::Unresolved(_)
    ));
    assert_eq!(
        bind_review_to_observation(
            &mut review,
            &file(10),
            &Some(file(11)),
            &Some(BootSessionId("boot".to_string()))
        ),
        ObservationIdentityStatus::Current
    );
    assert_eq!(
        bind_review_to_observation(
            &mut review,
            &file(10),
            &Some(file(11)),
            &Some(BootSessionId("earlier".to_string()))
        ),
        ObservationIdentityStatus::ReverifiedAcrossBoot
    );
    assert_eq!(
        bind_review_to_observation(
            &mut review,
            &file(77),
            &Some(file(11)),
            &Some(BootSessionId("boot".to_string()))
        ),
        ObservationIdentityStatus::Rejected
    );
    assert_eq!(review.decision, skipped(SkipReason::ProjectIdentityChanged));
}
