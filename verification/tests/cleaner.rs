use car_go_clean::cleaner::{
    clean_arguments, clean_with_attempt_reporter_and_pre_spawn_validator, default_cargo_candidates, dir_size,
    resolve_cargo_bin, stderr_excerpt, CargoCandidate, CleanAttemptOutcome, CleanFacts, CleanOutcome, CleanProbe,
    CleanResult, CleanStep, RunReply, MAX_STDERR_EXCERPT,
};
use car_go_clean::path::PathBuf;
use car_go_clean::safety::tree::TreeEntry;
use car_go_clean::time::Duration;

#[test]
fn stderr_excerpt_starts_on_a_utf8_boundary() {
    let stderr = format!("prefix:{}", "€".repeat(2_000));

    let excerpt = stderr_excerpt(&stderr);

    assert!(excerpt.len() <= MAX_STDERR_EXCERPT);
    assert!(stderr.ends_with(&excerpt));
    assert!(excerpt.chars().all(|character| character == '€'));
}

#[test]
fn stderr_excerpt_preserves_short_input() {
    assert_eq!(stderr_excerpt("cargo failed: λ"), "cargo failed: λ");
}

/// What an attempt knows before it has asked anything.
fn nothing_known() -> CleanFacts {
    CleanFacts {
        target_directory: None,
        bytes_before: None,
        validated: None,
        run: None,
        bytes_after: None,
        elapsed: Duration::from_millis(1_500),
    }
}

/// The result of an attempt that has all its facts.
fn finished(facts: &CleanFacts) -> CleanResult {
    match clean_with_attempt_reporter_and_pre_spawn_validator(&PathBuf::new("/work/app"), facts) {
        CleanStep::Finished(result) => result,
        CleanStep::Probe(probe) => panic!("still asks for {probe:?}"),
    }
}

#[test]
fn signal_terminated_process_preserves_runner_failure_and_remeasures_bytes() {
    let mut facts = nothing_known();
    facts.target_directory = Some(true);
    facts.bytes_before = dir_size(Some(&vec![TreeEntry::File(2_048, None), TreeEntry::File(1_024, None)]));
    facts.validated = Some(true);
    facts.run = Some(RunReply::Failed("cargo clean terminated without an exit code".to_string()));
    facts.bytes_after = Some(dir_size(Some(&vec![TreeEntry::File(1_024, None)])).ok_or(String::new()));

    let result = finished(&facts);

    assert_eq!(result.outcome, Some(CleanAttemptOutcome::RunnerFailure));
    assert_eq!(result.exit_code, None);
    assert!(result.attempt_error.as_deref().unwrap().contains("cargo clean terminated without an exit code"));
    assert_eq!(result.bytes_before, 3_072);
    assert_eq!(result.bytes_after, 1_024);
    assert!(result.measurement_error.is_none());
}

#[test]
fn an_attempt_asks_for_one_fact_after_another() {
    let project = PathBuf::new("/work/app");
    let mut facts = nothing_known();
    let mut asked = Vec::new();
    loop {
        match clean_with_attempt_reporter_and_pre_spawn_validator(&project, &facts) {
            CleanStep::Probe(probe) => {
                asked.push(probe);
                match probe {
                    CleanProbe::TargetDirectory => facts.target_directory = Some(true),
                    CleanProbe::MeasureBefore => facts.bytes_before = Some(10),
                    CleanProbe::Validate => facts.validated = Some(true),
                    CleanProbe::Run => {
                        facts.run = Some(RunReply::Exited(CleanOutcome { exit_code: 0, stderr: String::new() }))
                    }
                    CleanProbe::MeasureAfter => facts.bytes_after = Some(Ok(0)),
                }
            }
            CleanStep::Finished(result) => {
                assert_eq!(result.outcome, Some(CleanAttemptOutcome::Success));
                assert_eq!(result.exit_code, Some(0));
                assert_eq!(result.duration, Duration::from_millis(1_500));
                assert!(!result.skipped);
                break;
            }
        }
    }
    assert_eq!(
        asked,
        vec![
            CleanProbe::TargetDirectory,
            CleanProbe::MeasureBefore,
            CleanProbe::Validate,
            CleanProbe::Run,
            CleanProbe::MeasureAfter,
        ]
    );
}

#[test]
fn nothing_is_run_without_a_target_or_against_the_validator() {
    let mut missing = nothing_known();
    missing.target_directory = Some(false);
    assert!(finished(&missing).skipped);

    let mut refused = nothing_known();
    refused.target_directory = Some(true);
    refused.bytes_before = Some(7);
    refused.validated = Some(false);
    let result = finished(&refused);
    assert!(result.skipped);
    assert_eq!(result.outcome, None);
}

#[test]
fn a_nonzero_exit_is_kept_with_its_stream() {
    let mut facts = nothing_known();
    facts.target_directory = Some(true);
    facts.bytes_before = Some(7);
    facts.validated = Some(true);
    facts.run = Some(RunReply::Exited(CleanOutcome { exit_code: 101, stderr: "error: locked".to_string() }));
    facts.bytes_after = Some(Err("denied".to_string()));
    let result = finished(&facts);
    assert_eq!(result.outcome, Some(CleanAttemptOutcome::CargoNonzero));
    assert_eq!(result.exit_code, Some(101));
    assert_eq!(result.stderr_excerpt, "error: locked");
    assert_eq!(result.bytes_after, 7);
    assert_eq!(result.measurement_error.as_deref(), Some("measure target after cargo clean: denied"));
}

#[test]
fn sizes_count_regular_files_and_need_the_whole_tree() {
    let tree = vec![
        TreeEntry::File(5, None),
        TreeEntry::Symlink,
        TreeEntry::Directory(Some(vec![TreeEntry::File(3, None), TreeEntry::Other])),
    ];
    assert_eq!(dir_size(Some(&tree)), Some(8));
    assert_eq!(dir_size(Some(&vec![TreeEntry::File(5, None), TreeEntry::Unreadable])), None);
    assert_eq!(dir_size(None), Some(0));
}

#[test]
fn cargo_is_given_the_target_and_found_by_its_first_place() {
    let words: Vec<String> =
        clean_arguments(&PathBuf::new("/work/app")).iter().map(|word| word.to_str().unwrap()).collect();
    assert_eq!(words, vec!["clean", "--target-dir", "/work/app/target"]);
    assert_eq!(
        default_cargo_candidates(&Some(PathBuf::new("/home/tester"))),
        vec![
            PathBuf::new("/home/tester/.cargo/bin/cargo"),
            PathBuf::new("/opt/homebrew/bin/cargo"),
            PathBuf::new("/usr/local/bin/cargo"),
        ]
    );
    let place = |path: &str, executable| CargoCandidate { path: PathBuf::new(path), executable };
    assert_eq!(
        resolve_cargo_bin(
            &vec![place("/a/cargo", false), place("/b/cargo", true)],
            &vec![place("/c/cargo", true)],
        ),
        Some(PathBuf::new("/b/cargo"))
    );
    assert_eq!(
        resolve_cargo_bin(&vec![place("/a/cargo", false)], &vec![place("/c/cargo", true)]),
        Some(PathBuf::new("/c/cargo"))
    );
    assert_eq!(resolve_cargo_bin(&vec![], &vec![place("/c/cargo", false)]), None);
}
