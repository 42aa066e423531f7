use car_go_clean::path::PathBuf;
use car_go_clean::resolve::{Answer, Resolution, Resolutions};
use car_go_clean::scanner::exclusion::{is_ignored, ExclusionMatchers, IgnoreFile};
use car_go_clean::scanner::linked::{add_cargo_project, Findings, ProjectFacts, ProjectProbe, ProjectStep};
use car_go_clean::scanner::origin::origin_result;
use car_go_clean::scanner::porcelain::{
    parse_git_worktree_porcelain, CommandOutput, GitWorktreeError, PorcelainFault, PorcelainWorktreeRecord,
    SystemGitWorktreeResolver,
};
use car_go_clean::scanner::walk::{
    visit_directory, DirectoryEntry, DirectoryFacts, DirectoryProbe, DirectoryStep, ScanStep, ScanTask, Scanner,
    TaskFacts,
};
use car_go_clean::scanner::{ScanError, ScanErrorKind, ScanReport, ScannerOptions, WorktreeDiscovery};
use car_go_clean::store::rows::DiscoveryOriginKind;

#[test]
fn parser_accepts_complete_records_with_whitespace_and_newlines() {
    let primary = &PathBuf::new("/workspace/main checkout");
    let output = b"worktree /workspace/main checkout\0HEAD 0123456789012345678901234567890123456789\0branch refs/heads/main\0\0worktree /workspace/feature\ncheckout\0HEAD abcdefabcdefabcdefabcdefabcdefabcdefabcd\0detached\0locked acceptance reason\0prunable missing gitdir\0\0";

    assert_eq!(
        parse_git_worktree_porcelain(primary, output).unwrap(),
        vec![PathBuf::new("/workspace/feature\ncheckout")]
    );
}

#[test]
fn parser_accepts_complete_bare_record() {
    let primary = &PathBuf::new("/workspace/repo.git");
    let output = b"worktree /workspace/repo.git\0bare\0locked\0\0";

    assert!(parse_git_worktree_porcelain(primary, output)
        .unwrap()
        .is_empty());
}

#[test]
fn parser_rejects_incomplete_or_contradictory_record_fields() {
    let primary = &PathBuf::new("/workspace/main");
    let oid = b"0123456789012345678901234567890123456789";
    let mut cases = vec![
        b"worktree /workspace/main\0\0".to_vec(),
        b"worktree relative\0bare\0\0".to_vec(),
        b"worktree /workspace/main\0HEAD abc\0branch refs/heads/main\0\0".to_vec(),
        b"worktree /workspace/main\0HEAD 0123456789012345678901234567890123456789\0\0"
            .to_vec(),
        b"worktree /workspace/main\0HEAD 0123456789012345678901234567890123456789\0branch \0\0"
            .to_vec(),
        b"worktree /workspace/main\0HEAD 0123456789012345678901234567890123456789\0branch refs/heads/main\0detached\0\0"
            .to_vec(),
        b"worktree /workspace/main\0bare\0HEAD 0123456789012345678901234567890123456789\0branch refs/heads/main\0\0"
            .to_vec(),
        b"worktree /workspace/main\0bare\0unknown value\0\0".to_vec(),
        b"worktree /workspace/main\0bare\0locked \0\0".to_vec(),
        b"worktree /workspace/main\0bare\0prunable \0\0".to_vec(),
        b"worktree /workspace/main\0bare\0bare\0\0".to_vec(),
        b"worktree /workspace/main\0bare\0locked\0locked reason\0\0".to_vec(),
        b"worktree /workspace/main\0locked\0bare\0\0".to_vec(),
        b"worktree /workspace/main\0bare\0prunable reason\0locked reason\0\0".to_vec(),
        b"worktree /workspace/main\0branch refs/heads/main\0HEAD 0123456789012345678901234567890123456789\0\0"
            .to_vec(),
    ];
    let mut duplicate_head = b"worktree /workspace/main\0HEAD ".to_vec();
    duplicate_head.extend_from_slice(oid);
    duplicate_head.extend_from_slice(b"\0HEAD ");
    duplicate_head.extend_from_slice(oid);
    duplicate_head.extend_from_slice(b"\0detached\0\0");
    cases.push(duplicate_head);

    for output in cases {
        assert!(
            parse_git_worktree_porcelain(primary, &output).is_err(),
            "unexpectedly accepted {output:?}"
        );
    }
}

#[test]
fn parser_rejects_truncated_or_structurally_invalid_output() {
    let primary = &PathBuf::new("/workspace/main");
    for output in [
        b"".as_slice(),
        b"worktree /workspace/main",
        b"worktree /workspace/main\0HEAD abc\0",
        b"HEAD abc\0\0",
        b"worktree \0\0",
        b"worktree /workspace/main\0worktree /workspace/linked\0\0",
        b"worktree /workspace/other\0HEAD abc\0\0",
        b"worktree /workspace/main\0HEAD abc\0\0worktree /workspace/main\0HEAD def\0\0",
    ] {
        assert!(
            parse_git_worktree_porcelain(primary, output).is_err(),
            "unexpectedly accepted {output:?}"
        );
    }
}

#[test]
fn system_resolver_output_boundary_rejects_malformed_success_output() {
    let output = CommandOutput {
        success: true,
        status: "exit status: 0".to_string(),
        stdout: b"worktree /workspace/main".to_vec(),
        stderr: Vec::new(),
    };

    assert!(SystemGitWorktreeResolver
        .worktree_paths_from_output(&PathBuf::new("/workspace/main"), &output)
        .is_err());
}

#[test]
fn system_resolver_output_boundary_returns_only_linked_paths_and_rejects_failure_status() {
    let resolver = SystemGitWorktreeResolver;
    let primary = &PathBuf::new("/workspace/main");
    let success = CommandOutput {
        success: true,
        status: "exit status: 0".to_string(),
        stdout: b"worktree /workspace/main\0HEAD 0123456789012345678901234567890123456789\0branch refs/heads/main\0\0worktree /workspace/feature\0HEAD abcdefabcdefabcdefabcdefabcdefabcdefabcd\0detached\0\0"
            .to_vec(),
        stderr: Vec::new(),
    };
    let failure = CommandOutput {
        success: false,
        status: "exit status: 1".to_string(),
        stdout: Vec::new(),
        stderr: b"fatal: broken".to_vec(),
    };

    assert_eq!(
        resolver
            .worktree_paths_from_output(primary, &success)
            .unwrap(),
        vec![PathBuf::new("/workspace/feature")]
    );
    assert!(resolver
        .worktree_paths_from_output(primary, &failure)
        .is_err());
}

#[test]
fn parser_preserves_non_utf8_paths_at_the_git_boundary() {
    let primary = &PathBuf::new("/workspace/main");
    let output = b"worktree /workspace/main\0HEAD 0123456789012345678901234567890123456789\0branch refs/heads/main\0\0worktree /workspace/\xff\0HEAD abcdefabcdefabcdefabcdefabcdefabcdefabcd\0detached\0\0";
    let parsed = parse_git_worktree_porcelain(primary, output).unwrap();

    assert_eq!(
        parsed[0],
        PathBuf::from_bytes(b"/workspace/\xff".to_vec())
    );
}

/// The exclusions of the patterns, none of which exists.
fn matchers(patterns: &[&str]) -> ExclusionMatchers {
    let mut known = Resolutions::new();
    known.record(PathBuf::new("/"), Resolution::Physical(PathBuf::new("/")));
    for path in ["/work", "/work/skip", "/work/app", "/home", "/home/tester", "/home/tester/.cargo"] {
        known.record(PathBuf::new(path), Resolution::NotFound);
    }
    let list: Vec<String> = patterns.iter().map(|pattern| pattern.to_string()).collect();
    match ExclusionMatchers::new(&list, &known) {
        Answer::Known(found) => found,
        Answer::Unresolved(path) => panic!("unresolved {path:?}"),
    }
}

#[test]
fn porcelain_faults_are_named() {
    let primary = &PathBuf::new("/workspace/main");
    let error = parse_git_worktree_porcelain(primary, b"worktree /workspace/main").unwrap_err();
    assert_eq!(error.message(), "git worktree list returned truncated porcelain output");
}

#[test]
fn failed_commands_report_what_they_wrote_or_their_status() {
    let resolver = SystemGitWorktreeResolver;
    let primary = &PathBuf::new("/workspace/main");
    let written = CommandOutput {
        success: false,
        status: "exit status: 128".to_string(),
        stdout: Vec::new(),
        stderr: b" fatal: \xff broken\n".to_vec(),
    };
    let silent = CommandOutput {
        success: false,
        status: "exit status: 128".to_string(),
        stdout: Vec::new(),
        stderr: b"\n".to_vec(),
    };

    assert_eq!(
        resolver.worktree_paths_from_output(primary, &written).unwrap_err().message(),
        "git worktree list failed: fatal: \u{fffd} broken"
    );
    assert_eq!(
        resolver.worktree_paths_from_output(primary, &silent).unwrap_err().message(),
        "git worktree list failed with status exit status: 128"
    );
}

#[test]
fn worktrees_are_asked_for_in_the_machine_format() {
    let arguments = SystemGitWorktreeResolver::arguments(&PathBuf::new("/workspace/main"));
    let words: Vec<String> = arguments.iter().map(|word| word.to_str().unwrap()).collect();
    assert_eq!(words, vec!["-C", "/workspace/main", "worktree", "list", "--porcelain", "-z"]);
}

#[test]
fn exclusions_cover_what_lies_below_them() {
    let excluded = matchers(&["node_modules", "/home/tester/.cargo"]);
    assert!(excluded.matches(&PathBuf::new("/work/app/node_modules")));
    assert!(excluded.matches(&PathBuf::new("/work/app/node_modules/dep/native")));
    assert!(excluded.matches(&PathBuf::new("/home/tester/.cargo/registry")));
    assert!(!excluded.matches(&PathBuf::new("/work/home/tester/.cargo")));
    assert!(!excluded.matches(&PathBuf::new("/work/app/node_modules2")));
}

#[test]
fn ignore_files_decide_on_directories_below_them() {
    let files = vec![IgnoreFile {
        root: "/work".to_string(),
        lines: vec!["build/".to_string(), "!keep/".to_string(), "*.tmp".to_string()],
    }];
    assert!(is_ignored(&files, "/work/build"));
    assert!(is_ignored(&files, "/work/deep/build"));
    assert!(is_ignored(&files, "/work/a.tmp"));
    assert!(!is_ignored(&files, "/work/keep"));
    assert!(!is_ignored(&files, "/work/src"));
}

#[test]
fn any_ignore_file_above_a_directory_decides() {
    let files = vec![
        IgnoreFile { root: "/work".to_string(), lines: vec!["generated".to_string()] },
        IgnoreFile { root: "/work/app".to_string(), lines: vec!["!generated".to_string()] },
    ];
    assert!(is_ignored(&files, "/work/other/generated"));
    assert!(is_ignored(&files, "/work/app/generated"));
    assert!(!is_ignored(&files, "/work/app/src"));
}

#[test]
fn a_directory_is_asked_about_step_by_step() {
    let none = matchers(&[]);
    let directory = PathBuf::new("/work/app");
    let mut facts = DirectoryFacts::new();
    assert_eq!(
        visit_directory(&none, &directory, Some(false), &facts),
        DirectoryStep::Probe(DirectoryProbe::Metadata)
    );
    facts.metadata = Some(Err("denied".to_string()));
    assert_eq!(
        visit_directory(&none, &directory, Some(false), &facts),
        DirectoryStep::Failed("denied".to_string())
    );
    facts.metadata = Some(Ok(true));
    assert_eq!(visit_directory(&none, &directory, Some(true), &facts), DirectoryStep::Skipped);
    assert_eq!(
        visit_directory(&none, &directory, Some(false), &facts),
        DirectoryStep::Probe(DirectoryProbe::Manifest)
    );
    facts.manifest = Some(true);
    assert_eq!(visit_directory(&none, &directory, Some(false), &facts), DirectoryStep::Project);
}

#[test]
fn excluded_directories_are_not_read() {
    let excluded = matchers(&["/work/app"]);
    let mut facts = DirectoryFacts::new();
    facts.metadata = Some(Ok(true));
    assert_eq!(
        visit_directory(&excluded, &PathBuf::new("/work/app/crate"), Some(false), &facts),
        DirectoryStep::Skipped
    );
}

#[test]
fn linked_worktrees_are_sorted_into_projects_exclusions_and_strangers() {
    let excluded = matchers(&["/work/skip"]);
    let roots = vec![PathBuf::new("/work")];
    let project = PathBuf::new("/work/main");
    let mut facts = ProjectFacts::new();
    facts.physical = Some(Ok(PathBuf::new("/work/main")));
    facts.repository = Some(true);
    facts.manifest = Some(true);
    facts.worktrees = Some(Ok(vec![
        PathBuf::new("/work/linked"),
        PathBuf::new("/work/skip/one"),
        PathBuf::new("/elsewhere/two"),
    ]));
    for path in ["/work/linked", "/work/skip/one", "/elsewhere/two"] {
        facts.known.record(PathBuf::new(path), Resolution::Physical(PathBuf::new(path)));
        facts.manifests.record(PathBuf::new(path), true);
    }

    let step = add_cargo_project(&excluded, &roots, &project, true, &facts);

    assert_eq!(
        step,
        ProjectStep::Done(Findings {
            projects: vec![PathBuf::new("/work/main"), PathBuf::new("/work/linked")],
            discoveries: vec![WorktreeDiscovery::Success {
                primary: PathBuf::new("/work/main"),
                linked: vec![PathBuf::new("/work/linked")],
                excluded: vec![PathBuf::new("/work/skip/one")],
                out_of_scope: vec![PathBuf::new("/elsewhere/two")],
            }],
            errors: vec![],
        })
    );
}

#[test]
fn a_failed_discovery_keeps_the_project_and_is_reported() {
    let none = matchers(&[]);
    let roots = vec![PathBuf::new("/work")];
    let project = PathBuf::new("/work/main");
    let mut facts = ProjectFacts::new();
    facts.physical = Some(Ok(PathBuf::new("/work/main")));
    facts.repository = Some(true);
    facts.manifest = Some(true);
    facts.worktrees = Some(Err(GitWorktreeError::new("fatal: broken")));

    let step = add_cargo_project(&none, &roots, &project, true, &facts);

    match step {
        ProjectStep::Done(found) => {
            assert_eq!(found.projects, vec![PathBuf::new("/work/main")]);
            assert_eq!(found.errors.len(), 1);
            assert_eq!(found.errors[0].kind, ScanErrorKind::WorktreeDiscovery);
            assert_eq!(
                found.discoveries,
                vec![WorktreeDiscovery::Failure {
                    primary: PathBuf::new("/work/main"),
                    message: "fatal: broken".to_string(),
                }]
            );
        }
        other => panic!("unexpected {other:?}"),
    }
}

/// Whether a directory holds a manifest, and its entries.
type Held = (bool, Vec<DirectoryEntry>);

/// Scans `/work` and the named project, with what the directories hold.
fn scan(held: fn(&str) -> Held) -> ScanReport {
    let mut known = Resolutions::new();
    known.record(PathBuf::new(".git"), Resolution::NotFound);
    known.record(PathBuf::new("/work"), Resolution::Physical(PathBuf::new("/work")));
    let options = ScannerOptions {
        roots: vec![PathBuf::new("/work")],
        project_dirs: vec![PathBuf::new("/named")],
        excludes: vec![".git".to_string()],
    };
    let scanner = match Scanner::new(options, &known) {
        Answer::Known(scanner) => scanner,
        Answer::Unresolved(path) => panic!("unresolved {path:?}"),
    };
    known.record(PathBuf::new("/named"), Resolution::Physical(PathBuf::new("/named")));
    let mut progress = match scanner.begin(&known) {
        Answer::Known(progress) => progress,
        Answer::Unresolved(path) => panic!("unresolved {path:?}"),
    };
    let mut facts = TaskFacts::new();
    loop {
        let place = match progress.tasks.last() {
            Some(ScanTask::Directory(path, _)) => path.to_str().unwrap(),
            Some(ScanTask::Project(path)) => path.to_str().unwrap(),
            Some(ScanTask::Named(path)) => path.to_str().unwrap(),
            Some(ScanTask::Problem(_)) | None => String::new(),
        };
        match scanner.step(&mut progress, &facts) {
            ScanStep::Directory(DirectoryProbe::Metadata) => {
                facts.directory.metadata = Some(Ok(true));
            }
            ScanStep::Directory(DirectoryProbe::Ignored) => {
                facts.directory.ignored = Some(false);
            }
            ScanStep::Directory(DirectoryProbe::Manifest) => {
                facts.directory.manifest = Some(held(&place).0);
            }
            ScanStep::Directory(DirectoryProbe::IgnoreLines) => {
                facts.directory.ignore_lines = Some(None);
            }
            ScanStep::Directory(DirectoryProbe::Entries) => {
                facts.directory.entries = Some(Ok(held(&place).1));
            }
            ScanStep::NamedManifest => facts.named_manifest = Some(true),
            ScanStep::Project(ProjectProbe::Physical) => {
                facts.project.physical = Some(Ok(PathBuf::new(&place)));
            }
            ScanStep::Project(ProjectProbe::Repository) => facts.project.repository = Some(false),
            ScanStep::Project(ProjectProbe::Manifest) => facts.project.manifest = Some(true),
            ScanStep::Project(probe) => panic!("unexpected {probe:?}"),
            ScanStep::TaskDone => facts = TaskFacts::new(),
            ScanStep::Finished => return Scanner::finish(progress),
        }
    }
}

fn directory(path: &str) -> DirectoryEntry {
    DirectoryEntry::Directory(PathBuf::new(path))
}

fn plain_tree(path: &str) -> Held {
    match path {
        "/work" => (false, vec![directory("/work/b"), directory("/work/a"), directory("/work/.git")]),
        "/work/a" => (true, vec![]),
        "/work/b" => (false, vec![directory("/work/b/inner")]),
        "/work/b/inner" => (true, vec![]),
        other => panic!("{other} is not to be read"),
    }
}

#[test]
fn a_scan_finds_the_manifests_below_its_roots() {
    let report = scan(plain_tree);
    assert_eq!(
        report.projects,
        vec![PathBuf::new("/named"), PathBuf::new("/work/a"), PathBuf::new("/work/b/inner")]
    );
    assert!(report.errors.is_empty());
    assert!(report.worktree_discoveries.is_empty());
}

fn broken_tree(path: &str) -> Held {
    match path {
        "/work" => (
            false,
            vec![
                DirectoryEntry::Unreadable("first".to_string()),
                directory("/work/a"),
                DirectoryEntry::Other,
                DirectoryEntry::Untyped(PathBuf::new("/work/x"), "third".to_string()),
                directory("/work/b"),
            ],
        ),
        "/work/a" => (false, vec![DirectoryEntry::Unreadable("second".to_string())]),
        "/work/b" => (false, vec![DirectoryEntry::Unreadable("fourth".to_string())]),
        other => panic!("{other} is not to be read"),
    }
}

#[test]
fn errors_come_in_the_order_of_the_entries() {
    let report = scan(broken_tree);
    let said: Vec<(String, String)> =
        report.errors.iter().map(|error| (error.path.to_str().unwrap(), error.message.clone())).collect();
    let expected = [("/work", "first"), ("/work/a", "second"), ("/work/x", "third"), ("/work/b", "fourth")];
    assert_eq!(said, expected.map(|(path, message)| (path.to_string(), message.to_string())).to_vec());
}

#[test]
fn origins_are_open_where_something_was_not_read() {
    let error = |kind, message: &str| ScanError { path: PathBuf::new("/work/a"), message: message.to_string(), kind };
    let report = |errors| ScanReport { projects: vec![], errors, worktree_discoveries: vec![] };
    let of = |there: bool, errors| {
        let canonical = if there { Some(PathBuf::new("/work")) } else { None };
        origin_result(DiscoveryOriginKind::ScanRoot, PathBuf::new("/work"), canonical, &report(errors), vec![])
    };
    assert!(of(true, vec![]).completed);
    assert!(of(true, vec![error(ScanErrorKind::WorktreeDiscovery, "fatal")]).completed);
    let open = of(
        true,
        vec![
            error(ScanErrorKind::WorktreeDiscovery, "fatal"),
            error(ScanErrorKind::Scan, "denied"),
            error(ScanErrorKind::Scan, "again"),
        ],
    );
    assert!(!open.completed);
    assert_eq!(open.error.as_deref(), Some("denied"));
    assert_eq!(of(false, vec![]).error.as_deref(), Some("origin is not available"));
}

#[test]
fn refused_fields_leave_a_record_as_it_was() {
    let mut record = PorcelainWorktreeRecord::new(PathBuf::new("/workspace/main"));
    assert_eq!(record.add_field(b"bare"), Ok(()));
    assert_eq!(record.add_field(b"prunable reason"), Ok(()));
    assert_eq!(record.add_field(b"locked reason"), Err(PorcelainFault::Locked));
    assert!(!record.locked && record.prunable && record.bare);
    assert_eq!(record.add_field(b"bare"), Err(PorcelainFault::Bare));
    assert_eq!(record.add_field(b"prunable"), Err(PorcelainFault::Prunable));
    assert!(!record.head && !record.branch && !record.detached);
    assert_eq!(record.path, PathBuf::new("/workspace/main"));
    assert!(record.core_complete());
}

#[test]
fn another_record_is_another_worktree() {
    let primary = PathBuf::new("/workspace/main");
    let mut output = b"worktree /workspace/main\0bare\0\0".to_vec();
    assert!(parse_git_worktree_porcelain(&primary, &output).unwrap().is_empty());
    output.extend_from_slice(b"worktree /workspace/linked\0bare\0\0");
    assert_eq!(parse_git_worktree_porcelain(&primary, &output).unwrap(), vec![PathBuf::new("/workspace/linked")]);
    for known in ["/workspace/main", "/workspace/linked"] {
        let mut again = output.clone();
        again.extend_from_slice(format!("worktree {known}\0bare\0\0").as_bytes());
        assert_eq!(
            parse_git_worktree_porcelain(&primary, &again).unwrap_err().message(),
            "git worktree list returned a duplicate worktree path"
        );
    }
}
