use car_go_clean::config::Config;
use car_go_clean::environment::ProcessEnvironment;
use car_go_clean::path::PathBuf;
use car_go_clean::policy::document::{document_text, hash_policy_input};
use car_go_clean::policy::scope::{policy_roots_for, validate_absolute_physical_path, PolicyError};
use car_go_clean::policy::{
    lexical_exclusion_matches, PolicyHashInput, ProtectedRoot, ProtectedRootKind, RootProvenance, ScopePolicy,
    POLICY_HASH_FORMAT_VERSION,
};
use car_go_clean::resolve::{Resolution, Resolutions};
use car_go_clean::storage::HostPlatform;

#[test]
fn policy_hash_format_version_changes_internal_hash() {
    let paths = Vec::<PathBuf>::new();
    let exclusions = Vec::<String>::new();
    let protected_roots = Vec::<ProtectedRoot>::new();
    let source = PathBuf::new("/config.toml");
    let input = |format_version| PolicyHashInput {
        format_version,
        scan_roots: &paths,
        project_paths: &paths,
        lexical_exclusions: &exclusions,
        canonical_exclusions: &paths,
        protected_roots: &protected_roots,
        target_quiet_period_ms: 1,
        scan_interval_ms: 2,
        config_source: &source,
    };

    let current = hash_policy_input(&input(POLICY_HASH_FORMAT_VERSION)).unwrap();
    let next = hash_policy_input(&input(POLICY_HASH_FORMAT_VERSION + 1)).unwrap();

    assert_ne!(current, next);
}

#[test]
fn documents_are_hashed_as_they_stand() {
    let paths = vec![PathBuf::new("/work")];
    let none = Vec::<PathBuf>::new();
    let exclusions = vec!["a\"b".to_string()];
    let roots = Vec::<ProtectedRoot>::new();
    let source = PathBuf::new("/config.toml");
    let input = PolicyHashInput {
        format_version: 2,
        scan_roots: &paths,
        project_paths: &none,
        lexical_exclusions: &exclusions,
        canonical_exclusions: &none,
        protected_roots: &roots,
        target_quiet_period_ms: 1,
        scan_interval_ms: 2,
        config_source: &source,
    };
    let document = document_text(&input).unwrap();
    assert!(document.contains("a\\\"b"));
    assert!(document.contains("/work"));
    let hash = hash_policy_input(&input).unwrap();
    assert_eq!(hash.len(), 64);
    assert!(hash.chars().all(|c| c.is_ascii_hexdigit() && !c.is_ascii_uppercase()));
    assert_eq!(hash, hash_policy_input(&input).unwrap());

    let odd = vec![PathBuf::from_bytes(b"/\xff".to_vec())];
    assert_eq!(hash_policy_input(&PolicyHashInput { scan_roots: &odd, ..input }), None);
}

fn config() -> Config {
    let mut config = Config::for_home(PathBuf::new("/home/tester"));
    config.scan_dirs = vec![PathBuf::new("/work/b"), PathBuf::new("/work/a"), PathBuf::new("/work/b")];
    config.override_excludes = Some(vec!["vendor".to_string()]);
    config
}

fn environment() -> ProcessEnvironment {
    ProcessEnvironment {
        values: vec![
            ("HOME".to_string(), PathBuf::new("/home/tester")),
            ("CARGO_HOME".to_string(), PathBuf::new("/data/cargo")),
        ],
    }
}

fn physical(paths: &[&str]) -> Resolutions {
    let mut known = Resolutions::new();
    for path in paths {
        known.record(PathBuf::new(path), Resolution::Physical(PathBuf::new(path)));
    }
    known
}

fn build(known: &Resolutions, roots: &Resolutions) -> Result<ScopePolicy, PolicyError> {
    ScopePolicy::build_with_canonicalizer(
        &config(),
        &PathBuf::new("/config.toml"),
        &environment(),
        HostPlatform::Linux,
        known,
        roots,
    )
}

#[test]
fn policies_hold_physical_sorted_paths() {
    let policy =
        build(&physical(&["/work/a", "/work/b"]), &physical(&["/home/tester", "/data/cargo"])).unwrap();
    assert_eq!(policy.canonical_scan_roots, vec![PathBuf::new("/work/a"), PathBuf::new("/work/b")]);
    assert!(policy.contains_project(&PathBuf::new("/work/a/app")));
    assert!(!policy.contains_project(&PathBuf::new("/work/c")));
    assert!(policy.is_excluded(&PathBuf::new("/work/a/vendor/dep")));
    assert!(policy.protected_roots.iter().any(|root| root.path == PathBuf::new("/data/cargo")));
    assert!(!policy.is_excluded(&PathBuf::new("/work/a/app")));
    assert_eq!(policy.hash().len(), 64);
    assert!(policy.hash().chars().all(|c| c.is_ascii_digit() || ('a'..='f').contains(&c)));
    assert_eq!(policy.diagnostics().hash, policy.hash());
}

#[test]
fn unresolved_and_broken_paths_are_named() {
    let roots = physical(&["/home/tester", "/data/cargo"]);
    assert!(matches!(build(&Resolutions::new(), &roots), Err(PolicyError::Unresolved(_))));
    let mut broken = physical(&["/work/a"]);
    broken.record(PathBuf::new("/work/b"), Resolution::NotFound);
    assert_eq!(build(&broken, &roots).unwrap_err(), PolicyError::ScanRoot(PathBuf::new("/work/b")));
    let both = physical(&["/work/a", "/work/b"]);
    let mut gone = physical(&["/home/tester"]);
    gone.record(PathBuf::new("/data/cargo"), Resolution::Failed);
    assert_eq!(
        build(&both, &gone).unwrap_err(),
        PolicyError::RootUnavailable("CARGO_HOME".to_string(), PathBuf::new("/data/cargo"))
    );
}

#[test]
fn variables_add_protected_directories() {
    let roots = policy_roots_for(HostPlatform::Linux, &PathBuf::new("/home/tester"), &environment());
    let cargo = roots.iter().find(|root| root.path == PathBuf::new("/data/cargo")).unwrap();
    assert_eq!(cargo.kind, ProtectedRootKind::Cargo);
    assert_eq!(cargo.provenance, RootProvenance::Environment("CARGO_HOME".to_string()));
    assert!(roots.iter().any(|root| root.path == PathBuf::new("/home/tester/.cargo")));
    assert!(validate_absolute_physical_path(&PathBuf::new("/data/cargo")));
    assert!(!validate_absolute_physical_path(&PathBuf::new("/data/../cargo")));
    assert!(!validate_absolute_physical_path(&PathBuf::new("cargo")));
}

#[test]
fn exclusions_match_whole_components() {
    let matches = |path: &str, exclusion: &str| {
        lexical_exclusion_matches(&PathBuf::new(path), &PathBuf::new(exclusion))
    };
    assert!(matches("/a/b/c", "b"));
    assert!(matches("/a/b/c", "b/c"));
    assert!(!matches("/a/bb/c", "b"));
    assert!(matches("/a/b/c", "/a/b"));
    assert!(!matches("/x/a/b", "/a/b"));
}

#[test]
fn absent_exclusions_are_accepted_and_ambiguous_variables_are_not() {
    let mut config = config();
    config.override_excludes = Some(vec!["/work/absent".to_string()]);
    let mut known = physical(&["/work/a", "/work/b"]);
    known.record(PathBuf::new("/work/absent"), Resolution::NotFound);
    let roots = physical(&["/home/tester", "/data/cargo"]);
    let build = |environment: &ProcessEnvironment| {
        ScopePolicy::build_with_canonicalizer(
            &config,
            &PathBuf::new("/config.toml"),
            environment,
            HostPlatform::Linux,
            &known,
            &roots,
        )
    };
    let policy = build(&environment()).unwrap();
    assert!(policy.canonical_exclusions.is_empty());
    assert!(policy.is_excluded(&PathBuf::new("/work/absent/app")));
    for path in ["cargo", "/data/../cargo"] {
        let mut ambiguous = environment();
        ambiguous.values[1].1 = PathBuf::new(path);
        assert_eq!(
            build(&ambiguous).unwrap_err(),
            PolicyError::AmbiguousRoot("CARGO_HOME".to_string(), PathBuf::new(path))
        );
    }
}
