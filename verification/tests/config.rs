use car_go_clean::config::migration::{former_line, rename_key};
use car_go_clean::config::{
    default_excludes_for, default_path, expand_env_vars, expand_path, Config, ConfigError,
};
use car_go_clean::environment::ProcessEnvironment;
use car_go_clean::path::PathBuf;
use car_go_clean::storage::HostPlatform;
use car_go_clean::time::Duration;

fn strings(values: &[&str]) -> Vec<String> {
    values.iter().map(|value| (*value).to_string()).collect()
}

#[test]
fn macos_defaults_anchor_managed_and_platform_paths_to_home() {
    let excludes = default_excludes_for(&PathBuf::new("/Users/tester"), HostPlatform::MacOs);

    assert_eq!(
        excludes,
        strings(&[
            ".git",
            "node_modules",
            "/Users/tester/.cargo",
            "/Users/tester/.rustup",
            "/Users/tester/.cache",
            "/Users/tester/.bun/install/cache",
            "/Users/tester/go/pkg/mod",
            "/Users/tester/.colima",
            "/Users/tester/.lima",
            "/Users/tester/.local/share/containers",
            "/Users/tester/Library",
            "/Users/tester/.Trash",
            "/Users/tester/OrbStack",
        ])
    );
    assert!(!excludes.iter().any(|entry| entry == "target"));
}

#[test]
fn linux_defaults_cover_rootless_container_and_desktop_vm_storage() {
    let excludes = default_excludes_for(&PathBuf::new("/home/tester"), HostPlatform::Linux);

    assert_eq!(
        excludes,
        strings(&[
            ".git",
            "node_modules",
            "/home/tester/.cargo",
            "/home/tester/.rustup",
            "/home/tester/.cache",
            "/home/tester/.bun/install/cache",
            "/home/tester/go/pkg/mod",
            "/home/tester/.colima",
            "/home/tester/.lima",
            "/home/tester/.local/share/containers",
            "/home/tester/.local/share/docker",
            "/home/tester/.docker/desktop",
            "/home/tester/.local/share/rancher-desktop",
            "/home/tester/.local/share/Trash",
        ])
    );
    assert!(!excludes.iter().any(|entry| entry == "target"));
}

#[test]
fn defaults_are_anchored_to_a_home_that_is_no_text() {
    let odd = PathBuf::from_bytes(b"/home/\xff".to_vec());
    let excludes = default_excludes_for(&odd, HostPlatform::Linux);
    assert_eq!(excludes[..3], strings(&[".git", "node_modules", "/home/\u{fffd}/.cargo"])[..]);
    assert_eq!(excludes.len(), 14);
    assert!(excludes[2..].iter().all(|entry| entry.starts_with('/')));
    assert!(!excludes.iter().any(|entry| entry == "target"));
    let relative = PathBuf::from_bytes(b"\xff/home".to_vec());
    assert_eq!(default_excludes_for(&relative, HostPlatform::Linux), strings(&[".git", "node_modules"]));
}

#[test]
fn missing_or_relative_home_never_creates_unanchored_manager_patterns() {
    assert_eq!(
        default_excludes_for(&PathBuf::new(""), HostPlatform::MacOs),
        strings(&[".git", "node_modules"])
    );
    assert_eq!(
        default_excludes_for(&PathBuf::new("relative-home"), HostPlatform::Linux),
        strings(&[".git", "node_modules"])
    );
}

#[test]
fn defaults_are_valid_and_every_fault_is_named() {
    let valid = || {
        let mut config = Config::for_home(PathBuf::new("/home/tester"));
        config.scan_dirs = vec![PathBuf::new("/work")];
        config
    };
    assert_eq!(valid().validate(), Ok(()));
    let of = |change: &dyn Fn(&mut Config)| {
        let mut config = valid();
        change(&mut config);
        config.validate().unwrap_err()
    };
    let zero = Duration::from_secs(0);
    assert_eq!(of(&|c| c.clean_interval = zero), ConfigError::CleanIntervalNotPositive);
    assert_eq!(of(&|c| c.scan_interval = zero), ConfigError::ScanIntervalNotPositive);
    assert_eq!(of(&|c| c.target_quiet_period = zero), ConfigError::TargetQuietPeriodNotPositive);
    assert_eq!(of(&|c| c.log_level = "loud".to_string()), ConfigError::UnknownLogLevel("loud".to_string()));
    assert_eq!(of(&|c| c.scan_dirs = vec![]), ConfigError::EmptyScope);
    assert_eq!(
        of(&|c| c.scan_dirs = vec![PathBuf::new("work")]),
        ConfigError::RelativePath(PathBuf::new("work"))
    );
}

#[test]
fn paths_are_expanded() {
    let environment =
        ProcessEnvironment { values: vec![("ROOT".to_string(), PathBuf::new("/data"))] };
    let home = PathBuf::new("/home/tester");
    assert_eq!(expand_env_vars("$ROOT/a/${ROOT}", &environment).unwrap(), "/data/a//data");
    assert_eq!(
        expand_env_vars("$GONE", &environment),
        Err(ConfigError::UnsetVariable("GONE".to_string()))
    );
    assert_eq!(expand_env_vars("${ROOT", &environment), Err(ConfigError::UnterminatedVariable));
    assert_eq!(
        expand_path(&PathBuf::new("~/work"), &home, &environment).unwrap(),
        PathBuf::new("/home/tester/work")
    );
    assert_eq!(default_path(None, &home), PathBuf::new("/home/tester/.config/car-go-clean/config.toml"));
}

#[test]
fn former_keys_are_renamed_where_they_stand() {
    let lines = |texts: &[&str]| texts.iter().map(|text| text.to_string()).collect::<Vec<_>>();
    let file = lines(&["# excludes = 1", "scan_dirs = []", "  excludes\t= [\"a\"] # kept", "[table]"]);
    assert_eq!(former_line(&file), Some(2));
    assert_eq!(rename_key(&file[2]).unwrap(), "  override_excludes\t= [\"a\"] # kept");
    assert_eq!(rename_key("override_excludes = []"), None);
    assert_eq!(rename_key("excludes_more = []"), None);
    assert_eq!(former_line(&lines(&["[table]", "excludes = []"])), None);
    assert_eq!(former_line(&lines(&[])), None);
}
