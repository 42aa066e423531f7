use car_go_clean::environment::ProcessEnvironment;
use car_go_clean::path::PathBuf;
use car_go_clean::policy::RootProvenance;
use car_go_clean::service::binary::{resolve_service_binary, service_binary_candidates, BinaryCandidate};
use car_go_clean::service::definition::{
    parse_launchd_environment, parse_systemd_environment, parse_systemd_quoted, render_launchd_template,
    render_systemd_environment, render_systemd_template, systemd_quote, xml_escape, xml_unescape,
};
use car_go_clean::service::manager::{
    check_answer, command_description, OnFailure, ServiceCommand, ServiceManager, ServiceTask, StatusProbe,
};
use car_go_clean::service::output::{
    format_command_error, is_missing_launchd_service, is_missing_systemd_unit, parse_launchd_enabled,
    parse_systemd_active, parse_systemd_enabled,
};
use car_go_clean::service::{
    is_service_variable, CommandOutput, ServiceEnvironment, ServiceError, ServicePlatform, ServiceStatus,
};

const PLIST: &str = "<plist>\n<string>__CAR_GO_CLEAN_BIN__</string>\n<string>__CAR_GO_CLEAN_LOG_DIR__</string>\n__CAR_GO_CLEAN_ENVIRONMENT__</plist>\n";

const UNIT: &str = "[Service]\nExecStart=__CAR_GO_CLEAN_BIN__ daemon\n__CAR_GO_CLEAN_ENVIRONMENT__\n";

fn variables(values: &[(&str, &str)]) -> ProcessEnvironment {
    ProcessEnvironment {
        values: values.iter().map(|(name, value)| (name.to_string(), PathBuf::new(value))).collect(),
    }
}

fn captured(values: &[(&str, &str)]) -> ServiceEnvironment {
    ServiceEnvironment::capture(&variables(values))
}

fn chars(text: &str) -> Vec<char> {
    text.chars().collect()
}

fn said(success: bool, stdout: &str, stderr: &str) -> CommandOutput {
    CommandOutput::new(success, stdout.to_string(), stderr.to_string())
}

fn linux() -> ServiceManager {
    ServiceManager::new(
        ServicePlatform::Linux,
        PathBuf::new("/home/tester"),
        PathBuf::new("/usr/bin/car-go-clean"),
        1000,
        &variables(&[("CARGO_HOME", "/data/cargo"), ("EDITOR", "vi")]),
    )
}

fn macos() -> ServiceManager {
    ServiceManager::new(
        ServicePlatform::MacOs,
        PathBuf::new("/Users/tester"),
        PathBuf::new("/usr/local/bin/car-go-clean"),
        501,
        &variables(&[]),
    )
}

fn words(tasks: &[ServiceTask]) -> Vec<String> {
    tasks
        .iter()
        .map(|task| match task {
            ServiceTask::MakeDirectory(path) => format!("mkdir {}", path.to_str().unwrap()),
            ServiceTask::Write(path, _) => format!("write {}", path.to_str().unwrap()),
            ServiceTask::Remove(path) => format!("remove {}", path.to_str().unwrap()),
            ServiceTask::Run(command, _) => command_description(command),
        })
        .collect()
}

#[test]
fn xml_texts_read_back() {
    let text = "<a href=\"x\">&'</a>";
    let escaped = xml_escape(text);
    assert_eq!(escaped, "&lt;a href=&quot;x&quot;&gt;&amp;&apos;&lt;/a&gt;");
    assert_eq!(xml_unescape(&chars(&escaped)).unwrap(), text);
    assert_eq!(xml_unescape(&chars("&nbsp;")).unwrap_err(), ServiceError::XmlEscape);
}

#[test]
fn quoted_texts_read_back() {
    let text = "100% \"of\" \\ it";
    let quoted = systemd_quote(text);
    assert_eq!(quoted, "\"100%% \\\"of\\\" \\\\ it\"");
    assert_eq!(parse_systemd_quoted(&chars(&quoted)).unwrap(), chars(text));
    assert_eq!(parse_systemd_quoted(&chars("plain")).unwrap_err(), ServiceError::SystemdQuoting);
    assert_eq!(parse_systemd_quoted(&chars("\"a%b\"")).unwrap_err(), ServiceError::SystemdSpecifier);
}

#[test]
fn only_the_named_variables_are_captured() {
    let environment = captured(&[("CARGO_HOME", "/data/cargo"), ("EDITOR", "vi")]);
    assert!(environment.contains("CARGO_HOME"));
    assert!(!environment.contains("EDITOR"));
    assert!(is_service_variable("RUSTUP_HOME"));
    assert!(!is_service_variable("EDITOR"));
}

#[test]
fn units_and_property_lists_read_their_environment_back() {
    let environment = captured(&[("CARGO_HOME", "/data/my %cargo"), ("GOMODCACHE", "/data/<go>")]);
    let unit =
        render_systemd_template(UNIT, &PathBuf::new("/usr/bin/car-go-clean"), &environment).unwrap();
    let read = parse_systemd_environment(&unit).unwrap().unwrap();
    assert!(read.contains("CARGO_HOME") && read.contains("GOMODCACHE") && !read.contains("HOME"));
    assert_eq!(render_systemd_environment(&read).unwrap(), render_systemd_environment(&environment).unwrap());

    let plist = render_launchd_template(
        PLIST,
        &PathBuf::new("/usr/bin/car-go-clean"),
        &PathBuf::new("/logs & more"),
        &environment,
    )
    .unwrap();
    assert!(plist.contains("<string>/logs &amp; more</string>"));
    let read = parse_launchd_environment(&plist).unwrap().unwrap();
    assert_eq!(render_systemd_environment(&read).unwrap(), render_systemd_environment(&environment).unwrap());
}

#[test]
fn definitions_without_the_marker_hold_no_environment() {
    assert!(parse_systemd_environment("[Service]\nExecStart=/bin/true\n").unwrap().is_none());
    assert!(parse_launchd_environment("<plist></plist>").unwrap().is_none());
}

#[test]
fn unsafe_values_and_relative_binaries_are_refused() {
    let control = captured(&[("CARGO_HOME", "/data/\ncargo")]);
    assert_eq!(
        render_systemd_environment(&control).unwrap_err(),
        ServiceError::ValueUnsafe("CARGO_HOME".to_string())
    );
    let refused = render_systemd_template(UNIT, &PathBuf::new("bin/car-go-clean"), &captured(&[])).unwrap_err();
    assert_eq!(refused.message().unwrap(), "path must be absolute: bin/car-go-clean");
    let manager = ServiceManager::new(
        ServicePlatform::Linux,
        PathBuf::new("/home/tester"),
        PathBuf::new("bin/car-go-clean"),
        1000,
        &variables(&[]),
    );
    let refused = manager.install(UNIT, None).unwrap_err();
    assert_eq!(refused.message().unwrap(), "service binary must be an absolute path: bin/car-go-clean");
}

#[test]
fn command_failures_name_what_was_said() {
    assert_eq!(format_command_error(&said(false, "", "denied\n")), ": denied");
    assert_eq!(format_command_error(&said(false, "", "")), "");
    let command = ServiceCommand { program: "systemctl", args: vec![PathBuf::new("--user"), PathBuf::new("stop")] };
    assert_eq!(command_description(&command), "systemctl --user stop");
    let error = check_answer(&command, OnFailure::Fail, &said(false, "", "denied")).unwrap_err();
    assert_eq!(error.message().unwrap(), "systemctl --user stop failed: denied");
    assert!(check_answer(&command, OnFailure::Fail, &said(true, "", "")).is_ok());
    assert!(check_answer(
        &command,
        OnFailure::FailUnlessUnitMissing,
        &said(false, "", "Unit car-go-clean.service does not exist")
    )
    .is_ok());
}

#[test]
fn manager_answers_are_read_strictly() {
    assert_eq!(parse_systemd_enabled(&said(true, "enabled\n", "")), Ok(true));
    assert_eq!(parse_systemd_enabled(&said(false, "disabled\n", "")), Ok(false));
    let message = |result: Result<bool, ServiceError>| result.unwrap_err().message().unwrap();
    assert_eq!(
        message(parse_systemd_enabled(&said(true, "disabled\n", ""))),
        r#"malformed systemctl is-enabled result for "disabled""#
    );
    assert_eq!(
        message(parse_systemd_enabled(&said(false, "may\tbe\n", ""))),
        r#"malformed systemctl is-enabled output: "may\tbe""#
    );
    assert_eq!(parse_systemd_active(&said(true, "active\n", "")), Ok(true));
    assert_eq!(parse_systemd_active(&said(false, "inactive\n", "")), Ok(false));
    assert_eq!(
        message(parse_systemd_active(&said(false, "active\n", ""))),
        r#"malformed systemctl is-active result for "active""#
    );
    assert_eq!(
        message(parse_systemd_active(&said(false, "asleep\n", ""))),
        r#"malformed systemctl is-active output: "asleep""#
    );
    assert_eq!(
        parse_launchd_enabled("disabled services = {\n\t\"com.dcchuck.car-go-clean\" => true;\n}\n"),
        Ok(false)
    );
    assert_eq!(parse_launchd_enabled("disabled services = {\n}\n"), Ok(true));
    assert_eq!(parse_launchd_enabled("nonsense").unwrap_err(), ServiceError::DisabledList);
    assert!(is_missing_launchd_service(&said(false, "", "3: Could not find specified service")));
    assert!(!is_missing_launchd_service(&said(false, "", "denied")));
    assert!(!is_missing_systemd_unit(&said(false, "", "denied")));
}

#[test]
fn a_status_is_asked_for_command_by_command() {
    let manager = linux();
    let mut answers = Vec::new();
    let canned = [said(true, "", ""), said(true, "enabled\n", ""), said(false, "inactive\n", "")];
    let mut asked = Vec::new();
    let status = loop {
        match manager.status(true, &answers) {
            StatusProbe::Ask(command) => {
                asked.push(command_description(&command));
                let next = answers.len();
                answers.push(said(canned[next].success, &canned[next].stdout, &canned[next].stderr));
            }
            StatusProbe::Known(status) => break status,
            StatusProbe::Failed(error) => panic!("{error:?}"),
        }
    };
    assert_eq!(asked.len(), 3);
    assert!(asked.iter().all(|words| words.starts_with("systemctl --user ")));
    assert_eq!(status, ServiceStatus { installed: true, enabled: true, active: false });
    assert!(matches!(
        manager.status(true, &vec![said(false, "", "no bus")]),
        StatusProbe::Failed(ServiceError::UserManagerUnavailable(_))
    ));
}

#[test]
fn settled_services_need_nothing() {
    let settled = ServiceStatus { installed: true, enabled: true, active: true };
    let stopped = ServiceStatus { installed: true, enabled: false, active: false };
    let absent = ServiceStatus { installed: false, enabled: false, active: false };
    for manager in [linux(), macos()] {
        assert!(manager.start(settled).unwrap().tasks.is_empty());
        assert!(manager.stop(stopped).tasks.is_empty());
        assert!(manager.uninstall(absent).tasks.is_empty());
        assert_eq!(manager.start(absent).unwrap_err(), ServiceError::NotInstalled);
        assert_eq!(manager.restart(stopped).unwrap_err(), ServiceError::NotEnabled);
        assert_eq!(manager.stop(settled).status, stopped);
        assert_eq!(manager.start(stopped).unwrap().status, settled);
    }
}

#[test]
fn services_are_installed_stopped_and_removed() {
    let unit = "/home/tester/.config/systemd/user/car-go-clean.service";
    let installed = linux().install(UNIT, None).unwrap();
    let steps = words(&installed.tasks);
    assert!(steps.contains(&format!("write {unit}")));
    assert_eq!(installed.status, ServiceStatus { installed: true, enabled: true, active: true });
    let removed = words(&linux().uninstall(installed.status).tasks);
    assert_eq!(removed[1], format!("remove {unit}"));
    assert_eq!(removed[2], "systemctl --user daemon-reload");

    let plist = "/Users/tester/Library/LaunchAgents/com.dcchuck.car-go-clean.plist";
    assert_eq!(macos().definition(), PathBuf::new(plist));
    let stop = words(&macos().stop(ServiceStatus { installed: true, enabled: true, active: true }).tasks);
    assert_eq!(
        stop,
        vec![
            "launchctl disable gui/501/com.dcchuck.car-go-clean".to_string(),
            format!("launchctl bootout gui/501 {plist}"),
        ]
    );
}

#[test]
fn installed_environments_are_compared_with_the_present_one() {
    let manager = linux();
    let unit = manager.validate_definition_rendering(UNIT).unwrap();
    assert_eq!(
        manager.environment_divergence(Some(&unit), &variables(&[("CARGO_HOME", "/data/cargo")])),
        Ok(Some(false))
    );
    assert_eq!(
        manager.environment_divergence(Some(&unit), &variables(&[("CARGO_HOME", "/other")])),
        Ok(Some(true))
    );
    assert_eq!(manager.environment_divergence(None, &variables(&[])), Ok(None));
    assert!(manager.installed_environment(Some(&unit)).unwrap().unwrap().contains("CARGO_HOME"));
    let roots = manager.installed_protected_roots(Some(&unit)).unwrap().unwrap();
    let cargo = roots.iter().find(|root| root.path == PathBuf::new("/data/cargo")).unwrap();
    assert_eq!(cargo.provenance, RootProvenance::Environment("CARGO_HOME".to_string()));
}

#[test]
fn ambiguous_manager_roots_are_not_installed() {
    let manager = ServiceManager::new(
        ServicePlatform::Linux,
        PathBuf::new("/home/tester"),
        PathBuf::new("/usr/bin/car-go-clean"),
        1000,
        &variables(&[("CARGO_HOME", "/data/../cargo")]),
    );
    assert_eq!(
        manager.install(UNIT, None).unwrap_err(),
        ServiceError::AmbiguousRoot("CARGO_HOME".to_string(), PathBuf::new("/data/../cargo"))
    );
}

#[test]
fn binaries_are_searched_for_on_the_path() {
    let argv0 = PathBuf::new("car-go-clean");
    let path = PathBuf::new("/one:/two");
    let here = PathBuf::new("/cwd");
    let exe = PathBuf::new("/proc/exe");
    let candidates = service_binary_candidates(&argv0, Some(&path), Some(&here), &exe);
    assert_eq!(
        candidates,
        vec![
            BinaryCandidate::File(PathBuf::new("/one/car-go-clean")),
            BinaryCandidate::File(PathBuf::new("/two/car-go-clean")),
            BinaryCandidate::File(PathBuf::new("/proc/exe")),
        ]
    );
    assert_eq!(
        resolve_service_binary(&argv0, Some(&path), Some(&here), &exe, &vec![false, true, true]).unwrap(),
        PathBuf::new("/two/car-go-clean")
    );
    assert!(matches!(
        resolve_service_binary(&argv0, Some(&path), Some(&here), &exe, &vec![false, false, false]),
        Err(ServiceError::BinaryUnresolved(_, _))
    ));
}
