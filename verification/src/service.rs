//! The background service: its definition, what it was installed with, and the
//! commands that manage it.

use crate::environment::{find_value, value_in, Environment};
use crate::path::PathBuf;
use crate::text::{debug_chars, ended, joined, lossy_chars, quoted, text_equal};
use vstd::prelude::*;

pub mod binary;
pub mod definition;
pub mod laws;
pub mod manager;
pub mod output;
pub mod readback;

verus! {

/// The label of the service where launchd runs it.
pub const LABEL: &'static str = "com.dcchuck.car-go-clean";

/// The unit of the service where systemd runs it.
pub const UNIT: &'static str = "car-go-clean.service";

/// What a service definition marks its captured environment with.
pub const SERVICE_ENVIRONMENT_MARKER: &'static str = "car-go-clean-service-environment-v1";

/// What is to be done with the service.
#[derive(Debug, Clone, Copy, PartialEq, Eq, Structural)]
pub enum ServiceAction {
    Install,
    Refresh,
    Status,
    Start,
    Stop,
    Restart,
    Uninstall,
}

/// What runs the service.
#[derive(Debug, Clone, Copy, PartialEq, Eq, Structural)]
pub enum ServicePlatform {
    MacOs,
    Linux,
}

/// Whether the service is installed, starts by itself, and runs.
#[derive(Debug, Clone, Copy, PartialEq, Eq, Structural)]
pub struct ServiceStatus {
    pub installed: bool,
    pub enabled: bool,
    pub active: bool,
}

/// What a path stands for in a service definition.
#[derive(Debug, Clone, Copy, PartialEq, Eq, Structural)]
pub enum PathRole {
    Binary,
    LogDirectory,
}

/// What a command gave back.
#[derive(Debug, PartialEq, Eq)]
pub struct CommandOutput {
    pub success: bool,
    pub stdout: String,
    pub stderr: String,
}

impl CommandOutput {
    /// An output.
    pub fn new(success: bool, stdout: String, stderr: String) -> (output: Self)
        ensures
            output == (CommandOutput { success, stdout, stderr }),
    {
        CommandOutput { success, stdout, stderr }
    }
}

/// Why a service operation fails.
#[derive(Debug, PartialEq, Eq)]
pub enum ServiceError {
    /// The binary is not an absolute path.
    RelativeBinary(PathBuf),
    /// A path of the definition is not absolute.
    RelativePath(PathBuf),
    /// A path of the definition is not valid UTF-8.
    PathNotText(PathRole, PathBuf),
    /// The value of a variable is not valid UTF-8.
    ValueNotText(String),
    /// The value of a variable holds control characters.
    ValueUnsafe(String),
    /// A variable names a directory that is relative or holds `..`.
    AmbiguousRoot(String, PathBuf),
    /// The service is not installed.
    NotInstalled,
    /// The service is not enabled.
    NotEnabled,
    /// No dictionary follows the marker.
    DictStartMissing,
    /// The dictionary after the marker does not end.
    DictEndMissing,
    /// A line that is not a key stands where a key belongs.
    LaunchdKey,
    /// A key has no value.
    LaunchdValue,
    /// A value holds an escape that is none.
    XmlEscape,
    /// A variable that is not captured stands in a property list.
    LaunchdUnsupported(String),
    /// A variable stands twice in a property list.
    LaunchdDuplicate(String),
    /// An assignment is not quoted.
    SystemdQuoting,
    /// A quoted assignment ends in an escape.
    SystemdEscape,
    /// A quoted assignment holds a specifier.
    SystemdSpecifier,
    /// An assignment holds no equals sign.
    SystemdAssignment,
    /// A variable that is not captured stands in a unit.
    SystemdUnsupported(String),
    /// A variable stands twice in a unit.
    SystemdDuplicate(String),
    /// There is no user service manager; what it said.
    UserManagerUnavailable(String),
    /// A command failed; the command, and what it said.
    CommandFailed(String, String),
    /// The list of disabled services cannot be read.
    DisabledList,
    /// The answer whether the unit is enabled is none.
    EnabledOutput(String),
    /// The answer whether the unit is enabled and the exit status disagree.
    EnabledResult(String),
    /// The answer whether the unit is active is none.
    ActiveOutput(String),
    /// The answer whether the unit is active and the exit status disagree.
    ActiveResult(String),
    /// The current directory, which the binary is relative to, is unknown.
    NoDirectoryForBinary,
    /// The current directory, which an entry of the search path is relative to, is unknown.
    NoDirectoryForPath,
    /// No candidate for the binary can be executed.
    BinaryUnresolved(PathBuf, PathBuf),
}

/// The contents of an error.
pub enum ServiceFault {
    RelativeBinary(Seq<u8>),
    RelativePath(Seq<u8>),
    PathNotText(PathRole, Seq<u8>),
    ValueNotText(Seq<char>),
    ValueUnsafe(Seq<char>),
    AmbiguousRoot(Seq<char>, Seq<u8>),
    NotInstalled,
    NotEnabled,
    DictStartMissing,
    DictEndMissing,
    LaunchdKey,
    LaunchdValue,
    XmlEscape,
    LaunchdUnsupported(Seq<char>),
    LaunchdDuplicate(Seq<char>),
    SystemdQuoting,
    SystemdEscape,
    SystemdSpecifier,
    SystemdAssignment,
    SystemdUnsupported(Seq<char>),
    SystemdDuplicate(Seq<char>),
    UserManagerUnavailable(Seq<char>),
    CommandFailed(Seq<char>, Seq<char>),
    DisabledList,
    EnabledOutput(Seq<char>),
    EnabledResult(Seq<char>),
    ActiveOutput(Seq<char>),
    ActiveResult(Seq<char>),
    NoDirectoryForBinary,
    NoDirectoryForPath,
    BinaryUnresolved(Seq<u8>, Seq<u8>),
}

impl View for ServiceError {
    type V = ServiceFault;

    open spec fn view(&self) -> ServiceFault {
        match self {
            ServiceError::RelativeBinary(a) => ServiceFault::RelativeBinary(a@),
            ServiceError::RelativePath(a) => ServiceFault::RelativePath(a@),
            ServiceError::PathNotText(a, b) => ServiceFault::PathNotText(*a, b@),
            ServiceError::ValueNotText(a) => ServiceFault::ValueNotText(a@),
            ServiceError::ValueUnsafe(a) => ServiceFault::ValueUnsafe(a@),
            ServiceError::AmbiguousRoot(a, b) => ServiceFault::AmbiguousRoot(a@, b@),
            ServiceError::NotInstalled => ServiceFault::NotInstalled,
            ServiceError::NotEnabled => ServiceFault::NotEnabled,
            ServiceError::DictStartMissing => ServiceFault::DictStartMissing,
            ServiceError::DictEndMissing => ServiceFault::DictEndMissing,
            ServiceError::LaunchdKey => ServiceFault::LaunchdKey,
            ServiceError::LaunchdValue => ServiceFault::LaunchdValue,
            ServiceError::XmlEscape => ServiceFault::XmlEscape,
            ServiceError::LaunchdUnsupported(a) => ServiceFault::LaunchdUnsupported(a@),
            ServiceError::LaunchdDuplicate(a) => ServiceFault::LaunchdDuplicate(a@),
            ServiceError::SystemdQuoting => ServiceFault::SystemdQuoting,
            ServiceError::SystemdEscape => ServiceFault::SystemdEscape,
            ServiceError::SystemdSpecifier => ServiceFault::SystemdSpecifier,
            ServiceError::SystemdAssignment => ServiceFault::SystemdAssignment,
            ServiceError::SystemdUnsupported(a) => ServiceFault::SystemdUnsupported(a@),
            ServiceError::SystemdDuplicate(a) => ServiceFault::SystemdDuplicate(a@),
            ServiceError::UserManagerUnavailable(a) => ServiceFault::UserManagerUnavailable(a@),
            ServiceError::CommandFailed(a, b) => ServiceFault::CommandFailed(a@, b@),
            ServiceError::DisabledList => ServiceFault::DisabledList,
            ServiceError::EnabledOutput(a) => ServiceFault::EnabledOutput(a@),
            ServiceError::EnabledResult(a) => ServiceFault::EnabledResult(a@),
            ServiceError::ActiveOutput(a) => ServiceFault::ActiveOutput(a@),
            ServiceError::ActiveResult(a) => ServiceFault::ActiveResult(a@),
            ServiceError::NoDirectoryForBinary => ServiceFault::NoDirectoryForBinary,
            ServiceError::NoDirectoryForPath => ServiceFault::NoDirectoryForPath,
            ServiceError::BinaryUnresolved(a, b) => ServiceFault::BinaryUnresolved(a@, b@),
        }
    }
}

/// What an error says, where it does not quote a path.
pub open spec fn fault_message(fault: ServiceFault) -> Option<Seq<char>> {
    match fault {
        ServiceFault::RelativeBinary(path) => Some("service binary must be an absolute path: "@ + lossy_chars(path)),
        ServiceFault::RelativePath(path) => Some("path must be absolute: "@ + lossy_chars(path)),
        ServiceFault::ValueNotText(name) => Some("service environment "@ + name + " is not valid UTF-8"@),
        ServiceFault::ValueUnsafe(name) => Some("service environment "@ + name + " cannot be rendered safely"@),
        ServiceFault::AmbiguousRoot(name, path) => Some(
            name + " must be an absolute physical path: "@ + lossy_chars(path),
        ),
        ServiceFault::NotInstalled => Some("car-go-clean service is not installed"@),
        ServiceFault::NotEnabled => Some("car-go-clean service is not enabled"@),
        ServiceFault::DictStartMissing => Some("malformed captured launchd environment: missing <dict>"@),
        ServiceFault::DictEndMissing => Some("malformed captured launchd environment: missing </dict>"@),
        ServiceFault::LaunchdKey => Some("malformed captured launchd environment key"@),
        ServiceFault::LaunchdValue => Some("malformed captured launchd environment value"@),
        ServiceFault::XmlEscape => Some("malformed XML escape in captured launchd environment"@),
        ServiceFault::LaunchdUnsupported(name) => Some("unsupported captured launchd environment variable "@ + name),
        ServiceFault::LaunchdDuplicate(name) => Some("duplicate captured launchd environment variable "@ + name),
        ServiceFault::SystemdQuoting => Some("malformed captured systemd environment quoting"@),
        ServiceFault::SystemdEscape => Some("malformed captured systemd environment escape"@),
        ServiceFault::SystemdSpecifier => Some("malformed captured systemd environment specifier"@),
        ServiceFault::SystemdAssignment => Some("malformed captured systemd environment assignment"@),
        ServiceFault::SystemdUnsupported(name) => Some("unsupported captured systemd environment variable "@ + name),
        ServiceFault::SystemdDuplicate(name) => Some("duplicate captured systemd environment variable "@ + name),
        ServiceFault::UserManagerUnavailable(detail) => Some("systemd --user is unavailable"@ + detail),
        ServiceFault::CommandFailed(command, detail) => Some(command + " failed"@ + detail),
        ServiceFault::DisabledList => Some("malformed launchctl print-disabled output"@),
        ServiceFault::EnabledOutput(value) => Some("malformed systemctl is-enabled output: "@ + debug_chars(value)),
        ServiceFault::EnabledResult(value) => Some("malformed systemctl is-enabled result for "@ + debug_chars(value)),
        ServiceFault::ActiveOutput(value) => Some("malformed systemctl is-active output: "@ + debug_chars(value)),
        ServiceFault::ActiveResult(value) => Some("malformed systemctl is-active result for "@ + debug_chars(value)),
        ServiceFault::NoDirectoryForBinary => Some(
            "could not determine the current directory for service binary resolution"@,
        ),
        ServiceFault::NoDirectoryForPath => Some("could not determine the current directory for PATH resolution"@),
        _ => None,
    }
}

impl ServiceError {
    /// What the error says, where it does not quote a path.
    pub fn message(&self) -> (text: Option<String>)
        ensures
            match fault_message(self@) {
                Some(said) => text matches Some(t) && t@ == said,
                None => text is None,
            },
    {
        match self {
            ServiceError::RelativeBinary(path) => Some(
                ended("service binary must be an absolute path: ", path.to_string_lossy().as_str()),
            ),
            ServiceError::RelativePath(path) => Some(
                ended("path must be absolute: ", path.to_string_lossy().as_str()),
            ),
            ServiceError::ValueNotText(name) => Some(
                joined("service environment ", name.as_str(), " is not valid UTF-8"),
            ),
            ServiceError::ValueUnsafe(name) => Some(
                joined("service environment ", name.as_str(), " cannot be rendered safely"),
            ),
            ServiceError::AmbiguousRoot(name, path) => Some(
                joined(name.as_str(), " must be an absolute physical path: ", path.to_string_lossy().as_str()),
            ),
            ServiceError::NotInstalled => Some("car-go-clean service is not installed".to_owned()),
            ServiceError::NotEnabled => Some("car-go-clean service is not enabled".to_owned()),
            ServiceError::DictStartMissing => Some(
                "malformed captured launchd environment: missing <dict>".to_owned(),
            ),
            ServiceError::DictEndMissing => Some(
                "malformed captured launchd environment: missing </dict>".to_owned(),
            ),
            ServiceError::LaunchdKey => Some("malformed captured launchd environment key".to_owned()),
            ServiceError::LaunchdValue => Some("malformed captured launchd environment value".to_owned()),
            ServiceError::XmlEscape => Some("malformed XML escape in captured launchd environment".to_owned()),
            ServiceError::LaunchdUnsupported(name) => Some(
                ended("unsupported captured launchd environment variable ", name.as_str()),
            ),
            ServiceError::LaunchdDuplicate(name) => Some(
                ended("duplicate captured launchd environment variable ", name.as_str()),
            ),
            ServiceError::SystemdQuoting => Some("malformed captured systemd environment quoting".to_owned()),
            ServiceError::SystemdEscape => Some("malformed captured systemd environment escape".to_owned()),
            ServiceError::SystemdSpecifier => Some("malformed captured systemd environment specifier".to_owned()),
            ServiceError::SystemdAssignment => Some("malformed captured systemd environment assignment".to_owned()),
            ServiceError::SystemdUnsupported(name) => Some(
                ended("unsupported captured systemd environment variable ", name.as_str()),
            ),
            ServiceError::SystemdDuplicate(name) => Some(
                ended("duplicate captured systemd environment variable ", name.as_str()),
            ),
            ServiceError::UserManagerUnavailable(detail) => Some(
                ended("systemd --user is unavailable", detail.as_str()),
            ),
            ServiceError::CommandFailed(command, detail) => Some(
                joined(command.as_str(), " failed", detail.as_str()),
            ),
            ServiceError::DisabledList => Some("malformed launchctl print-disabled output".to_owned()),
            ServiceError::EnabledOutput(value) => Some(
                ended("malformed systemctl is-enabled output: ", quoted(value.as_str()).as_str()),
            ),
            ServiceError::EnabledResult(value) => Some(
                ended("malformed systemctl is-enabled result for ", quoted(value.as_str()).as_str()),
            ),
            ServiceError::ActiveOutput(value) => Some(
                ended("malformed systemctl is-active output: ", quoted(value.as_str()).as_str()),
            ),
            ServiceError::ActiveResult(value) => Some(
                ended("malformed systemctl is-active result for ", quoted(value.as_str()).as_str()),
            ),
            ServiceError::NoDirectoryForBinary => Some(
                "could not determine the current directory for service binary resolution".to_owned(),
            ),
            ServiceError::NoDirectoryForPath => Some(
                "could not determine the current directory for PATH resolution".to_owned(),
            ),
            _ => None,
        }
    }
}

// ----------------------------------------------------------------- environment

/// The variables that a service is installed with, in their order.
pub open spec fn service_variables() -> Seq<Seq<char>> {
    seq![
        "BUN_INSTALL"@,
        "BUN_INSTALL_CACHE_DIR"@,
        "CARGO_HOME"@,
        "COLIMA_HOME"@,
        "GOMODCACHE"@,
        "HOME"@,
        "LIMA_HOME"@,
        "RUSTUP_HOME"@,
        "XDG_CACHE_HOME"@,
        "XDG_DATA_HOME"@,
    ]
}

/// The contents of a list of names.
pub open spec fn name_views(names: Seq<&'static str>) -> Seq<Seq<char>> {
    names.map_values(|name: &'static str| name@)
}

/// The variables that a service is installed with, in their order.
pub fn variable_names() -> (names: Vec<&'static str>)
    ensures
        name_views(names@) == service_variables(),
{
    let mut names: Vec<&'static str> = Vec::new();
    names.push("BUN_INSTALL");
    names.push("BUN_INSTALL_CACHE_DIR");
    names.push("CARGO_HOME");
    names.push("COLIMA_HOME");
    names.push("GOMODCACHE");
    names.push("HOME");
    names.push("LIMA_HOME");
    names.push("RUSTUP_HOME");
    names.push("XDG_CACHE_HOME");
    names.push("XDG_DATA_HOME");
    assert(name_views(names@) =~= service_variables());
    names
}

/// Whether a variable is one that a service is installed with.
pub fn is_service_variable(name: &str) -> (yes: bool)
    ensures
        yes == service_variables().contains(name@),
{
    let names = variable_names();
    let mut i: usize = 0;
    while i < names.len()
        invariant
            i <= names.len(),
            name_views(names@) == service_variables(),
            forall|k: int| 0 <= k < i ==> service_variables()[k] != name@,
        decreases names.len() - i,
    {
        assert(name_views(names@)[i as int] == names@[i as int]@);
        if text_equal(names[i], name) {
            assert(service_variables()[i as int] == name@);
            return true;
        }
        i += 1;
    }
    assert(names@.len() == service_variables().len());
    false
}

/// The different names of the captured variables stand for different variables.
pub proof fn service_variables_differ()
    ensures
        service_variables().no_duplicates(),
        forall|i: int, k: int|
            0 <= i < service_variables().len() && 0 <= k < (#[trigger] service_variables()[i]).len()
                ==> (#[trigger] service_variables()[i][k]) != '=',
{
    reveal_strlit("BUN_INSTALL");
    reveal_strlit("BUN_INSTALL_CACHE_DIR");
    reveal_strlit("CARGO_HOME");
    reveal_strlit("COLIMA_HOME");
    reveal_strlit("GOMODCACHE");
    reveal_strlit("HOME");
    reveal_strlit("LIMA_HOME");
    reveal_strlit("RUSTUP_HOME");
    reveal_strlit("XDG_CACHE_HOME");
    reveal_strlit("XDG_DATA_HOME");
    let v = service_variables();
    assert(v[0].len() == 11 && v[0][0] == 'B');
    assert(v[1].len() == 21);
    assert(v[2].len() == 10 && v[2][0] == 'C');
    assert(v[3].len() == 11 && v[3][0] == 'C');
    assert(v[4].len() == 10 && v[4][0] == 'G');
    assert(v[5].len() == 4);
    assert(v[6].len() == 9);
    assert(v[7].len() == 11 && v[7][0] == 'R');
    assert(v[8].len() == 14);
    assert(v[9].len() == 13);
    assert forall|i: int, k: int| 0 <= i < v.len() && 0 <= k < (#[trigger] v[i]).len() implies (
    #[trigger] v[i][k]) != '=' by {
    }
}

/// The environment that a service is installed with.
#[derive(Debug)]
pub struct ServiceEnvironment {
    values: Vec<(String, PathBuf)>,
}

impl View for ServiceEnvironment {
    type V = Map<Seq<char>, Seq<u8>>;

    closed spec fn view(&self) -> Map<Seq<char>, Seq<u8>> {
        Map::new(|name: Seq<char>| value_in(self.values@, name) is Some, |name: Seq<char>|
            value_in(self.values@, name)->0)
    }
}

/// The value of a variable in a captured environment.
pub open spec fn captured_value(values: Map<Seq<char>, Seq<u8>>, name: Seq<char>) -> Option<Seq<u8>> {
    if values.contains_key(name) {
        Some(values[name])
    } else {
        None
    }
}

/// What capturing an environment gives: the captured variables that are set.
pub open spec fn captured<E: Environment>(environment: &E) -> Map<Seq<char>, Seq<u8>> {
    Map::new(
        |name: Seq<char>| service_variables().contains(name) && environment.value(name) is Some,
        |name: Seq<char>| environment.value(name)->0,
    )
}

proof fn lemma_value_pushed(values: Seq<(String, PathBuf)>, entry: (String, PathBuf), name: Seq<char>)
    ensures
        value_in(values.push(entry), name) == match value_in(values, name) {
            Some(value) => Some(value),
            None => if entry.0@ == name {
                Some(entry.1@)
            } else {
                None
            },
        },
    decreases values.len(),
{
    let longer = values.push(entry);
    if values.len() == 0 {
        assert(longer.drop_first() =~= Seq::empty());
    } else {
        assert(longer.drop_first() =~= values.drop_first().push(entry));
        lemma_value_pushed(values.drop_first(), entry, name);
    }
}

impl ServiceEnvironment {
    /// An environment without variables.
    pub fn empty() -> (environment: Self)
        ensures
            environment@ == Map::<Seq<char>, Seq<u8>>::empty(),
    {
        let environment = ServiceEnvironment { values: Vec::new() };
        assert(environment@ =~= Map::empty());
        environment
    }

    /// Sets a variable that is not set.
    pub fn set(&mut self, name: String, value: PathBuf)
        requires
            !old(self)@.contains_key(name@),
        ensures
            final(self)@ == old(self)@.insert(name@, value@),
    {
        let ghost before = self@;
        let ghost values = self.values@;
        self.values.push((name, value));
        proof {
            assert forall|n: Seq<char>| true implies value_in(self.values@, n) == (match value_in(values, n) {
                Some(v) => Some(v),
                None => if name@ == n {
                    Some(value@)
                } else {
                    None
                },
            }) by {
                lemma_value_pushed(values, (name, value), n);
            }
            assert(self@ =~= before.insert(name@, value@));
        }
    }

    /// Whether a variable is set.
    pub fn contains(&self, name: &str) -> (set: bool)
        ensures
            set == self@.contains_key(name@),
    {
        find_value(&self.values, name).is_some()
    }

    /// The captured variables of an environment.
    pub fn capture<E: Environment>(environment: &E) -> (found: Self)
        ensures
            found@ == captured(environment),
    {
        let names = variable_names();
        let mut found = ServiceEnvironment::empty();
        let mut i: usize = 0;
        while i < names.len()
            invariant
                i <= names.len(),
                name_views(names@) == service_variables(),
                found@ == captured(environment).restrict(service_variables().take(i as int).to_set()),
            decreases names.len() - i,
        {
            let ghost before = found@;
            let ghost name = service_variables()[i as int];
            assert(name_views(names@)[i as int] == names@[i as int]@);
            assert(names@.len() == service_variables().len());
            proof {
                service_variables_differ();
                assert(service_variables().take(i + 1) =~= service_variables().take(i as int).push(name));
                assert(service_variables().take(i + 1)[i as int] == name);
                assert forall|n: Seq<char>| service_variables().take(i + 1).contains(n) implies n == name
                    || service_variables().take(i as int).contains(n) by {
                    let longer = service_variables().take(i + 1);
                    let k = choose|k: int| 0 <= k < longer.len() && longer[k] == n;
                    if k < i {
                        assert(service_variables().take(i as int)[k] == n);
                    }
                }
                assert forall|n: Seq<char>| service_variables().take(i as int).contains(n) implies n != name
                    && service_variables().take(i + 1).contains(n) by {
                    let shorter = service_variables().take(i as int);
                    let k = choose|k: int| 0 <= k < shorter.len() && shorter[k] == n;
                    assert(service_variables()[k] == n);
                    assert(service_variables().take(i + 1)[k] == n);
                }
                assert(service_variables().contains(name));
            }
            match environment.var_os(names[i]) {
                Some(value) => {
                    let ghost shown = value@;
                    found.set(names[i].to_owned(), value);
                    assert(found@ =~= captured(environment).restrict(
                        service_variables().take(i + 1).to_set(),
                    ));
                },
                None => {
                    assert(found@ =~= captured(environment).restrict(
                        service_variables().take(i + 1).to_set(),
                    ));
                },
            }
            i += 1;
        }
        proof {
            assert(names@.len() == service_variables().len());
            assert(service_variables().take(i as int) =~= service_variables());
            assert(found@ =~= captured(environment));
        }
        found
    }
}

impl Environment for ServiceEnvironment {
    open spec fn value(&self, name: Seq<char>) -> Option<Seq<u8>> {
        captured_value(self@, name)
    }

    fn var_os(&self, name: &str) -> (value: Option<PathBuf>) {
        find_value(&self.values, name)
    }
}

} // verus!
