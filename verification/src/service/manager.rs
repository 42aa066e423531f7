//! What managing the service takes: the commands to run and the files to write, in
//! their order, and what follows from what the commands answer.

use crate::environment::{Environment, ProcessEnvironment};
use crate::path::{is_absolute_path, path_join, path_views, PathBuf};
use crate::policy::scope::{
    default_roots, is_plain_absolute, policy_roots_for, roots_named_by, validate_absolute_physical_path,
    value_or_empty, variable_roots,
};
use crate::policy::{views_of_roots, ProtectedRoot, RootProvenance, RootView};
use crate::path::{paths_equal, same_path};
use crate::service::definition::{
    launchd_definition, launchd_environment, parse_launchd_environment, parse_systemd_environment,
    render_launchd_template, render_systemd_template, systemd_definition, systemd_environment,
};
use crate::service::output::{
    error_detail, format_command_error, is_missing_launchd_service, is_missing_systemd_unit, launchd_enabled,
    output_views, parse_launchd_enabled, parse_systemd_active, parse_systemd_enabled, says_service_missing,
    says_unit_missing, systemd_active, systemd_enabled, OutputView,
};
use crate::service::{
    captured, captured_value, name_views, service_variables, variable_names, CommandOutput, ServiceEnvironment,
    ServiceError, ServiceFault, ServicePlatform, ServiceStatus, LABEL, UNIT,
};
use crate::storage::HostPlatform;
use crate::text::{chars_of, decimal, decimal_text, lossy_chars, text_equal, trim_chars, trimmed};
use vstd::prelude::*;
use vstd::utf8::*;

verus! {

// -------------------------------------------------------------------- commands

/// A command to run.
#[derive(Debug, PartialEq, Eq)]
pub struct ServiceCommand {
    pub program: &'static str,
    pub args: Vec<PathBuf>,
}

/// The contents of a command.
pub struct CommandView {
    pub program: Seq<char>,
    pub args: Seq<Seq<u8>>,
}

impl View for ServiceCommand {
    type V = CommandView;

    open spec fn view(&self) -> CommandView {
        CommandView { program: self.program@, args: path_views(self.args@) }
    }
}

/// What a failure of a command means.
#[derive(Debug, Clone, Copy, PartialEq, Eq, Structural)]
pub enum OnFailure {
    /// The operation fails.
    Fail,
    /// The operation goes on where the service was not there, and fails otherwise.
    FailUnlessServiceMissing,
    /// The operation goes on where the unit was not there, and fails otherwise.
    FailUnlessUnitMissing,
    /// There is no user service manager.
    FailAsUnavailable,
}

/// A step of an operation.
#[derive(Debug, PartialEq, Eq)]
pub enum ServiceTask {
    /// Make a directory and those above it.
    MakeDirectory(PathBuf),
    /// Put a file in place of another at once.
    Write(PathBuf, String),
    /// Remove a file.
    Remove(PathBuf),
    /// Run a command.
    Run(ServiceCommand, OnFailure),
}

/// The contents of a step.
pub enum TaskView {
    MakeDirectory(Seq<u8>),
    Write(Seq<u8>, Seq<char>),
    Remove(Seq<u8>),
    Run(CommandView, OnFailure),
}

impl View for ServiceTask {
    type V = TaskView;

    open spec fn view(&self) -> TaskView {
        match self {
            ServiceTask::MakeDirectory(path) => TaskView::MakeDirectory(path@),
            ServiceTask::Write(path, text) => TaskView::Write(path@, text@),
            ServiceTask::Remove(path) => TaskView::Remove(path@),
            ServiceTask::Run(command, rule) => TaskView::Run(command@, *rule),
        }
    }
}

/// The contents of a list of steps.
pub open spec fn task_views(tasks: Seq<ServiceTask>) -> Seq<TaskView> {
    tasks.map_values(|task: ServiceTask| task@)
}

/// An operation: its steps, and the status that it leads to.
#[derive(Debug, PartialEq, Eq)]
pub struct ServicePlan {
    pub tasks: Vec<ServiceTask>,
    pub status: ServiceStatus,
}

/// The contents of an operation.
pub struct PlanView {
    pub tasks: Seq<TaskView>,
    pub status: ServiceStatus,
}

impl View for ServicePlan {
    type V = PlanView;

    open spec fn view(&self) -> PlanView {
        PlanView { tasks: task_views(self.tasks@), status: self.status }
    }
}

/// A status.
pub open spec fn status_of(installed: bool, enabled: bool, active: bool) -> ServiceStatus {
    ServiceStatus { installed, enabled, active }
}

/// A command in words: its program and arguments, a space between them.
pub open spec fn command_words(program: Seq<char>, args: Seq<Seq<u8>>) -> Seq<char>
    decreases args.len(),
{
    if args.len() == 0 {
        program
    } else {
        command_words(program, args.drop_last()) + " "@ + lossy_chars(args.last())
    }
}

/// A command in words.
pub fn command_description(command: &ServiceCommand) -> (words: String)
    ensures
        words@ == command_words(command@.program, command@.args),
{
    let mut words = command.program.to_owned();
    let ghost all = path_views(command.args@);
    let mut i: usize = 0;
    assert(all.take(0) =~= Seq::empty());
    while i < command.args.len()
        invariant
            i <= command.args.len(),
            all == path_views(command.args@),
            words@ == command_words(command.program@, all.take(i as int)),
        decreases command.args.len() - i,
    {
        words.append(" ");
        words.append(command.args[i].to_string_lossy().as_str());
        assert(all[i as int] == command.args@[i as int]@);
        assert(all.take(i + 1).drop_last() =~= all.take(i as int));
        i += 1;
    }
    assert(all.take(i as int) =~= all);
    words
}

/// The failure of a command.
pub open spec fn command_fault(command: CommandView, output: OutputView) -> ServiceFault {
    ServiceFault::CommandFailed(command_words(command.program, command.args), error_detail(output))
}

fn command_failed(command: &ServiceCommand, output: &CommandOutput) -> (error: ServiceError)
    ensures
        error@ == command_fault(command@, output@),
{
    ServiceError::CommandFailed(command_description(command), format_command_error(output))
}

/// What a command's answer means for the operation: nothing, or its failure.
pub open spec fn answer_fault(command: CommandView, rule: OnFailure, output: OutputView) -> Option<ServiceFault> {
    if output.success {
        None
    } else {
        match rule {
            OnFailure::Fail => Some(command_fault(command, output)),
            OnFailure::FailUnlessServiceMissing => if says_service_missing(output) {
                None
            } else {
                Some(command_fault(command, output))
            },
            OnFailure::FailUnlessUnitMissing => if says_unit_missing(output) {
                None
            } else {
                Some(command_fault(command, output))
            },
            OnFailure::FailAsUnavailable => Some(ServiceFault::UserManagerUnavailable(error_detail(output))),
        }
    }
}

/// Whether the operation goes on after a command's answer.
pub fn check_answer(command: &ServiceCommand, rule: OnFailure, output: &CommandOutput) -> (result: Result<
    (),
    ServiceError,
>)
    ensures
        match answer_fault(command@, rule, output@) {
            None => result is Ok,
            Some(fault) => result matches Err(error) && error@ == fault,
        },
{
    if output.success {
        return Ok(());
    }
    let goes_on = match rule {
        OnFailure::Fail => false,
        OnFailure::FailUnlessServiceMissing => is_missing_launchd_service(output),
        OnFailure::FailUnlessUnitMissing => is_missing_systemd_unit(output),
        OnFailure::FailAsUnavailable => return Err(
            ServiceError::UserManagerUnavailable(format_command_error(output)),
        ),
    };
    if goes_on {
        Ok(())
    } else {
        Err(command_failed(command, output))
    }
}

/// An argument.
pub open spec fn arg(text: Seq<char>) -> Seq<u8> {
    encode_utf8(text)
}

/// The launchd domain of a user.
pub open spec fn launchd_domain(user: nat) -> Seq<char> {
    "gui/"@ + decimal(user)
}

/// The service in the launchd domain of a user.
pub open spec fn launchd_target(user: nat) -> Seq<char> {
    launchd_domain(user) + "/"@ + LABEL@
}

/// The property list of the service.
pub open spec fn plist_path(home: Seq<u8>) -> Seq<u8> {
    path_join(path_join(home, arg("Library/LaunchAgents"@)), arg(LABEL@ + ".plist"@))
}

/// The directory of the service's logs.
pub open spec fn log_directory(home: Seq<u8>) -> Seq<u8> {
    path_join(home, arg("Library/Logs/car-go-clean"@))
}

/// The unit file of the service.
pub open spec fn unit_path(home: Seq<u8>) -> Seq<u8> {
    path_join(path_join(home, arg(".config/systemd/user"@)), arg(UNIT@))
}

/// A launchd command.
pub open spec fn launchctl(args: Seq<Seq<u8>>) -> CommandView {
    CommandView { program: "launchctl"@, args }
}

/// A command to the user service manager of systemd.
pub open spec fn systemctl(args: Seq<Seq<u8>>) -> CommandView {
    CommandView { program: "systemctl"@, args: seq![arg("--user"@)] + args }
}

/// A step that runs a command and fails with it.
pub open spec fn run(command: CommandView) -> TaskView {
    TaskView::Run(command, OnFailure::Fail)
}

/// The command that disables the service.
pub open spec fn launchd_disable(user: nat) -> CommandView {
    launchctl(seq![arg("disable"@), arg(launchd_target(user))])
}

/// The command that enables the service.
pub open spec fn launchd_enable(user: nat) -> CommandView {
    launchctl(seq![arg("enable"@), arg(launchd_target(user))])
}

/// The command that unloads the service.
pub open spec fn launchd_bootout(user: nat, home: Seq<u8>) -> CommandView {
    launchctl(seq![arg("bootout"@), arg(launchd_domain(user)), plist_path(home)])
}

/// The command that loads the service.
pub open spec fn launchd_bootstrap(user: nat, home: Seq<u8>) -> CommandView {
    launchctl(seq![arg("bootstrap"@), arg(launchd_domain(user)), plist_path(home)])
}

/// The command that starts the service anew.
pub open spec fn launchd_kickstart(user: nat) -> CommandView {
    launchctl(seq![arg("kickstart"@), arg("-k"@), arg(launchd_target(user))])
}

/// The command that disables the unit and stops it.
pub open spec fn systemd_disable() -> CommandView {
    systemctl(seq![arg("disable"@), arg("--now"@), arg(UNIT@)])
}

/// The command that enables the unit and starts it.
pub open spec fn systemd_enable() -> CommandView {
    systemctl(seq![arg("enable"@), arg("--now"@), arg(UNIT@)])
}

/// The command that makes the manager read its units again.
pub open spec fn systemd_reload() -> CommandView {
    systemctl(seq![arg("daemon-reload"@)])
}

/// The command that shows whether there is a user service manager.
pub open spec fn systemd_show() -> CommandView {
    systemctl(seq![arg("show-environment"@)])
}

/// A command on the unit.
pub open spec fn systemd_unit(verb: Seq<char>) -> CommandView {
    systemctl(seq![arg(verb), arg(UNIT@)])
}

fn two(a: PathBuf, b: PathBuf) -> (list: Vec<PathBuf>)
    ensures
        path_views(list@) == seq![a@, b@],
{
    let mut list: Vec<PathBuf> = Vec::new();
    list.push(a);
    list.push(b);
    assert(path_views(list@) =~= seq![a@, b@]);
    list
}

fn three(a: PathBuf, b: PathBuf, c: PathBuf) -> (list: Vec<PathBuf>)
    ensures
        path_views(list@) == seq![a@, b@, c@],
{
    let mut list: Vec<PathBuf> = Vec::new();
    list.push(a);
    list.push(b);
    list.push(c);
    assert(path_views(list@) =~= seq![a@, b@, c@]);
    list
}

fn one_systemctl(verb: &str) -> (command: ServiceCommand)
    ensures
        command@ == systemctl(seq![arg(verb@)]),
{
    let args = two(PathBuf::new("--user"), PathBuf::new(verb));
    assert(seq![arg("--user"@)] + seq![arg(verb@)] =~= seq![arg("--user"@), arg(verb@)]);
    ServiceCommand { program: "systemctl", args }
}

fn unit_systemctl(verb: &str) -> (command: ServiceCommand)
    ensures
        command@ == systemd_unit(verb@),
{
    let args = three(PathBuf::new("--user"), PathBuf::new(verb), PathBuf::new(UNIT));
    assert(seq![arg("--user"@)] + seq![arg(verb@), arg(UNIT@)] =~= seq![arg("--user"@), arg(verb@), arg(UNIT@)]);
    ServiceCommand { program: "systemctl", args }
}

fn now_systemctl(verb: &str) -> (command: ServiceCommand)
    ensures
        command@ == systemctl(seq![arg(verb@), arg("--now"@), arg(UNIT@)]),
{
    let mut args: Vec<PathBuf> = Vec::new();
    args.push(PathBuf::new("--user"));
    args.push(PathBuf::new(verb));
    args.push(PathBuf::new("--now"));
    args.push(PathBuf::new(UNIT));
    assert(path_views(args@) =~= seq![arg("--user"@)] + seq![arg(verb@), arg("--now"@), arg(UNIT@)]);
    ServiceCommand { program: "systemctl", args }
}

fn push_task(tasks: &mut Vec<ServiceTask>, task: ServiceTask)
    ensures
        task_views(final(tasks)@) == task_views(old(tasks)@).push(task@),
{
    let ghost before = tasks@;
    tasks.push(task);
    assert(task_views(tasks@) =~= task_views(before).push(task@));
}

fn push_run(tasks: &mut Vec<ServiceTask>, command: ServiceCommand)
    ensures
        task_views(final(tasks)@) == task_views(old(tasks)@).push(run(command@)),
{
    push_task(tasks, ServiceTask::Run(command, OnFailure::Fail));
}

// --------------------------------------------------------------------- manager

/// The manager of the service of a user.
#[derive(Debug)]
pub struct ServiceManager {
    platform: ServicePlatform,
    home_dir: PathBuf,
    binary: PathBuf,
    user: u32,
    service_environment: ServiceEnvironment,
}

/// The contents of a manager.
pub struct ManagerView {
    pub platform: ServicePlatform,
    pub home: Seq<u8>,
    pub binary: Seq<u8>,
    pub user: nat,
    pub values: Map<Seq<char>, Seq<u8>>,
}

impl View for ServiceManager {
    type V = ManagerView;

    closed spec fn view(&self) -> ManagerView {
        ManagerView {
            platform: self.platform,
            home: self.home_dir@,
            binary: self.binary@,
            user: self.user as nat,
            values: self.service_environment@,
        }
    }
}

/// The definition of the service.
pub open spec fn definition_path(manager: ManagerView) -> Seq<u8> {
    match manager.platform {
        ServicePlatform::MacOs => plist_path(manager.home),
        ServicePlatform::Linux => unit_path(manager.home),
    }
}

/// The first variable of a list that names an ambiguous directory.
pub open spec fn ambiguous_root(values: Map<Seq<char>, Seq<u8>>, names: Seq<Seq<char>>) -> Option<ServiceFault>
    decreases names.len(),
{
    if names.len() == 0 {
        None
    } else {
        match ambiguous_root(values, names.drop_last()) {
            Some(fault) => Some(fault),
            None => match captured_value(values, names.last()) {
                None => None,
                Some(path) => if path.len() == 0 || is_plain_absolute(path) {
                    None
                } else {
                    Some(ServiceFault::AmbiguousRoot(names.last(), path))
                },
            },
        }
    }
}

/// The text of the definition.
pub open spec fn definition_text(manager: ManagerView, template: Seq<char>) -> Result<Seq<char>, ServiceFault> {
    match manager.platform {
        ServicePlatform::MacOs => launchd_definition(
            template,
            manager.binary,
            log_directory(manager.home),
            manager.values,
        ),
        ServicePlatform::Linux => systemd_definition(template, manager.binary, manager.values),
    }
}

/// The text of the definition where the service can be installed with it.
pub open spec fn installable(manager: ManagerView, template: Seq<char>) -> Result<Seq<char>, ServiceFault> {
    if !is_absolute_path(manager.binary) {
        Err(ServiceFault::RelativeBinary(manager.binary))
    } else {
        match ambiguous_root(manager.values, service_variables()) {
            Some(fault) => Err(fault),
            None => definition_text(manager, template),
        }
    }
}

/// What asking for the status has come to.
#[derive(Debug, PartialEq, Eq)]
pub enum StatusProbe {
    /// A command has to be run.
    Ask(ServiceCommand),
    /// The status is known.
    Known(ServiceStatus),
    /// The status cannot be known.
    Failed(ServiceError),
}

/// The contents of a probe.
pub enum ProbeView {
    Ask(CommandView),
    Known(ServiceStatus),
    Failed(ServiceFault),
}

impl View for StatusProbe {
    type V = ProbeView;

    open spec fn view(&self) -> ProbeView {
        match self {
            StatusProbe::Ask(command) => ProbeView::Ask(command@),
            StatusProbe::Known(status) => ProbeView::Known(*status),
            StatusProbe::Failed(error) => ProbeView::Failed(error@),
        }
    }
}

/// The status where launchd runs the service, from the answers so far.
pub open spec fn launchd_status(user: nat, exists: bool, answers: Seq<OutputView>) -> ProbeView {
    let list = launchctl(seq![arg("print-disabled"@), arg(launchd_domain(user))]);
    let show = launchctl(seq![arg("print"@), arg(launchd_target(user))]);
    if !exists {
        ProbeView::Known(status_of(false, false, false))
    } else if answers.len() == 0 {
        ProbeView::Ask(list)
    } else if !answers[0].success {
        ProbeView::Failed(command_fault(list, answers[0]))
    } else {
        match launchd_enabled(answers[0].stdout) {
            Err(fault) => ProbeView::Failed(fault),
            Ok(enabled) => if answers.len() == 1 {
                ProbeView::Ask(show)
            } else if !answers[1].success && !says_service_missing(answers[1]) {
                ProbeView::Failed(command_fault(show, answers[1]))
            } else {
                ProbeView::Known(status_of(true, enabled, answers[1].success))
            },
        }
    }
}

/// The status where systemd runs the service, from the answers so far.
pub open spec fn systemd_status(exists: bool, answers: Seq<OutputView>) -> ProbeView {
    if !exists {
        ProbeView::Known(status_of(false, false, false))
    } else if answers.len() == 0 {
        ProbeView::Ask(systemd_show())
    } else if !answers[0].success {
        ProbeView::Failed(ServiceFault::UserManagerUnavailable(error_detail(answers[0])))
    } else if answers.len() == 1 {
        ProbeView::Ask(systemd_unit("is-enabled"@))
    } else if !answers[1].success && trimmed(answers[1].stdout).len() == 0 {
        ProbeView::Failed(command_fault(systemd_unit("is-enabled"@), answers[1]))
    } else {
        match systemd_enabled(answers[1]) {
            Err(fault) => ProbeView::Failed(fault),
            Ok(enabled) => if answers.len() == 2 {
                ProbeView::Ask(systemd_unit("is-active"@))
            } else if !answers[2].success && trimmed(answers[2].stdout).len() == 0 {
                ProbeView::Failed(command_fault(systemd_unit("is-active"@), answers[2]))
            } else {
                match systemd_active(answers[2]) {
                    Err(fault) => ProbeView::Failed(fault),
                    Ok(active) => ProbeView::Known(status_of(true, enabled, active)),
                }
            },
        }
    }
}

/// The status of the service, from the answers so far.
pub open spec fn probed(manager: ManagerView, exists: bool, answers: Seq<OutputView>) -> ProbeView {
    match manager.platform {
        ServicePlatform::MacOs => launchd_status(manager.user, exists, answers),
        ServicePlatform::Linux => systemd_status(exists, answers),
    }
}

fn is_blank(text: &str) -> (blank: bool)
    ensures
        blank == (trimmed(text@).len() == 0),
{
    trim_chars(chars_of(text).as_slice()).len() == 0
}

/// The steps that stop a service.
pub open spec fn stop_plan(manager: ManagerView, status: ServiceStatus) -> PlanView {
    if !status.installed || (!status.enabled && !status.active) {
        PlanView { tasks: seq![], status }
    } else {
        PlanView {
            tasks: match manager.platform {
                ServicePlatform::MacOs => (if status.enabled {
                    seq![run(launchd_disable(manager.user))]
                } else {
                    seq![]
                }) + (if status.active {
                    seq![
                        TaskView::Run(
                            launchd_bootout(manager.user, manager.home),
                            OnFailure::FailUnlessServiceMissing,
                        ),
                    ]
                } else {
                    seq![]
                }),
                ServicePlatform::Linux => seq![run(systemd_disable())],
            },
            status: status_of(true, false, false),
        }
    }
}

/// The steps that start a service.
pub open spec fn start_plan(manager: ManagerView, status: ServiceStatus) -> Result<PlanView, ServiceFault> {
    if !status.installed {
        Err(ServiceFault::NotInstalled)
    } else if status.enabled && status.active {
        Ok(PlanView { tasks: seq![], status })
    } else {
        Ok(
            PlanView {
                tasks: match manager.platform {
                    ServicePlatform::MacOs => (if status.enabled {
                        seq![]
                    } else {
                        seq![run(launchd_enable(manager.user))]
                    }) + (if status.active {
                        seq![]
                    } else {
                        seq![
                            run(launchd_bootstrap(manager.user, manager.home)),
                            run(launchd_kickstart(manager.user)),
                        ]
                    }),
                    ServicePlatform::Linux => seq![run(systemd_reload()), run(systemd_enable())],
                },
                status: status_of(true, true, true),
            },
        )
    }
}

/// The steps that restart a service.
pub open spec fn restart_plan(manager: ManagerView, status: ServiceStatus) -> Result<PlanView, ServiceFault> {
    if !status.installed {
        Err(ServiceFault::NotInstalled)
    } else if !status.enabled {
        Err(ServiceFault::NotEnabled)
    } else {
        Ok(
            PlanView {
                tasks: seq![
                    run(
                        match manager.platform {
                            ServicePlatform::MacOs => launchd_kickstart(manager.user),
                            ServicePlatform::Linux => systemd_unit("restart"@),
                        },
                    ),
                ],
                status: status_of(true, true, true),
            },
        )
    }
}

/// The steps that remove a service.
pub open spec fn uninstall_plan(manager: ManagerView, status: ServiceStatus) -> PlanView {
    if !status.installed {
        PlanView { tasks: seq![], status }
    } else {
        PlanView {
            tasks: match manager.platform {
                ServicePlatform::MacOs => (if status.enabled {
                    seq![run(launchd_disable(manager.user))]
                } else {
                    seq![]
                }) + (if status.active {
                    seq![
                        TaskView::Run(
                            launchd_bootout(manager.user, manager.home),
                            OnFailure::FailUnlessServiceMissing,
                        ),
                    ]
                } else {
                    seq![]
                }) + seq![TaskView::Remove(plist_path(manager.home))],
                ServicePlatform::Linux => seq![
                    TaskView::Run(systemd_disable(), OnFailure::FailUnlessUnitMissing),
                    TaskView::Remove(unit_path(manager.home)),
                    run(systemd_reload()),
                ],
            },
            status: status_of(false, false, false),
        }
    }
}

/// The steps that stop a service that runs while it is installed anew.
pub open spec fn reinstall_tasks(manager: ManagerView, current: Option<ServiceStatus>) -> Seq<TaskView> {
    match current {
        Some(status) => if !status.active {
            seq![]
        } else {
            match manager.platform {
                ServicePlatform::MacOs => seq![
                    TaskView::Run(launchd_bootout(manager.user, manager.home), OnFailure::FailUnlessServiceMissing),
                ],
                ServicePlatform::Linux => seq![run(systemd_unit("stop"@))],
            }
        },
        None => seq![],
    }
}

/// The steps that install a service with a definition.
pub open spec fn install_tasks(manager: ManagerView, definition: Seq<char>) -> Seq<TaskView> {
    match manager.platform {
        ServicePlatform::MacOs => seq![
            TaskView::MakeDirectory(log_directory(manager.home)),
            TaskView::Write(plist_path(manager.home), definition),
            run(launchd_enable(manager.user)),
            run(launchd_bootstrap(manager.user, manager.home)),
            run(launchd_kickstart(manager.user)),
        ],
        ServicePlatform::Linux => seq![
            TaskView::Run(systemd_show(), OnFailure::FailAsUnavailable),
            TaskView::Write(unit_path(manager.home), definition),
            run(systemd_reload()),
            run(systemd_enable()),
        ],
    }
}

/// The steps that write the definition of an installed service anew, and leave the
/// service enabled or not, running or not, as it was.
pub open spec fn refresh_tasks(manager: ManagerView, definition: Seq<char>) -> Seq<TaskView> {
    match manager.platform {
        ServicePlatform::MacOs => seq![TaskView::Write(plist_path(manager.home), definition)],
        ServicePlatform::Linux => seq![
            TaskView::Write(unit_path(manager.home), definition),
            run(systemd_reload()),
        ],
    }
}

/// Whether a result is an operation or an error.
pub open spec fn gives_plan(result: Result<ServicePlan, ServiceError>, wanted: Result<PlanView, ServiceFault>) -> bool {
    match wanted {
        Ok(plan) => result matches Ok(made) && made@ == plan,
        Err(fault) => result matches Err(error) && error@ == fault,
    }
}

impl ServiceManager {
    /// The manager of the service of a user, with the environment of this process.
    pub fn new(
        platform: ServicePlatform,
        home_dir: PathBuf,
        binary: PathBuf,
        user: u32,
        environment: &ProcessEnvironment,
    ) -> (manager: Self)
        ensures
            manager@ == (ManagerView {
                platform,
                home: home_dir@,
                binary: binary@,
                user: user as nat,
                values: captured(environment),
            }),
    {
        ServiceManager::new_with_environment(platform, home_dir, binary, user, environment)
    }

    /// The manager of the service of a user, with an environment.
    pub fn new_with_environment<E: Environment>(
        platform: ServicePlatform,
        home_dir: PathBuf,
        binary: PathBuf,
        user: u32,
        environment: &E,
    ) -> (manager: Self)
        ensures
            manager@ == (ManagerView {
                platform,
                home: home_dir@,
                binary: binary@,
                user: user as nat,
                values: captured(environment),
            }),
    {
        ServiceManager {
            platform,
            home_dir,
            binary,
            user,
            service_environment: ServiceEnvironment::capture(environment),
        }
    }

    fn domain(&self) -> (domain: String)
        ensures
            domain@ == launchd_domain(self@.user),
    {
        let mut domain = "gui/".to_owned();
        domain.append(decimal_text(self.user as u128).as_str());
        domain
    }

    fn target(&self) -> (target: PathBuf)
        ensures
            target@ == arg(launchd_target(self@.user)),
    {
        let mut target = self.domain();
        target.append("/");
        target.append(LABEL);
        PathBuf::new(target.as_str())
    }

    fn plist(&self) -> (path: PathBuf)
        ensures
            path@ == plist_path(self@.home),
    {
        let mut name = LABEL.to_owned();
        name.append(".plist");
        self.home_dir.join(&PathBuf::new("Library/LaunchAgents")).join(&PathBuf::new(name.as_str()))
    }

    fn unit(&self) -> (path: PathBuf)
        ensures
            path@ == unit_path(self@.home),
    {
        self.home_dir.join(&PathBuf::new(".config/systemd/user")).join(&PathBuf::new(UNIT))
    }

    fn logs(&self) -> (path: PathBuf)
        ensures
            path@ == log_directory(self@.home),
    {
        self.home_dir.join(&PathBuf::new("Library/Logs/car-go-clean"))
    }

    /// Where the definition of the service stands.
    pub fn definition(&self) -> (path: PathBuf)
        ensures
            path@ == definition_path(self@),
    {
        match self.platform {
            ServicePlatform::MacOs => self.plist(),
            ServicePlatform::Linux => self.unit(),
        }
    }

    fn on_target(&self, verb: &str) -> (command: ServiceCommand)
        ensures
            command@ == launchctl(seq![arg(verb@), arg(launchd_target(self@.user))]),
    {
        ServiceCommand { program: "launchctl", args: two(PathBuf::new(verb), self.target()) }
    }

    fn on_domain(&self, verb: &str) -> (command: ServiceCommand)
        ensures
            command@ == launchctl(seq![arg(verb@), arg(launchd_domain(self@.user)), plist_path(self@.home)]),
    {
        ServiceCommand {
            program: "launchctl",
            args: three(PathBuf::new(verb), PathBuf::new(self.domain().as_str()), self.plist()),
        }
    }

    fn kickstart(&self) -> (command: ServiceCommand)
        ensures
            command@ == launchd_kickstart(self@.user),
    {
        ServiceCommand {
            program: "launchctl",
            args: three(PathBuf::new("kickstart"), PathBuf::new("-k"), self.target()),
        }
    }

    fn require_plain_roots(&self) -> (result: Result<(), ServiceError>)
        ensures
            match ambiguous_root(self@.values, service_variables()) {
                None => result is Ok,
                Some(fault) => result matches Err(error) && error@ == fault,
            },
    {
        let names = variable_names();
        let ghost all = service_variables();
        let mut i: usize = 0;
        assert(all.take(0) =~= Seq::empty());
        while i < names.len()
            invariant
                i <= names.len(),
                all == service_variables(),
                name_views(names@) == all,
                ambiguous_root(self@.values, all.take(i as int)) is None,
            decreases names.len() - i,
        {
            proof {
                assert(names@.len() == all.len());
                assert(name_views(names@)[i as int] == names@[i as int]@);
                assert(all.take(i + 1).drop_last() =~= all.take(i as int));
                assert(all.take(i + 1).last() == all[i as int]);
                if ambiguous_root(self@.values, all.take(i + 1)) is Some {
                    lemma_ambiguous_early(self@.values, all, i + 1);
                }
            }
            match self.service_environment.var_os(names[i]) {
                None => {},
                Some(value) => {
                    if !value.is_empty() && !validate_absolute_physical_path(&value) {
                        return Err(ServiceError::AmbiguousRoot(names[i].to_owned(), value));
                    }
                },
            }
            i += 1;
        }
        proof {
            assert(names@.len() == all.len());
            assert(all.take(i as int) =~= all);
        }
        Ok(())
    }

    /// The definition that the service is installed with, where it can be.
    pub fn validate_definition_rendering(&self, template: &str) -> (result: Result<String, ServiceError>)
        ensures
            match installable(self@, template@) {
                Ok(text) => result matches Ok(t) && t@ == text,
                Err(fault) => result matches Err(error) && error@ == fault,
            },
    {
        if !self.binary.is_absolute() {
            return Err(ServiceError::RelativeBinary(self.binary.clone()));
        }
        match self.require_plain_roots() {
            Err(error) => return Err(error),
            Ok(_) => {},
        }
        match self.platform {
            ServicePlatform::MacOs => render_launchd_template(
                template,
                &self.binary,
                &self.logs(),
                &self.service_environment,
            ),
            ServicePlatform::Linux => render_systemd_template(template, &self.binary, &self.service_environment),
        }
    }

    /// The status of the service, from the answers to what was asked so far; `exists`
    /// says whether its definition is there.
    pub fn status(&self, exists: bool, answers: &Vec<CommandOutput>) -> (probe: StatusProbe)
        ensures
            probe@ == probed(self@, exists, output_views(answers@)),
    {
        match self.platform {
            ServicePlatform::MacOs => self.status_macos(exists, answers),
            ServicePlatform::Linux => self.status_linux(exists, answers),
        }
    }

    fn status_macos(&self, exists: bool, answers: &Vec<CommandOutput>) -> (probe: StatusProbe)
        ensures
            probe@ == launchd_status(self@.user, exists, output_views(answers@)),
    {
        if !exists {
            return StatusProbe::Known(ServiceStatus { installed: false, enabled: false, active: false });
        }
        let list = ServiceCommand {
            program: "launchctl",
            args: two(PathBuf::new("print-disabled"), PathBuf::new(self.domain().as_str())),
        };
        if answers.len() == 0 {
            return StatusProbe::Ask(list);
        }
        assert(output_views(answers@)[0] == answers@[0]@);
        if !answers[0].success {
            return StatusProbe::Failed(command_failed(&list, &answers[0]));
        }
        let enabled = match parse_launchd_enabled(answers[0].stdout.as_str()) {
            Err(error) => return StatusProbe::Failed(error),
            Ok(enabled) => enabled,
        };
        let show = self.on_target("print");
        if answers.len() == 1 {
            return StatusProbe::Ask(show);
        }
        assert(output_views(answers@)[1] == answers@[1]@);
        if !answers[1].success && !is_missing_launchd_service(&answers[1]) {
            return StatusProbe::Failed(command_failed(&show, &answers[1]));
        }
        StatusProbe::Known(ServiceStatus { installed: true, enabled, active: answers[1].success })
    }

    fn status_linux(&self, exists: bool, answers: &Vec<CommandOutput>) -> (probe: StatusProbe)
        ensures
            probe@ == systemd_status(exists, output_views(answers@)),
    {
        if !exists {
            return StatusProbe::Known(ServiceStatus { installed: false, enabled: false, active: false });
        }
        if answers.len() == 0 {
            return StatusProbe::Ask(one_systemctl("show-environment"));
        }
        assert(output_views(answers@)[0] == answers@[0]@);
        if !answers[0].success {
            return StatusProbe::Failed(ServiceError::UserManagerUnavailable(format_command_error(&answers[0])));
        }
        let ask_enabled = unit_systemctl("is-enabled");
        if answers.len() == 1 {
            return StatusProbe::Ask(ask_enabled);
        }
        assert(output_views(answers@)[1] == answers@[1]@);
        if !answers[1].success && is_blank(answers[1].stdout.as_str()) {
            return StatusProbe::Failed(command_failed(&ask_enabled, &answers[1]));
        }
        let enabled = match parse_systemd_enabled(&answers[1]) {
            Err(error) => return StatusProbe::Failed(error),
            Ok(enabled) => enabled,
        };
        let ask_active = unit_systemctl("is-active");
        if answers.len() == 2 {
            return StatusProbe::Ask(ask_active);
        }
        assert(output_views(answers@)[2] == answers@[2]@);
        if !answers[2].success && is_blank(answers[2].stdout.as_str()) {
            return StatusProbe::Failed(command_failed(&ask_active, &answers[2]));
        }
        match parse_systemd_active(&answers[2]) {
            Err(error) => StatusProbe::Failed(error),
            Ok(active) => StatusProbe::Known(ServiceStatus { installed: true, enabled, active }),
        }
    }

    /// Installs the service: `current` is its status where a definition is there
    /// already.
    pub fn install(&self, template: &str, current: Option<ServiceStatus>) -> (result: Result<ServicePlan, ServiceError>)
        ensures
            gives_plan(
                result,
                match installable(self@, template@) {
                    Err(fault) => Err(fault),
                    Ok(text) => Ok(
                        PlanView {
                            tasks: reinstall_tasks(self@, current) + install_tasks(self@, text),
                            status: status_of(true, true, true),
                        },
                    ),
                },
            ),
    {
        let definition = match self.validate_definition_rendering(template) {
            Err(error) => return Err(error),
            Ok(definition) => definition,
        };
        let mut tasks: Vec<ServiceTask> = Vec::new();
        assert(task_views(tasks@) =~= seq![]);
        let stop = match current {
            Some(status) => status.active,
            None => false,
        };
        let ghost shown = definition@;
        match self.platform {
            ServicePlatform::MacOs => {
                if stop {
                    push_task(
                        &mut tasks,
                        ServiceTask::Run(self.on_domain("bootout"), OnFailure::FailUnlessServiceMissing),
                    );
                }
                push_task(&mut tasks, ServiceTask::MakeDirectory(self.logs()));
                push_task(&mut tasks, ServiceTask::Write(self.plist(), definition));
                push_run(&mut tasks, self.on_target("enable"));
                push_run(&mut tasks, self.on_domain("bootstrap"));
                push_run(&mut tasks, self.kickstart());
            },
            ServicePlatform::Linux => {
                if stop {
                    push_run(&mut tasks, unit_systemctl("stop"));
                }
                push_task(
                    &mut tasks,
                    ServiceTask::Run(one_systemctl("show-environment"), OnFailure::FailAsUnavailable),
                );
                push_task(&mut tasks, ServiceTask::Write(self.unit(), definition));
                push_run(&mut tasks, one_systemctl("daemon-reload"));
                push_run(&mut tasks, now_systemctl("enable"));
            },
        }
        assert(task_views(tasks@) =~= reinstall_tasks(self@, current) + install_tasks(self@, shown));
        Ok(ServicePlan { tasks, status: ServiceStatus { installed: true, enabled: true, active: true } })
    }

    /// Writes the definition of an installed service anew, and neither enables nor
    /// starts the service.
    pub fn refresh(&self, template: &str, status: ServiceStatus) -> (result: Result<ServicePlan, ServiceError>)
        ensures
            gives_plan(
                result,
                if !status.installed {
                    Err(ServiceFault::NotInstalled)
                } else {
                    match installable(self@, template@) {
                        Err(fault) => Err(fault),
                        Ok(text) => Ok(PlanView { tasks: refresh_tasks(self@, text), status }),
                    }
                },
            ),
    {
        if !status.installed {
            return Err(ServiceError::NotInstalled);
        }
        let definition = match self.validate_definition_rendering(template) {
            Err(error) => return Err(error),
            Ok(definition) => definition,
        };
        let ghost shown = definition@;
        let mut tasks: Vec<ServiceTask> = Vec::new();
        assert(task_views(tasks@) =~= seq![]);
        match self.platform {
            ServicePlatform::MacOs => {
                push_task(&mut tasks, ServiceTask::Write(self.plist(), definition));
            },
            ServicePlatform::Linux => {
                push_task(&mut tasks, ServiceTask::Write(self.unit(), definition));
                push_run(&mut tasks, one_systemctl("daemon-reload"));
            },
        }
        assert(task_views(tasks@) =~= refresh_tasks(self@, shown));
        Ok(ServicePlan { tasks, status })
    }

    /// Stops the service and keeps it from starting by itself.
    pub fn stop(&self, status: ServiceStatus) -> (plan: ServicePlan)
        ensures
            plan@ == stop_plan(self@, status),
    {
        let mut tasks: Vec<ServiceTask> = Vec::new();
        assert(task_views(tasks@) =~= seq![]);
        if !status.installed || (!status.enabled && !status.active) {
            return ServicePlan { tasks, status };
        }
        match self.platform {
            ServicePlatform::MacOs => {
                if status.enabled {
                    push_run(&mut tasks, self.on_target("disable"));
                }
                if status.active {
                    push_task(
                        &mut tasks,
                        ServiceTask::Run(self.on_domain("bootout"), OnFailure::FailUnlessServiceMissing),
                    );
                }
            },
            ServicePlatform::Linux => push_run(&mut tasks, now_systemctl("disable")),
        }
        assert(task_views(tasks@) =~= stop_plan(self@, status).tasks);
        ServicePlan { tasks, status: ServiceStatus { installed: true, enabled: false, active: false } }
    }

    /// Starts the service, now and from now on.
    pub fn start(&self, status: ServiceStatus) -> (result: Result<ServicePlan, ServiceError>)
        ensures
            gives_plan(result, start_plan(self@, status)),
    {
        let mut tasks: Vec<ServiceTask> = Vec::new();
        assert(task_views(tasks@) =~= seq![]);
        if !status.installed {
            return Err(ServiceError::NotInstalled);
        }
        if status.enabled && status.active {
            return Ok(ServicePlan { tasks, status });
        }
        match self.platform {
            ServicePlatform::MacOs => {
                if !status.enabled {
                    push_run(&mut tasks, self.on_target("enable"));
                }
                if !status.active {
                    push_run(&mut tasks, self.on_domain("bootstrap"));
                    push_run(&mut tasks, self.kickstart());
                }
            },
            ServicePlatform::Linux => {
                push_run(&mut tasks, one_systemctl("daemon-reload"));
                push_run(&mut tasks, now_systemctl("enable"));
            },
        }
        assert(task_views(tasks@) =~= start_plan(self@, status)->Ok_0.tasks);
        Ok(ServicePlan { tasks, status: ServiceStatus { installed: true, enabled: true, active: true } })
    }

    /// Restarts the service.
    pub fn restart(&self, status: ServiceStatus) -> (result: Result<ServicePlan, ServiceError>)
        ensures
            gives_plan(result, restart_plan(self@, status)),
    {
        if !status.installed {
            return Err(ServiceError::NotInstalled);
        }
        if !status.enabled {
            return Err(ServiceError::NotEnabled);
        }
        let mut tasks: Vec<ServiceTask> = Vec::new();
        assert(task_views(tasks@) =~= seq![]);
        match self.platform {
            ServicePlatform::MacOs => push_run(&mut tasks, self.kickstart()),
            ServicePlatform::Linux => push_run(&mut tasks, unit_systemctl("restart")),
        }
        assert(task_views(tasks@) =~= restart_plan(self@, status)->Ok_0.tasks);
        Ok(ServicePlan { tasks, status: ServiceStatus { installed: true, enabled: true, active: true } })
    }

    /// Removes the service.
    pub fn uninstall(&self, status: ServiceStatus) -> (plan: ServicePlan)
        ensures
            plan@ == uninstall_plan(self@, status),
    {
        let mut tasks: Vec<ServiceTask> = Vec::new();
        assert(task_views(tasks@) =~= seq![]);
        if !status.installed {
            return ServicePlan { tasks, status };
        }
        match self.platform {
            ServicePlatform::MacOs => {
                if status.enabled {
                    push_run(&mut tasks, self.on_target("disable"));
                }
                if status.active {
                    push_task(
                        &mut tasks,
                        ServiceTask::Run(self.on_domain("bootout"), OnFailure::FailUnlessServiceMissing),
                    );
                }
                push_task(&mut tasks, ServiceTask::Remove(self.plist()));
            },
            ServicePlatform::Linux => {
                push_task(
                    &mut tasks,
                    ServiceTask::Run(now_systemctl("disable"), OnFailure::FailUnlessUnitMissing),
                );
                push_task(&mut tasks, ServiceTask::Remove(self.unit()));
                push_run(&mut tasks, one_systemctl("daemon-reload"));
            },
        }
        assert(task_views(tasks@) =~= uninstall_plan(self@, status).tasks);
        ServicePlan { tasks, status: ServiceStatus { installed: false, enabled: false, active: false } }
    }

    /// The environment that the service was installed with: `definition` is the text of
    /// its definition, if it is there.
    pub fn installed_environment(&self, definition: Option<&str>) -> (result: Result<
        Option<ServiceEnvironment>,
        ServiceError,
    >)
        ensures
            match installed_values(self@, definition_view(definition)) {
                Ok(None) => result matches Ok(None),
                Ok(Some(values)) => result matches Ok(Some(environment)) && environment@ == values,
                Err(fault) => result matches Err(error) && error@ == fault,
            },
    {
        match definition {
            None => Ok(None),
            Some(text) => match self.platform {
                ServicePlatform::MacOs => parse_launchd_environment(text),
                ServicePlatform::Linux => parse_systemd_environment(text),
            },
        }
    }

    /// The protected directories that the service was installed with, if it is known
    /// what it was installed with.
    pub fn installed_protected_roots(&self, definition: Option<&str>) -> (result: Result<
        Option<Vec<ProtectedRoot>>,
        ServiceError,
    >)
        ensures
            match installed_values(self@, definition_view(definition)) {
                Ok(None) => result matches Ok(None),
                Ok(Some(values)) => result matches Ok(Some(roots)) && views_of_roots(roots@) == roots_of(
                    self@.platform,
                    values,
                ),
                Err(fault) => result matches Err(error) && error@ == fault,
            },
    {
        match self.installed_environment(definition) {
            Err(error) => Err(error),
            Ok(None) => Ok(None),
            Ok(Some(environment)) => Ok(Some(resolved_protected_roots(self.platform, &environment))),
        }
    }

    /// Whether the protected directories that the service was installed with differ from
    /// those of an environment, if it is known what it was installed with.
    pub fn environment_divergence<E: Environment>(&self, definition: Option<&str>, environment: &E) -> (result: Result<
        Option<bool>,
        ServiceError,
    >)
        ensures
            match installed_values(self@, definition_view(definition)) {
                Ok(None) => result == Ok::<Option<bool>, ServiceError>(None),
                Ok(Some(values)) => result == Ok::<Option<bool>, ServiceError>(
                    Some(
                        !same_roots(
                            roots_of(self@.platform, values),
                            roots_of(self@.platform, captured(environment)),
                        ),
                    ),
                ),
                Err(fault) => result matches Err(error) && error@ == fault,
            },
    {
        let installed = match self.installed_protected_roots(definition) {
            Err(error) => return Err(error),
            Ok(None) => return Ok(None),
            Ok(Some(roots)) => roots,
        };
        let current = resolved_protected_roots(self.platform, &ServiceEnvironment::capture(environment));
        Ok(Some(!roots_equal(&installed, &current)))
    }
}

/// An ambiguous directory among some of the names is the one among all of them.
proof fn lemma_ambiguous_early(values: Map<Seq<char>, Seq<u8>>, names: Seq<Seq<char>>, n: int)
    requires
        0 <= n <= names.len(),
        ambiguous_root(values, names.take(n)) is Some,
    ensures
        ambiguous_root(values, names) == ambiguous_root(values, names.take(n)),
    decreases names.len(),
{
    if n < names.len() {
        assert(names.drop_last().take(n) =~= names.take(n));
        lemma_ambiguous_early(values, names.drop_last(), n);
    } else {
        assert(names.take(n) =~= names);
    }
}

// ----------------------------------------------------------------- environment

/// The contents of a definition that may be missing.
pub open spec fn definition_view(definition: Option<&str>) -> Option<Seq<char>> {
    match definition {
        Some(text) => Some(text@),
        None => None,
    }
}

/// The environment that a service was installed with.
pub open spec fn installed_values(manager: ManagerView, definition: Option<Seq<char>>) -> Result<
    Option<Map<Seq<char>, Seq<u8>>>,
    ServiceFault,
> {
    match definition {
        None => Ok(None),
        Some(text) => match manager.platform {
            ServicePlatform::MacOs => launchd_environment(text),
            ServicePlatform::Linux => systemd_environment(text),
        },
    }
}

/// The platform whose default directories a service protects.
pub open spec fn host_of(platform: ServicePlatform) -> HostPlatform {
    match platform {
        ServicePlatform::MacOs => HostPlatform::MacOs,
        ServicePlatform::Linux => HostPlatform::Linux,
    }
}

/// The protected directories of a captured environment.
pub open spec fn roots_of(platform: ServicePlatform, values: Map<Seq<char>, Seq<u8>>) -> Seq<RootView> {
    default_roots(value_or_empty(captured_value(values, "HOME"@)), host_of(platform)) + roots_named_by(
        |name: Seq<char>| captured_value(values, name),
    )
}

/// The protected directories of a captured environment.
pub fn resolved_protected_roots(platform: ServicePlatform, environment: &ServiceEnvironment) -> (roots: Vec<
    ProtectedRoot,
>)
    ensures
        views_of_roots(roots@) == roots_of(platform, environment@),
{
    let home = match environment.var_os("HOME") {
        Some(home) => home,
        None => PathBuf::from_bytes(Vec::new()),
    };
    assert(home@ == value_or_empty(captured_value(environment@, "HOME"@)));
    let host = match platform {
        ServicePlatform::MacOs => HostPlatform::MacOs,
        ServicePlatform::Linux => HostPlatform::Linux,
    };
    assert(variable_roots(environment) == roots_named_by(
        |name: Seq<char>| captured_value(environment@, name),
    ));
    policy_roots_for(host, &home, environment)
}

/// Whether two protected directories are the same.
pub open spec fn same_root(a: RootView, b: RootView) -> bool {
    same_path(a.path, b.path) && a.kind == b.kind && a.provenance == b.provenance
}

/// Whether two lists of protected directories are the same.
pub open spec fn same_roots(a: Seq<RootView>, b: Seq<RootView>) -> bool {
    a.len() == b.len() && forall|i: int| 0 <= i < a.len() ==> same_root(#[trigger] a[i], b[i])
}

fn provenances_equal(a: &RootProvenance, b: &RootProvenance) -> (equal: bool)
    ensures
        equal == (a@ == b@),
{
    match (a, b) {
        (RootProvenance::Default, RootProvenance::Default) => true,
        (RootProvenance::Environment(x), RootProvenance::Environment(y)) => text_equal(x.as_str(), y.as_str()),
        (RootProvenance::ServiceDefinition, RootProvenance::ServiceDefinition) => true,
        (RootProvenance::StructuralRoot, RootProvenance::StructuralRoot) => true,
        _ => false,
    }
}

fn roots_equal(a: &Vec<ProtectedRoot>, b: &Vec<ProtectedRoot>) -> (equal: bool)
    ensures
        equal == same_roots(views_of_roots(a@), views_of_roots(b@)),
{
    let ghost x = views_of_roots(a@);
    let ghost y = views_of_roots(b@);
    assert(x.len() == a@.len() && y.len() == b@.len());
    if a.len() != b.len() {
        return false;
    }
    let mut i: usize = 0;
    while i < a.len()
        invariant
            i <= a.len() == b.len(),
            x == views_of_roots(a@),
            y == views_of_roots(b@),
            forall|k: int| 0 <= k < i ==> same_root(#[trigger] x[k], y[k]),
        decreases a.len() - i,
    {
        assert(x[i as int] == a@[i as int]@ && y[i as int] == b@[i as int]@);
        if !paths_equal(&a[i].path, &b[i].path) || a[i].kind != b[i].kind || !provenances_equal(
            &a[i].provenance,
            &b[i].provenance,
        ) {
            assert(!same_root(x[i as int], y[i as int]));
            return false;
        }
        i += 1;
    }
    true
}

// ------------------------------------------------------------------------ laws

/// A service that is stopped, started or removed is left alone when the same is asked
/// again.
pub proof fn settled_services_are_left_alone(manager: ManagerView, status: ServiceStatus)
    ensures
        stop_plan(manager, stop_plan(manager, status).status).tasks == Seq::<TaskView>::empty(),
        uninstall_plan(manager, uninstall_plan(manager, status).status).tasks == Seq::<TaskView>::empty(),
        start_plan(manager, status) matches Ok(plan) ==> start_plan(manager, plan.status) == Ok::<
            PlanView,
            ServiceFault,
        >(PlanView { tasks: Seq::empty(), status: plan.status }),
{
    assert(stop_plan(manager, stop_plan(manager, status).status).tasks =~= Seq::empty());
    assert(uninstall_plan(manager, uninstall_plan(manager, status).status).tasks =~= Seq::empty());
    if let Ok(plan) = start_plan(manager, status) {
        assert(start_plan(manager, plan.status)->Ok_0.tasks =~= Seq::empty());
    }
}

/// Stopping keeps the service from starting by itself, and starting makes it do so; an
/// installed service stays installed by both.
pub proof fn stopping_and_starting_last(manager: ManagerView, status: ServiceStatus)
    requires
        status.installed,
    ensures
        stop_plan(manager, status).status == status_of(true, false, false),
        start_plan(manager, status) matches Ok(plan) && plan.status == status_of(true, true, true),
{
}

/// Removing a service removes its definition and touches no other file.
pub proof fn removal_touches_the_definition_alone(manager: ManagerView, status: ServiceStatus, i: int)
    requires
        0 <= i < uninstall_plan(manager, status).tasks.len(),
    ensures
        match uninstall_plan(manager, status).tasks[i] {
            TaskView::Run(_, _) => true,
            TaskView::Remove(path) => path == definition_path(manager),
            _ => false,
        },
{
}

/// Writing a definition anew runs no command but the one that reads units again, and
/// leaves the service as it was.
pub proof fn refreshing_starts_nothing(manager: ManagerView, definition: Seq<char>, i: int)
    requires
        0 <= i < refresh_tasks(manager, definition).len(),
    ensures
        match refresh_tasks(manager, definition)[i] {
            TaskView::Run(command, _) => command == systemd_reload(),
            TaskView::Write(path, text) => path == definition_path(manager) && text == definition,
            _ => false,
        },
{
}

proof fn lemma_ambiguous_name(values: Map<Seq<char>, Seq<u8>>, names: Seq<Seq<char>>, i: int)
    requires
        0 <= i < names.len(),
        captured_value(values, names[i]) matches Some(path) && path.len() > 0 && !is_plain_absolute(path),
    ensures
        ambiguous_root(values, names) is Some,
    decreases names.len(),
{
    if i < names.len() - 1 {
        assert(names.drop_last()[i] == names[i]);
        lemma_ambiguous_name(values, names.drop_last(), i);
    }
}

/// A captured variable that names a directory ambiguously, by a relative path or one with
/// `..`, makes no definition: nothing is installed and nothing is changed.
pub proof fn ambiguous_roots_install_nothing(manager: ManagerView, template: Seq<char>, i: int)
    requires
        0 <= i < service_variables().len(),
        captured_value(manager.values, service_variables()[i]) matches Some(path) && path.len() > 0
            && !is_plain_absolute(path),
    ensures
        installable(manager, template) is Err,
{
    lemma_ambiguous_name(manager.values, service_variables(), i);
}

} // verus!
