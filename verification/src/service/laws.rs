//! What managing the service does to it, and what its answers mean.

use crate::path::{is_absolute_path, path_components, path_join, path_starts_with};
use crate::policy::scope::is_plain_absolute;
use crate::service::binary::{candidates_of, first_executable, Candidate, SEARCH_PATH_SEPARATOR};
use crate::service::definition::{
    launchd_definition, launchd_environment, launchd_rendered, systemd_definition, systemd_environment, systemd_quoted,
    systemd_rendered, xml_escaped,
};
use crate::service::manager::{
    ambiguous_root, answer_fault, command_words, definition_path, definition_text, install_tasks, installable, launchd_bootout,
    launchd_bootstrap, launchd_disable, launchd_enable, launchd_kickstart, launchd_status, refresh_tasks, reinstall_tasks,
    installed_values, restart_plan, roots_of, same_root, same_roots, start_plan, stop_plan, systemd_disable, systemd_enable, systemd_reload,
    systemd_status, systemd_unit, uninstall_plan, CommandView, ManagerView, OnFailure, ProbeView, TaskView,
};
use crate::service::output::{
    enabled_by_line, error_detail, launchd_enabled, says_service_missing, says_unit_missing, systemd_active, systemd_enabled,
    OutputView,
};
use crate::service::{captured, captured_value, service_variables, ServiceFault, ServicePlatform, ServiceStatus, LABEL, UNIT};
use crate::environment::Environment;
use crate::policy::RootView;
use crate::text::laws::{absent_patterns_change_nothing, patterns_are_exchanged};
use crate::text::search::{contains_text, first_at, first_occurrence_is};
use crate::text::{split_on, trimmed};
use vstd::prelude::*;
use vstd::utf8::*;

verus! {

// -------------------------------------------------------------------- commands

/// Whether a command is one of the user's service manager with these words.
pub open spec fn asks_systemd(command: CommandView, words: Seq<Seq<char>>) -> bool {
    command.program == "systemctl"@ && command.args.len() == words.len() + 1 && command.args[0] == encode_utf8("--user"@)
        && forall|i: int| 0 <= i < words.len() ==> command.args[i + 1] == encode_utf8(#[trigger] words[i])
}

/// The commands that change a unit name it and say what is to be done with it, now.
pub proof fn unit_commands_name_the_unit(verb: Seq<char>)
    ensures
        asks_systemd(systemd_disable(), seq!["disable"@, "--now"@, UNIT@]),
        asks_systemd(systemd_enable(), seq!["enable"@, "--now"@, UNIT@]),
        asks_systemd(systemd_reload(), seq!["daemon-reload"@]),
        asks_systemd(systemd_unit(verb), seq![verb, UNIT@]),
{
}

/// The commands that change an agent name it, or its property list, in the domain of the
/// user.
pub proof fn agent_commands_name_the_agent(user: nat, home: Seq<u8>)
    ensures
        ({
            let domain = "gui/"@ + crate::text::decimal(user);
            let target = domain + "/"@ + LABEL@;
            let list = path_join(path_join(home, encode_utf8("Library/LaunchAgents"@)), encode_utf8(LABEL@ + ".plist"@));
            &&& launchd_disable(user) == (CommandView {
                program: "launchctl"@,
                args: seq![encode_utf8("disable"@), encode_utf8(target)],
            })
            &&& launchd_enable(user) == (CommandView {
                program: "launchctl"@,
                args: seq![encode_utf8("enable"@), encode_utf8(target)],
            })
            &&& launchd_bootout(user, home) == (CommandView {
                program: "launchctl"@,
                args: seq![encode_utf8("bootout"@), encode_utf8(domain), list],
            })
            &&& launchd_bootstrap(user, home) == (CommandView {
                program: "launchctl"@,
                args: seq![encode_utf8("bootstrap"@), encode_utf8(domain), list],
            })
            &&& launchd_kickstart(user) == (CommandView {
                program: "launchctl"@,
                args: seq![encode_utf8("kickstart"@), encode_utf8("-k"@), encode_utf8(target)],
            })
        }),
{
}

/// The definition of the service lies below the home directory.
pub proof fn definitions_lie_below_home(manager: ManagerView)
    ensures
        path_starts_with(definition_path(manager), manager.home),
        is_absolute_path(manager.home) ==> is_absolute_path(definition_path(manager)),
{
    reveal_strlit("Library/LaunchAgents");
    reveal_strlit(".config/systemd/user");
    reveal_strlit(".plist");
    reveal_strlit("com.dcchuck.car-go-clean");
    reveal_strlit("car-go-clean.service");
    let (directory, name) = match manager.platform {
        ServicePlatform::MacOs => ("Library/LaunchAgents"@, LABEL@ + ".plist"@),
        ServicePlatform::Linux => (".config/systemd/user"@, UNIT@),
    };
    is_ascii_chars_encode_utf8(directory);
    is_ascii_chars_encode_utf8(name);
    assert(!is_absolute_path(encode_utf8(directory)));
    assert(!is_absolute_path(encode_utf8(name)));
    let inner = path_join(manager.home, encode_utf8(directory));
    crate::path::laws::joined_paths_lie_below(manager.home, encode_utf8(directory));
    crate::path::laws::joined_paths_lie_below(inner, encode_utf8(name));
    crate::path::containment_is_transitive(path_join(inner, encode_utf8(name)), inner, manager.home);
}

// ----------------------------------------------------------------------- plans

/// Stopping a service that is installed and runs, or would run by itself, does what ends
/// both; a service that does neither, or is not installed, is left alone.
pub proof fn stopping_ends_what_runs(manager: ManagerView, status: ServiceStatus)
    ensures
        ({
            let tasks = stop_plan(manager, status).tasks;
            &&& !status.installed || (!status.enabled && !status.active) ==> tasks.len() == 0
            &&& status.installed && (status.enabled || status.active) && manager.platform == ServicePlatform::Linux
                ==> tasks == seq![TaskView::Run(systemd_disable(), OnFailure::Fail)]
            &&& status.installed && status.enabled && manager.platform == ServicePlatform::MacOs ==> tasks.contains(
                TaskView::Run(launchd_disable(manager.user), OnFailure::Fail),
            )
            &&& status.installed && status.active && manager.platform == ServicePlatform::MacOs ==> tasks.contains(
                TaskView::Run(launchd_bootout(manager.user, manager.home), OnFailure::FailUnlessServiceMissing),
            )
            &&& status.installed ==> !stop_plan(manager, status).status.active && !stop_plan(manager, status).status.enabled
        }),
{
    let tasks = stop_plan(manager, status).tasks;
    if manager.platform == ServicePlatform::MacOs && status.installed && (status.enabled || status.active) {
        if status.enabled {
            assert(tasks[0] == TaskView::Run(launchd_disable(manager.user), OnFailure::Fail));
        }
        if status.active {
            assert(tasks.last() == TaskView::Run(
                launchd_bootout(manager.user, manager.home),
                OnFailure::FailUnlessServiceMissing,
            ));
        }
    }
}

/// Starting a service that is installed makes it run and run by itself, where it did not;
/// one that is not installed cannot be started.
pub proof fn starting_begins_what_is_missing(manager: ManagerView, status: ServiceStatus)
    ensures
        !status.installed ==> start_plan(manager, status) is Err,
        status.installed ==> (start_plan(manager, status) matches Ok(plan) && plan.status.active && plan.status.enabled && {
            &&& status.enabled && status.active ==> plan.tasks.len() == 0
            &&& !(status.enabled && status.active) && manager.platform == ServicePlatform::Linux ==> plan.tasks == seq![
                TaskView::Run(systemd_reload(), OnFailure::Fail),
                TaskView::Run(systemd_enable(), OnFailure::Fail),
            ]
            &&& !status.enabled && manager.platform == ServicePlatform::MacOs ==> plan.tasks.len() > 0 && plan.tasks[0]
                == TaskView::Run(launchd_enable(manager.user), OnFailure::Fail)
            &&& !status.active && manager.platform == ServicePlatform::MacOs ==> plan.tasks.len() >= 2
                && plan.tasks[plan.tasks.len() - 2] == TaskView::Run(
                launchd_bootstrap(manager.user, manager.home),
                OnFailure::Fail,
            ) && plan.tasks.last() == TaskView::Run(launchd_kickstart(manager.user), OnFailure::Fail)
        }),
{
}

/// Restarting restarts, and does nothing else; a service that is not installed, or does
/// not run by itself, cannot be restarted.
pub proof fn restarting_restarts(manager: ManagerView, status: ServiceStatus)
    ensures
        !status.installed ==> restart_plan(manager, status) == Err::<crate::service::manager::PlanView, ServiceFault>(
            ServiceFault::NotInstalled,
        ),
        status.installed && !status.enabled ==> restart_plan(manager, status) == Err::<
            crate::service::manager::PlanView,
            ServiceFault,
        >(ServiceFault::NotEnabled),
        status.installed && status.enabled ==> (restart_plan(manager, status) matches Ok(plan) && plan.tasks == seq![
            TaskView::Run(
                if manager.platform == ServicePlatform::Linux {
                    systemd_unit("restart"@)
                } else {
                    launchd_kickstart(manager.user)
                },
                OnFailure::Fail,
            ),
        ]),
{
}

/// Removing an installed service stops it before its definition is removed.
pub proof fn removal_stops_first(manager: ManagerView, status: ServiceStatus)
    ensures
        !status.installed ==> uninstall_plan(manager, status).tasks.len() == 0,
        status.installed ==> ({
            let tasks = uninstall_plan(manager, status).tasks;
            &&& tasks.contains(TaskView::Remove(definition_path(manager)))
            &&& manager.platform == ServicePlatform::Linux ==> tasks.len() == 3 && tasks[0] == TaskView::Run(
                systemd_disable(),
                OnFailure::FailUnlessUnitMissing,
            ) && tasks[1] == TaskView::Remove(definition_path(manager)) && tasks[2] == TaskView::Run(
                systemd_reload(),
                OnFailure::Fail,
            )
            &&& manager.platform == ServicePlatform::MacOs ==> tasks.last() == TaskView::Remove(definition_path(manager))
            &&& manager.platform == ServicePlatform::MacOs && status.active ==> tasks.len() >= 2 && tasks[tasks.len() - 2]
                == TaskView::Run(launchd_bootout(manager.user, manager.home), OnFailure::FailUnlessServiceMissing)
            &&& manager.platform == ServicePlatform::MacOs && status.enabled ==> tasks[0] == TaskView::Run(
                launchd_disable(manager.user),
                OnFailure::Fail,
            )
            &&& !uninstall_plan(manager, status).status.installed
        }),
{
    if status.installed {
        let tasks = uninstall_plan(manager, status).tasks;
        match manager.platform {
            ServicePlatform::MacOs => {
                assert(tasks[tasks.len() - 1] == TaskView::Remove(definition_path(manager)));
            },
            ServicePlatform::Linux => {
                assert(tasks[1] == TaskView::Remove(definition_path(manager)));
            },
        }
    }
}

/// Installing writes the definition before it starts the service, and stops one that
/// runs beforehand.
pub proof fn installing_writes_before_it_starts(manager: ManagerView, definition: Seq<char>, current: Option<ServiceStatus>)
    ensures
        ({
            let tasks = install_tasks(manager, definition);
            &&& tasks.len() >= 4
            &&& tasks[1] == TaskView::Write(definition_path(manager), definition)
            &&& manager.platform == ServicePlatform::Linux ==> tasks[2] == TaskView::Run(systemd_reload(), OnFailure::Fail)
                && tasks[3] == TaskView::Run(systemd_enable(), OnFailure::Fail) && tasks.len() == 4
            &&& manager.platform == ServicePlatform::MacOs ==> tasks[2] == TaskView::Run(
                launchd_enable(manager.user),
                OnFailure::Fail,
            ) && tasks[3] == TaskView::Run(launchd_bootstrap(manager.user, manager.home), OnFailure::Fail) && tasks[4]
                == TaskView::Run(launchd_kickstart(manager.user), OnFailure::Fail) && tasks.len() == 5
        }),
        current matches Some(status) && status.active ==> reinstall_tasks(manager, current) == seq![
            if manager.platform == ServicePlatform::Linux {
                TaskView::Run(systemd_unit("stop"@), OnFailure::Fail)
            } else {
                TaskView::Run(launchd_bootout(manager.user, manager.home), OnFailure::FailUnlessServiceMissing)
            },
        ],
        !(current matches Some(status) && status.active) ==> reinstall_tasks(manager, current).len() == 0,
        refresh_tasks(manager, definition).len() > 0 && refresh_tasks(manager, definition)[0] == TaskView::Write(
            definition_path(manager),
            definition,
        ),
        manager.platform == ServicePlatform::Linux ==> refresh_tasks(manager, definition).last() == TaskView::Run(
            systemd_reload(),
            OnFailure::Fail,
        ),
{
}

/// A service can be installed exactly if its binary is an absolute path, no variable
/// names a directory ambiguously, and its definition can be written.
pub proof fn installable_services(manager: ManagerView, template: Seq<char>)
    ensures
        installable(manager, template) is Ok <==> is_absolute_path(manager.binary) && definition_text(
            manager,
            template,
        ) is Ok && forall|i: int|
            0 <= i < service_variables().len() ==> (captured_value(
                manager.values,
                #[trigger] service_variables()[i],
            ) matches Some(path) ==> path.len() == 0 || is_plain_absolute(path)),
        installable(manager, template) is Ok ==> installable(manager, template) == definition_text(manager, template),
{
    lemma_ambiguous(manager.values, service_variables());
}

proof fn lemma_ambiguous(values: Map<Seq<char>, Seq<u8>>, names: Seq<Seq<char>>)
    ensures
        ambiguous_root(values, names) is None <==> forall|i: int|
            0 <= i < names.len() ==> (captured_value(values, #[trigger] names[i]) matches Some(path) ==> path.len() == 0
                || is_plain_absolute(path)),
    decreases names.len(),
{
    if names.len() > 0 {
        let front = names.drop_last();
        lemma_ambiguous(values, front);
        assert forall|i: int| 0 <= i < front.len() implies front[i] == #[trigger] names[i] by {}
        assert(names[names.len() - 1] == names.last());
        if ambiguous_root(values, front) is Some {
            let i = choose|i: int|
                0 <= i < front.len() && !(captured_value(values, #[trigger] front[i]) matches Some(path) ==> path.len() == 0
                    || is_plain_absolute(path));
            assert(names[i] == front[i]);
        }
    }
}

/// Of the environment exactly the variables of the service that are set are captured,
/// with their values.
pub proof fn service_variables_are_captured<E: Environment>(environment: &E, name: Seq<char>)
    ensures
        captured(environment).contains_key(name) <==> service_variables().contains(name) && environment.value(name) is Some,
        captured(environment).contains_key(name) ==> Some(captured(environment)[name]) == environment.value(name),
        service_variables().contains(name) ==> captured_value(captured(environment), name) == environment.value(name),
{
}

// --------------------------------------------------------------------- answers

/// A command that succeeds is no fault; one that fails is, unless it was to stop what
/// turns out to be missing.
pub proof fn failed_commands_are_faults(command: CommandView, rule: OnFailure, output: OutputView)
    ensures
        answer_fault(command, rule, output) is None <==> output.success || (rule == OnFailure::FailUnlessServiceMissing
            && says_service_missing(output)) || (rule == OnFailure::FailUnlessUnitMissing && says_unit_missing(output)),
{
}

/// A unit is enabled exactly if the answer is `enabled` from a command that succeeds, and
/// not enabled only if the answer is another known word from one that does not.
pub proof fn units_are_enabled_by_their_answer(output: OutputView)
    ensures
        systemd_enabled(output) == Ok::<bool, ServiceFault>(true) <==> output.success && trimmed(output.stdout) == "enabled"@,
        systemd_enabled(output) == Ok::<bool, ServiceFault>(false) ==> !output.success && trimmed(output.stdout)
            != "enabled"@,
        !output.success && (trimmed(output.stdout) == "disabled"@ || trimmed(output.stdout) == "static"@ || trimmed(
            output.stdout,
        ) == "masked"@ || trimmed(output.stdout) == "not-found"@ || trimmed(output.stdout) == "indirect"@ || trimmed(
            output.stdout,
        ) == "generated"@ || trimmed(output.stdout) == "transient"@ || trimmed(output.stdout) == "enabled-runtime"@
            || trimmed(output.stdout) == "linked"@ || trimmed(output.stdout) == "linked-runtime"@ || trimmed(output.stdout)
            == "alias"@) ==> systemd_enabled(output) == Ok::<bool, ServiceFault>(false),
        trimmed(output.stdout).len() == 0 ==> systemd_enabled(output) is Err,
{
    lemma_words();
}

/// A unit is active exactly if the answer is `active` from a command that succeeds, and
/// inactive only if the answer is another known word from one that does not.
pub proof fn units_are_active_by_their_answer(output: OutputView)
    ensures
        systemd_active(output) == Ok::<bool, ServiceFault>(true) <==> output.success && trimmed(output.stdout) == "active"@,
        systemd_active(output) == Ok::<bool, ServiceFault>(false) ==> !output.success && trimmed(output.stdout) != "active"@,
        !output.success && (trimmed(output.stdout) == "inactive"@ || trimmed(output.stdout) == "failed"@ || trimmed(
            output.stdout,
        ) == "activating"@ || trimmed(output.stdout) == "deactivating"@ || trimmed(output.stdout) == "reloading"@ || trimmed(
            output.stdout,
        ) == "unknown"@) ==> systemd_active(output) == Ok::<bool, ServiceFault>(false),
        trimmed(output.stdout).len() == 0 ==> systemd_active(output) is Err,
{
    lemma_words();
}

proof fn lemma_words()
    ensures
        "enabled"@.len() == 7,
        "active"@.len() == 6,
        "disabled"@.len() == 8,
        "static"@.len() == 6,
        "indirect"@.len() == 8,
        "masked"@.len() == 6,
        "generated"@.len() == 9,
        "transient"@.len() == 9,
        "enabled-runtime"@.len() == 15,
        "linked"@.len() == 6,
        "linked-runtime"@.len() == 14,
        "alias"@.len() == 5,
        "not-found"@.len() == 9,
        "inactive"@.len() == 8,
        "failed"@.len() == 6,
        "failed"@[0] == 'f',
        "active"@[0] == 'a',
        "activating"@.len() == 10,
        "deactivating"@.len() == 12,
        "reloading"@.len() == 9,
        "unknown"@.len() == 7,
{
    reveal_strlit("enabled");
    reveal_strlit("active");
    reveal_strlit("disabled");
    reveal_strlit("static");
    reveal_strlit("indirect");
    reveal_strlit("masked");
    reveal_strlit("generated");
    reveal_strlit("transient");
    reveal_strlit("enabled-runtime");
    reveal_strlit("linked");
    reveal_strlit("linked-runtime");
    reveal_strlit("alias");
    reveal_strlit("not-found");
    reveal_strlit("inactive");
    reveal_strlit("failed");
    reveal_strlit("activating");
    reveal_strlit("deactivating");
    reveal_strlit("reloading");
    reveal_strlit("unknown");
}

/// A line of the list of disabled agents disables the agent if it ends in `true`, and not
/// if it ends in `false`.
pub proof fn lists_disable_by_true(line: Seq<char>, before: Seq<char>, value: Seq<char>)
    requires
        line == before + "=>"@ + value,
        first_at(line, "=>"@, before.len() as int),
    ensures
        trimmed(value) == "true"@ ==> enabled_by_line(line) == Ok::<bool, ServiceFault>(false),
        trimmed(value) == "false"@ ==> enabled_by_line(line) == Ok::<bool, ServiceFault>(true),
{
    first_occurrence_is(line, "=>"@, before.len() as int);
    reveal_strlit("true");
    reveal_strlit("false");
    reveal_strlit("=>");
    assert(line.skip(before.len() as int + "=>"@.len()) =~= value);
    reveal_with_fuel(crate::service::output::without_semicolons, 2);
    assert("true"@.last() == 'e');
    assert("false"@.last() == 'e');
    assert("true"@.len() != "false"@.len());
}

/// An agent that no line of the list names is enabled, and what is no list says nothing.
pub proof fn unnamed_agents_are_enabled(output: Seq<char>)
    ensures
        trimmed(output).contains('{') && trimmed(output).last() == '}' && (forall|i: int|
            0 <= i < split_on(trimmed(output), '\n').len() ==> !contains_text(
                #[trigger] split_on(trimmed(output), '\n')[i],
                LABEL@,
            )) ==> launchd_enabled(output) == Ok::<bool, ServiceFault>(true),
        !trimmed(output).contains('{') ==> launchd_enabled(output) is Err,
{
    let p = |line: Seq<char>| contains_text(line, LABEL@);
    let lines = split_on(trimmed(output), '\n');
    if forall|i: int| 0 <= i < lines.len() ==> !contains_text(#[trigger] lines[i], LABEL@) {
        crate::store::sorting::chosen_rows_have_the_property(lines, p);
        let named = lines.filter(p);
        if named.len() > 0 {
            assert(named.contains(named[0]));
            let i = choose|i: int| 0 <= i < lines.len() && lines[i] == named[0];
            assert(contains_text(lines[i], LABEL@));
        }
    }
}

/// A service without a definition is not installed, and nothing is asked of it; one with
/// a definition is installed, and enabled and active as the answers say.
pub proof fn services_are_as_their_answers_say(user: nat, answers: Seq<OutputView>)
    ensures
        launchd_status(user, false, answers) == ProbeView::Known(
            ServiceStatus { installed: false, enabled: false, active: false },
        ),
        systemd_status(false, answers) == ProbeView::Known(
            ServiceStatus { installed: false, enabled: false, active: false },
        ),
        launchd_status(user, true, answers) matches ProbeView::Known(status) ==> status.installed && answers.len() >= 2
            && launchd_enabled(answers[0].stdout) == Ok::<bool, ServiceFault>(status.enabled) && status.active
            == answers[1].success,
        systemd_status(true, answers) matches ProbeView::Known(status) ==> status.installed && answers.len() >= 3 && (
        status.enabled <==> answers[1].success && trimmed(answers[1].stdout) == "enabled"@) && (status.active
            <==> answers[2].success && trimmed(answers[2].stdout) == "active"@),
        answers.len() >= 3 && answers[0].success && answers[1].success && trimmed(answers[1].stdout) == "enabled"@
            && answers[2].success && trimmed(answers[2].stdout) == "active"@ ==> systemd_status(true, answers)
            == ProbeView::Known(ServiceStatus { installed: true, enabled: true, active: true }),
        answers.len() >= 2 && answers[0].success && answers[1].success ==> (launchd_enabled(answers[0].stdout) matches Ok(
            enabled,
        ) ==> launchd_status(user, true, answers) == ProbeView::Known(
            ServiceStatus { installed: true, enabled, active: true },
        )),
{
    if answers.len() >= 2 {
        units_are_enabled_by_their_answer(answers[1]);
    }
    if answers.len() >= 3 {
        units_are_active_by_their_answer(answers[2]);
    }
}

// ---------------------------------------------------------------------- binary

/// The binary is looked for where it was called: at its own path if that is absolute,
/// below the current directory if it has several components, and otherwise in each entry
/// of the search path in order; the running program comes last.
pub proof fn binaries_are_looked_for(argv0: Seq<u8>, path: Option<Seq<u8>>, current: Seq<u8>, exe: Seq<u8>)
    ensures
        ({
            let list = candidates_of(argv0, path, Some(current), exe);
            &&& is_absolute_path(argv0) ==> list.len() > 0 && list[0] == Candidate::File(argv0)
            &&& !is_absolute_path(argv0) && path_components(argv0).len() > 1 ==> list.len() > 0 && list[0] == Candidate::File(
                path_join(current, argv0),
            )
            &&& is_absolute_path(exe) ==> list.len() > 0 && list.last() == Candidate::File(exe)
            &&& !is_absolute_path(argv0) && path_components(argv0).len() == 1 ==> (path matches Some(search) ==> forall|i: int|
                0 <= i < split_on(search, SEARCH_PATH_SEPARATOR).len() ==> i < list.len() && list[i] == Candidate::File(
                    path_join(
                        if is_absolute_path(#[trigger] split_on(search, SEARCH_PATH_SEPARATOR)[i]) {
                            split_on(search, SEARCH_PATH_SEPARATOR)[i]
                        } else {
                            path_join(current, split_on(search, SEARCH_PATH_SEPARATOR)[i])
                        },
                        argv0,
                    ),
                ))
        }),
{
}

/// The first candidate that can be executed is the binary, unless one before it cannot be
/// named; there is none exactly if none can be executed.
pub proof fn first_candidates_are_chosen(candidates: Seq<Candidate>, executable: Seq<bool>, i: int)
    requires
        executable.len() == candidates.len(),
        forall|k: int| 0 <= k < candidates.len() ==> (#[trigger] candidates[k]) is File,
    ensures
        0 <= i < candidates.len() && executable[i] && (forall|k: int| 0 <= k < i ==> !#[trigger] executable[k])
            ==> first_executable(candidates, executable) == Some(Ok::<Seq<u8>, ServiceFault>(candidates[i]->File_0)),
        (forall|k: int| 0 <= k < candidates.len() ==> !#[trigger] executable[k]) ==> first_executable(
            candidates,
            executable,
        ) is None,
    decreases candidates.len(),
{
    if candidates.len() > 0 {
        let rest = candidates.skip(1);
        let flags = executable.skip(1);
        assert(candidates[0] is File);
        assert forall|k: int| 0 <= k < rest.len() implies (#[trigger] rest[k]) is File by {
            assert(rest[k] == candidates[k + 1]);
        }
        first_candidates_are_chosen(rest, flags, i - 1);
        if 0 < i < candidates.len() && executable[i] && (forall|k: int| 0 <= k < i ==> !#[trigger] executable[k]) {
            assert(!executable[0]);
            assert(flags[i - 1] == executable[i]);
            assert forall|k: int| 0 <= k < i - 1 implies !#[trigger] flags[k] by {
                assert(flags[k] == executable[k + 1]);
            }
            assert(rest[i - 1] == candidates[i]);
        }
        if forall|k: int| 0 <= k < candidates.len() ==> !#[trigger] executable[k] {
            assert(!executable[0]);
            assert forall|k: int| 0 <= k < rest.len() implies !#[trigger] flags[k] by {
                assert(flags[k] == executable[k + 1]);
            }
        }
    }
}

// ----------------------------------------------------------------------- roots

/// Two lists of protected roots are the same exactly if each root has the same path, kind
/// and origin as its counterpart.
pub proof fn roots_are_compared_one_by_one(a: Seq<RootView>, b: Seq<RootView>)
    ensures
        same_roots(a, a),
        same_roots(a, b) ==> a.len() == b.len(),
        forall|i: int|
            0 <= i < a.len() && 0 <= i < b.len() && same_roots(a, b) ==> path_components((#[trigger] a[i]).path)
                == path_components(b[i].path) && a[i].kind == b[i].kind && a[i].provenance == b[i].provenance,
        a.len() == b.len() && (forall|i: int|
            0 <= i < a.len() ==> path_components((#[trigger] a[i]).path) == path_components(b[i].path) && a[i].kind
                == b[i].kind && a[i].provenance == b[i].provenance) ==> same_roots(a, b),
{
    if same_roots(a, b) {
        assert forall|i: int| 0 <= i < a.len() implies same_root(#[trigger] a[i], b[i]) by {}
    }
}

// ------------------------------------------------------------------ definitions

/// The definition of a unit is its template with the quoted path of the binary and the
/// captured environment where it asks for them, and the rest as it stands.
pub proof fn units_fill_their_template(
    before: Seq<char>,
    between: Seq<char>,
    behind: Seq<char>,
    binary: Seq<u8>,
    values: Map<Seq<char>, Seq<u8>>,
    environment: Seq<char>,
)
    requires
        is_absolute_path(binary),
        valid_utf8(binary),
        systemd_rendered(values) == Ok::<Seq<char>, ServiceFault>(environment),
        first_at(
            before + "__CAR_GO_CLEAN_BIN__"@ + (between + "__CAR_GO_CLEAN_ENVIRONMENT__"@ + behind),
            "__CAR_GO_CLEAN_BIN__"@,
            before.len() as int,
        ),
        !contains_text(between + "__CAR_GO_CLEAN_ENVIRONMENT__"@ + behind, "__CAR_GO_CLEAN_BIN__"@),
        first_at(
            before + systemd_quoted(decode_utf8(binary)) + between + "__CAR_GO_CLEAN_ENVIRONMENT__"@ + behind,
            "__CAR_GO_CLEAN_ENVIRONMENT__"@,
            (before + systemd_quoted(decode_utf8(binary)) + between).len() as int,
        ),
        !contains_text(behind, "__CAR_GO_CLEAN_ENVIRONMENT__"@),
    ensures
        systemd_definition(
            before + "__CAR_GO_CLEAN_BIN__"@ + (between + "__CAR_GO_CLEAN_ENVIRONMENT__"@ + behind),
            binary,
            values,
        ) == Ok::<Seq<char>, ServiceFault>(before + systemd_quoted(decode_utf8(binary)) + between + environment + behind),
{
    reveal_strlit("__CAR_GO_CLEAN_BIN__");
    reveal_strlit("__CAR_GO_CLEAN_ENVIRONMENT__");
    let program = systemd_quoted(decode_utf8(binary));
    let rest = between + "__CAR_GO_CLEAN_ENVIRONMENT__"@ + behind;
    patterns_are_exchanged(before, "__CAR_GO_CLEAN_BIN__"@, rest, program);
    absent_patterns_change_nothing(rest, "__CAR_GO_CLEAN_BIN__"@, program);
    let head = before + program + between;
    assert(before + program + rest =~= head + "__CAR_GO_CLEAN_ENVIRONMENT__"@ + behind);
    assert(before + program + between + "__CAR_GO_CLEAN_ENVIRONMENT__"@ + behind =~= head + "__CAR_GO_CLEAN_ENVIRONMENT__"@
        + behind);
    patterns_are_exchanged(head, "__CAR_GO_CLEAN_ENVIRONMENT__"@, behind, environment);
    absent_patterns_change_nothing(behind, "__CAR_GO_CLEAN_ENVIRONMENT__"@, environment);
}

/// A definition can be written only if the paths in it are absolute and text, and the
/// environment can be rendered.
pub proof fn definitions_need_plain_paths(
    template: Seq<char>,
    binary: Seq<u8>,
    logs: Seq<u8>,
    values: Map<Seq<char>, Seq<u8>>,
)
    ensures
        systemd_definition(template, binary, values) is Ok <==> is_absolute_path(binary) && valid_utf8(binary)
            && systemd_rendered(values) is Ok,
        launchd_definition(template, binary, logs, values) is Ok <==> is_absolute_path(binary) && valid_utf8(binary)
            && is_absolute_path(logs) && valid_utf8(logs) && launchd_rendered(values) is Ok,
        !is_absolute_path(binary) ==> systemd_definition(template, binary, values) == Err::<Seq<char>, ServiceFault>(
            ServiceFault::RelativePath(binary),
        ),
{
}

/// The definition of an agent is its template with the escaped paths of the binary and of
/// the logs and the captured environment where it asks for them; a template that asks for
/// none of them stays as it is.
pub proof fn agents_fill_their_template(
    template: Seq<char>,
    binary: Seq<u8>,
    logs: Seq<u8>,
    values: Map<Seq<char>, Seq<u8>>,
)
    requires
        launchd_definition(template, binary, logs, values) is Ok,
    ensures
        !contains_text(template, "__CAR_GO_CLEAN_BIN__"@) && !contains_text(template, "__CAR_GO_CLEAN_LOG_DIR__"@)
            && !contains_text(template, "__CAR_GO_CLEAN_ENVIRONMENT__"@) ==> launchd_definition(
            template,
            binary,
            logs,
            values,
        )->Ok_0 == template,
        template == "__CAR_GO_CLEAN_BIN__"@ && !contains_text(xml_escaped(decode_utf8(binary)), "__CAR_GO_CLEAN_LOG_DIR__"@)
            && !contains_text(xml_escaped(decode_utf8(binary)), "__CAR_GO_CLEAN_ENVIRONMENT__"@) ==> launchd_definition(
            template,
            binary,
            logs,
            values,
        )->Ok_0 == xml_escaped(decode_utf8(binary)),
{
    reveal_strlit("__CAR_GO_CLEAN_BIN__");
    let program = xml_escaped(decode_utf8(binary));
    let place = xml_escaped(decode_utf8(logs));
    let environment = launchd_rendered(values)->Ok_0;
    if !contains_text(template, "__CAR_GO_CLEAN_BIN__"@) && !contains_text(template, "__CAR_GO_CLEAN_LOG_DIR__"@)
        && !contains_text(template, "__CAR_GO_CLEAN_ENVIRONMENT__"@) {
        absent_patterns_change_nothing(template, "__CAR_GO_CLEAN_BIN__"@, program);
        absent_patterns_change_nothing(template, "__CAR_GO_CLEAN_LOG_DIR__"@, place);
        absent_patterns_change_nothing(template, "__CAR_GO_CLEAN_ENVIRONMENT__"@, environment);
    }
    if template == "__CAR_GO_CLEAN_BIN__"@ && !contains_text(program, "__CAR_GO_CLEAN_LOG_DIR__"@) && !contains_text(
        program,
        "__CAR_GO_CLEAN_ENVIRONMENT__"@,
    ) {
        let none = Seq::<char>::empty();
        assert(none + template + none =~= template);
        assert(template.subrange(0, template.len() as int) =~= template);
        patterns_are_exchanged(none, template, none, program);
        assert(crate::text::search::replaced(none, template, program) =~= none);
        assert(none + program + none =~= program);
        absent_patterns_change_nothing(program, "__CAR_GO_CLEAN_LOG_DIR__"@, place);
        absent_patterns_change_nothing(program, "__CAR_GO_CLEAN_ENVIRONMENT__"@, environment);
    }
}

/// What a failed command said is told trimmed behind a colon, and nothing if it said
/// nothing; the command is told with its arguments in their order.
pub proof fn failed_commands_are_told(command: CommandView, output: OutputView, more: Seq<u8>)
    ensures
        trimmed(output.stderr).len() == 0 ==> error_detail(output).len() == 0,
        trimmed(output.stderr).len() > 0 ==> error_detail(output) == ": "@ + trimmed(output.stderr),
        command_words(command.program, Seq::empty()) == command.program,
        command_words(command.program, command.args.push(more)) == command_words(command.program, command.args) + " "@
            + crate::text::lossy_chars(more),
        answer_fault(command, OnFailure::Fail, output) matches Some(fault) ==> fault == ServiceFault::CommandFailed(
            command_words(command.program, command.args),
            error_detail(output),
        ),
{
    assert(command.args.push(more).drop_last() =~= command.args);
}

/// The roots that a service protects are the default ones below its home directory and
/// those that its captured variables name.
pub proof fn services_protect_their_roots(platform: ServicePlatform, values: Map<Seq<char>, Seq<u8>>)
    ensures
        ({
            let home = match captured_value(values, "HOME"@) {
                Some(path) => path,
                None => Seq::empty(),
            };
            let host = match platform {
                ServicePlatform::MacOs => crate::storage::HostPlatform::MacOs,
                ServicePlatform::Linux => crate::storage::HostPlatform::Linux,
            };
            let defaults = crate::policy::scope::default_roots(home, host);
            let named = crate::policy::scope::roots_named_by(|name: Seq<char>| captured_value(values, name));
            &&& roots_of(platform, values).len() == defaults.len() + named.len()
            &&& forall|i: int| 0 <= i < defaults.len() ==> roots_of(platform, values)[i] == #[trigger] defaults[i]
            &&& forall|i: int| 0 <= i < named.len() ==> roots_of(platform, values)[defaults.len() + i] == #[trigger] named[i]
        }),
{
}

/// What an installed definition captured is read by the rules of its platform; without a
/// definition nothing was captured.
pub proof fn definitions_are_read_by_their_platform(manager: ManagerView, text: Seq<char>)
    ensures
        installed_values(manager, None) == Ok::<Option<Map<Seq<char>, Seq<u8>>>, ServiceFault>(None),
        manager.platform == ServicePlatform::MacOs ==> installed_values(manager, Some(text)) == launchd_environment(text),
        manager.platform == ServicePlatform::Linux ==> installed_values(manager, Some(text)) == systemd_environment(text),
{
}

} // verus!
