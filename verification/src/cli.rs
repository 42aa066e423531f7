//! What the commands decide and show.

use crate::cli::authority::{push_line, push_row, row};
use crate::cli::format::{age, age_words, format_count_i64, format_duration_display, schedule_time_label};
use crate::cli::format::{join_texts, joined_by, schedule_words, signed_grouped, span_words};
use crate::config::PathSet;
use crate::outcome::{reason, OutcomeReport};
use crate::path::{path_join, path_views, PathBuf};
use crate::resolve::optional_path;
use crate::store::plans::PlanLoadError;
use crate::store::rows::{ProjectBytes, Run, SchedulerStatus};
use crate::text::{chars_of, decimal, decimal_text, has_prefix, lossy_chars, signed_decimal, signed_decimal_text, texts};
use crate::time::{Duration, SystemTime};
use vstd::prelude::*;
use vstd::utf8::*;

pub mod authority;
pub mod format;
pub mod laws;
pub mod reports;
pub mod reviews;
pub mod runs;
pub mod showing;
pub mod since;

verus! {

// -------------------------------------------------------------------- failures

/// The commands.
#[derive(Debug, Clone, Copy, PartialEq, Eq, Structural)]
pub enum CommandKind {
    Version,
    Service,
    Health,
    Config,
    Status,
    Projects,
    Scan,
    Run,
    Daemon,
    Stats,
    Logs,
}

/// The name under which a command reports its failure, if it reports in a format for
/// machines.
pub open spec fn reported_name(kind: CommandKind) -> Option<Seq<char>> {
    match kind {
        CommandKind::Health => Some("health"@),
        CommandKind::Status => Some("status"@),
        CommandKind::Projects => Some("projects"@),
        CommandKind::Scan => Some("scan"@),
        CommandKind::Run => Some("run"@),
        CommandKind::Stats => Some("stats"@),
        CommandKind::Logs => Some("logs"@),
        _ => None,
    }
}

/// What the report of a failure names.
#[derive(Debug, Clone, Copy, PartialEq, Eq)]
pub struct JsonFailureContext {
    pub command: &'static str,
    pub review_id: Option<i64>,
}

/// What the report of a command's failure names, if a report is owed.
pub fn json_failure_context(kind: CommandKind, json: bool, review: Option<i64>) -> (context: Option<
    JsonFailureContext,
>)
    ensures
        match reported_name(kind) {
            Some(name) => if json {
                context matches Some(c) && c.command@ == name && c.review_id == (if kind == CommandKind::Run {
                    review
                } else {
                    None
                })
            } else {
                context is None
            },
            None => context is None,
        },
{
    if !json {
        return None;
    }
    let command = match kind {
        CommandKind::Health => "health",
        CommandKind::Status => "status",
        CommandKind::Projects => "projects",
        CommandKind::Scan => "scan",
        CommandKind::Run => "run",
        CommandKind::Stats => "stats",
        CommandKind::Logs => "logs",
        _ => return None,
    };
    let review_id: Option<i64> = match kind {
        CommandKind::Run => review,
        _ => None,
    };
    Some(JsonFailureContext { command, review_id })
}

/// A cause of a failure.
#[derive(Debug, PartialEq, Eq)]
pub enum FailureCause {
    /// A plan could not be loaded.
    Plan(PlanLoadError),
    /// Anything else, in words.
    Message(String),
}

/// The contents of an error of a plan.
pub enum PlanFault {
    Missing,
    Expired,
    PolicyMismatch,
    GenerationMismatch,
    Storage(Seq<char>),
}

/// The contents of an error of a plan.
pub open spec fn plan_fault(error: PlanLoadError) -> PlanFault {
    match error {
        PlanLoadError::Missing => PlanFault::Missing,
        PlanLoadError::Expired => PlanFault::Expired,
        PlanLoadError::PolicyMismatch => PlanFault::PolicyMismatch,
        PlanLoadError::GenerationMismatch => PlanFault::GenerationMismatch,
        PlanLoadError::Storage(message) => PlanFault::Storage(message@),
    }
}

/// The contents of a cause.
pub enum CauseView {
    Plan(PlanFault),
    Message(Seq<char>),
}

/// The reason of a plan that could not be loaded.
pub open spec fn plan_reason(fault: PlanFault) -> Seq<char> {
    match fault {
        PlanFault::Missing => reason::REVIEW_PLAN_MISSING@,
        PlanFault::Expired => reason::REVIEW_PLAN_EXPIRED@,
        PlanFault::PolicyMismatch => reason::REVIEW_POLICY_MISMATCH@,
        PlanFault::GenerationMismatch => reason::REVIEW_GENERATION_MISMATCH@,
        PlanFault::Storage(_) => reason::COMMAND_FAILED@,
    }
}

impl View for FailureCause {
    type V = CauseView;

    open spec fn view(&self) -> CauseView {
        match self {
            FailureCause::Plan(error) => CauseView::Plan(plan_fault(*error)),
            FailureCause::Message(text) => CauseView::Message(text@),
        }
    }
}

/// The contents of a list of causes.
pub open spec fn cause_views(causes: Seq<FailureCause>) -> Seq<CauseView> {
    causes.map_values(|cause: FailureCause| cause@)
}

/// Whether a message says that another process holds the lock.
pub open spec fn says_locked(message: Seq<char>) -> bool {
    "another car-go-clean process is running"@.is_prefix_of(message) || "acquire lock "@.is_prefix_of(message)
}

/// The reason of a failure: that of the first cause that has one.
pub open spec fn failure_of(causes: Seq<CauseView>) -> Seq<char>
    decreases causes.len(),
{
    if causes.len() == 0 {
        reason::COMMAND_FAILED@
    } else {
        match causes[0] {
            CauseView::Plan(fault) => plan_reason(fault),
            CauseView::Message(text) => if says_locked(text) {
                reason::LOCK_UNAVAILABLE@
            } else {
                failure_of(causes.skip(1))
            },
        }
    }
}

/// The reason of a failure, from its causes.
pub fn failure_reason(causes: &Vec<FailureCause>) -> (why: &'static str)
    ensures
        why@ == failure_of(cause_views(causes@)),
{
    let ghost all = cause_views(causes@);
    let mut i: usize = 0;
    assert(all.skip(0) =~= all);
    while i < causes.len()
        invariant
            i <= causes.len(),
            all == cause_views(causes@),
            failure_of(all) == failure_of(all.skip(i as int)),
        decreases causes.len() - i,
    {
        assert(all.skip(i as int)[0] == causes@[i as int]@);
        assert(all.skip(i as int).skip(1) =~= all.skip(i + 1));
        match &causes[i] {
            FailureCause::Plan(error) => return match error {
                PlanLoadError::Missing => reason::REVIEW_PLAN_MISSING,
                PlanLoadError::Expired => reason::REVIEW_PLAN_EXPIRED,
                PlanLoadError::PolicyMismatch => reason::REVIEW_POLICY_MISMATCH,
                PlanLoadError::GenerationMismatch => reason::REVIEW_GENERATION_MISMATCH,
                PlanLoadError::Storage(_) => reason::COMMAND_FAILED,
            },
            FailureCause::Message(text) => {
                let chars = chars_of(text.as_str());
                if has_prefix(chars.as_slice(), "another car-go-clean process is running") || has_prefix(
                    chars.as_slice(),
                    "acquire lock ",
                ) {
                    return reason::LOCK_UNAVAILABLE;
                }
            },
        }
        i += 1;
    }
    assert(all.len() == causes@.len());
    assert(all.skip(i as int) =~= Seq::empty());
    reason::COMMAND_FAILED
}

// ----------------------------------------------------------------------- paths

/// Whether a set of paths lies below a state directory.
pub open spec fn lies_below(set: PathSet, state_dir: Seq<u8>) -> bool {
    &&& set.state_dir@ == state_dir
    &&& set.db_path@ == path_join(state_dir, encode_utf8("state.db"@))
    &&& set.log_path@ == path_join(state_dir, encode_utf8("car-go-clean.log"@))
    &&& set.lock_path@ == path_join(state_dir, encode_utf8("daemon.lock"@))
}

/// The paths of the state: those given, or those below a directory of the user's choice.
pub fn paths_for(set: PathSet, state_dir: Option<PathBuf>) -> (chosen: PathSet)
    ensures
        match state_dir {
            None => chosen == set,
            Some(directory) => lies_below(chosen, directory@),
        },
{
    match state_dir {
        None => set,
        Some(directory) => {
            let db_path = directory.join(&PathBuf::new("state.db"));
            let log_path = directory.join(&PathBuf::new("car-go-clean.log"));
            let lock_path = directory.join(&PathBuf::new("daemon.lock"));
            PathSet { state_dir: directory, db_path, log_path, lock_path }
        },
    }
}

// ---------------------------------------------------------------------- health

/// What is wrong with the configured directories.
#[derive(Debug, PartialEq, Eq)]
pub enum HealthFault {
    /// A directory to scan is not there.
    ScanDir(PathBuf),
    /// A project has no manifest.
    ProjectDir(PathBuf),
}

/// The first path of which something does not hold.
pub open spec fn first_without(paths: Seq<Seq<u8>>, holds: Seq<bool>) -> Option<Seq<u8>>
    decreases paths.len(),
{
    if paths.len() == 0 {
        None
    } else if !holds[0] {
        Some(paths[0])
    } else {
        first_without(paths.skip(1), holds.skip(1))
    }
}

fn find_without(paths: &Vec<PathBuf>, holds: &Vec<bool>) -> (found: Option<PathBuf>)
    requires
        holds@.len() == paths@.len(),
    ensures
        optional_path(found) == first_without(path_views(paths@), holds@),
{
    let ghost all = path_views(paths@);
    let mut i: usize = 0;
    assert(all.skip(0) =~= all);
    assert(holds@.skip(0) =~= holds@);
    while i < paths.len()
        invariant
            i <= paths.len() == holds.len(),
            all == path_views(paths@),
            first_without(all, holds@) == first_without(all.skip(i as int), holds@.skip(i as int)),
        decreases paths.len() - i,
    {
        assert(all.skip(i as int)[0] == paths@[i as int]@);
        assert(all.skip(i as int).skip(1) =~= all.skip(i + 1));
        assert(holds@.skip(i as int).skip(1) =~= holds@.skip(i + 1));
        if !holds[i] {
            return Some(paths[i].clone());
        }
        i += 1;
    }
    assert(all.len() == paths@.len());
    assert(all.skip(i as int) =~= Seq::empty());
    None
}

/// What is wrong with the configured directories, if anything: `present` says of each
/// directory to scan whether it is there, `manifests` of each project whether it has a
/// manifest.
pub fn health_fault(
    scan_dirs: &Vec<PathBuf>,
    present: &Vec<bool>,
    project_dirs: &Vec<PathBuf>,
    manifests: &Vec<bool>,
) -> (fault: Option<HealthFault>)
    requires
        present@.len() == scan_dirs@.len(),
        manifests@.len() == project_dirs@.len(),
    ensures
        match first_without(path_views(scan_dirs@), present@) {
            Some(path) => fault matches Some(HealthFault::ScanDir(p)) && p@ == path,
            None => match first_without(path_views(project_dirs@), manifests@) {
                Some(path) => fault matches Some(HealthFault::ProjectDir(p)) && p@ == path,
                None => fault is None,
            },
        },
{
    match find_without(scan_dirs, present) {
        Some(path) => return Some(HealthFault::ScanDir(path)),
        None => {},
    }
    match find_without(project_dirs, manifests) {
        Some(path) => Some(HealthFault::ProjectDir(path)),
        None => None,
    }
}

impl HealthFault {
    /// The fault in words.
    pub fn message(&self) -> (text: String)
        ensures
            text@ == match self {
                HealthFault::ScanDir(path) => "scan_dir "@ + lossy_chars(path@) + " does not exist"@,
                HealthFault::ProjectDir(path) => "project_dir "@ + lossy_chars(path@) + " missing Cargo.toml"@,
            },
    {
        match self {
            HealthFault::ScanDir(path) => {
                let mut text = "scan_dir ".to_owned();
                text.append(path.to_string_lossy().as_str());
                text.append(" does not exist");
                text
            },
            HealthFault::ProjectDir(path) => {
                let mut text = "project_dir ".to_owned();
                text.append(path.to_string_lossy().as_str());
                text.append(" missing Cargo.toml");
                text
            },
        }
    }
}

// ----------------------------------------------------------------------- lines

/// The lines of an outcome.
pub open spec fn outcome_lines_of(outcome: OutcomeReport) -> Seq<Seq<char>> {
    let first = "Outcome: "@ + outcome.kind@ + " (code="@ + decimal(outcome.code as nat) + ")"@;
    if outcome.reasons@.len() == 0 {
        seq![first]
    } else {
        seq![first, "Reasons: "@ + joined_by(texts(outcome.reasons@), ", "@)]
    }
}

/// The lines of an outcome.
pub fn outcome_lines(outcome: &OutcomeReport) -> (lines: Vec<String>)
    ensures
        texts(lines@) == outcome_lines_of(*outcome),
{
    let mut lines: Vec<String> = Vec::new();
    assert(texts(lines@) =~= seq![]);
    let mut first = "Outcome: ".to_owned();
    first.append(outcome.kind);
    first.append(" (code=");
    first.append(decimal_text(outcome.code as u128).as_str());
    first.append(")");
    push_line(&mut lines, first);
    if outcome.reasons.len() > 0 {
        let mut second = "Reasons: ".to_owned();
        second.append(join_texts(&outcome.reasons, ", ").as_str());
        push_line(&mut lines, second);
    }
    assert(texts(lines@) =~= outcome_lines_of(*outcome));
    lines
}

/// A run in words; its bytes are shown as they are given.
pub open spec fn run_words(run: Run, recovered: Seq<char>) -> Seq<char> {
    "id="@ + signed_decimal(run.id as int) + " cleaned="@ + signed_grouped(run.projects_cleaned as int)
        + " recovered="@ + recovered + " errors="@ + signed_grouped(run.errors_count as int)
}

/// The last run in words.
pub fn last_run_words(run: &Run, recovered: &str) -> (text: String)
    ensures
        text@ == run_words(*run, recovered@),
{
    let mut text = "id=".to_owned();
    text.append(signed_decimal_text(run.id as i128).as_str());
    text.append(" cleaned=");
    text.append(format_count_i64(run.projects_cleaned).as_str());
    text.append(" recovered=");
    text.append(recovered);
    text.append(" errors=");
    text.append(format_count_i64(run.errors_count).as_str());
    text
}

/// The lines of the schedule.
pub open spec fn schedule_lines(
    clean_interval: nat,
    scan_interval: nat,
    status: Option<SchedulerStatus>,
    now: int,
) -> Seq<Seq<char>> {
    seq![row("Clean interval"@, span_words(clean_interval)), row("Scan interval"@, span_words(scan_interval))] + (
    match status {
        Some(s) => seq![
            row("Scheduler state"@, "recorded "@ + (span_words(age(s.updated_at@, now)) + " ago"@)),
            row("Next scheduled clean"@, schedule_words(s.next_clean_at@, now)),
            row("Next scheduled scan"@, schedule_words(s.next_scan_at@, now)),
        ],
        None => seq![
            row("Scheduler state"@, "<not recorded>"@),
            row("Next scheduled clean"@, "<not recorded>"@),
            row("Next scheduled scan"@, "<not recorded>"@),
        ],
    })
}

/// The lines of the schedule.
pub fn scheduler_status_lines(
    clean_interval: Duration,
    scan_interval: Duration,
    status: Option<SchedulerStatus>,
    now: SystemTime,
) -> (lines: Vec<String>)
    ensures
        texts(lines@) == schedule_lines(clean_interval@, scan_interval@, status, now@),
{
    let mut lines: Vec<String> = Vec::new();
    assert(texts(lines@) =~= seq![]);
    push_row(&mut lines, "Clean interval", format_duration_display(clean_interval).as_str());
    push_row(&mut lines, "Scan interval", format_duration_display(scan_interval).as_str());
    match status {
        Some(s) => {
            let mut recorded = "recorded ".to_owned();
            recorded.append(age_words(s.updated_at, now).as_str());
            push_row(&mut lines, "Scheduler state", recorded.as_str());
            push_row(&mut lines, "Next scheduled clean", schedule_time_label(s.next_clean_at, now).as_str());
            push_row(&mut lines, "Next scheduled scan", schedule_time_label(s.next_scan_at, now).as_str());
        },
        None => {
            push_row(&mut lines, "Scheduler state", "<not recorded>");
            push_row(&mut lines, "Next scheduled clean", "<not recorded>");
            push_row(&mut lines, "Next scheduled scan", "<not recorded>");
        },
    }
    assert(texts(lines@) =~= schedule_lines(clean_interval@, scan_interval@, status, now@));
    lines
}

/// The line of a project among those with the most bytes.
pub open spec fn top_line(place: nat, project: ProjectBytes) -> Seq<char> {
    "  "@ + decimal(place) + ". "@ + project.path@ + " - "@ + signed_decimal(project.bytes as int) + " bytes"@
}

/// The lines of the projects with the most bytes.
pub open spec fn top_lines(projects: Seq<ProjectBytes>) -> Seq<Seq<char>> {
    Seq::new(projects.len(), |i: int| top_line((i + 1) as nat, projects[i]))
}

/// The lines of statistics.
pub fn stats_lines(total: i64, failed: i64, projects: &Vec<ProjectBytes>) -> (lines: Vec<String>)
    ensures
        texts(lines@) == seq![
            "Bytes recovered: "@ + signed_decimal(total as int),
            "Failed clean attempts: "@ + signed_decimal(failed as int),
        ] + top_lines(projects@),
{
    let mut lines: Vec<String> = Vec::new();
    assert(texts(lines@) =~= seq![]);
    let mut first = "Bytes recovered: ".to_owned();
    first.append(signed_decimal_text(total as i128).as_str());
    push_line(&mut lines, first);
    let mut second = "Failed clean attempts: ".to_owned();
    second.append(signed_decimal_text(failed as i128).as_str());
    push_line(&mut lines, second);
    let ghost head = texts(lines@);
    let ghost all = top_lines(projects@);
    let mut i: usize = 0;
    assert(head + all.take(0) =~= head);
    while i < projects.len()
        invariant
            i <= projects.len(),
            all == top_lines(projects@),
            texts(lines@) == head + all.take(i as int),
        decreases projects.len() - i,
    {
        let mut line = "  ".to_owned();
        line.append(decimal_text(i as u128 + 1).as_str());
        line.append(". ");
        line.append(projects[i].path.as_str());
        line.append(" - ");
        line.append(signed_decimal_text(projects[i].bytes as i128).as_str());
        line.append(" bytes");
        assert(line@ == all[i as int]);
        let ghost shown = line@;
        push_line(&mut lines, line);
        i += 1;
        assert((head + all.take(i - 1)).push(shown) =~= head + all.take(i as int));
    }
    assert(all.take(i as int) =~= all);
    assert(head =~= seq![
        "Bytes recovered: "@ + signed_decimal(total as int),
        "Failed clean attempts: "@ + signed_decimal(failed as int),
    ]);
    lines
}

} // verus!
