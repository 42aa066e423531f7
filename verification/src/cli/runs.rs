//! Scans and runs, as the commands make and show them.

use crate::cli::authority::{
    authority_problems, diagnostics_scan_errors, origin_problem, origin_report, push_line, CleanupAuthorityDiagnostics,
    ShownOrigin,
};
use crate::cli::reports::{by_place, normalize_scan_errors, normalized, with_paths, ReportView};
use crate::cli::reviews::{
    batch_outcome, batch_reasons, review_batch_incomplete_status, review_batch_scan_errors, ReviewBatch,
};
use crate::cli::since::{calendar_text, calendar_time, in_calendar, second_of};
use crate::daemon::{RunCycleResult, ScanCycleResult};
use crate::order::{path_rank, sorted_distinct};
use crate::outcome::{merged, reason, CommandOutcome, CommandReport, CommandStatus, ScanErrorReport, FORMAT_VERSION};
use crate::path::{path_views, PathBuf};
use crate::policy::scope::sort_paths;
use crate::resolve::optional_path;
use crate::safety::{ReviewSummary, SafetyOptions};
use crate::scanner::{DiscoveryOriginResult, ObservedProject};
use crate::store::generations::current_generation_of;
use crate::store::rows::{optional_text, ReviewPlan};
use crate::store::table::rows_view;
use crate::store::{Store, StoreModel};
use crate::text::{decimal, decimal_text, lossy_chars, signed_decimal, signed_decimal_text, text_equal, texts};
use crate::time::Duration;
use vstd::prelude::*;

verus! {

// --------------------------------------------------------------------- options

/// What a run was asked for.
#[derive(Debug, Clone, Copy, PartialEq, Eq, Structural)]
pub struct RunOptions {
    pub dry_run: bool,
    pub no_scan: bool,
    pub include_managed_cache: bool,
    pub include_active: bool,
    pub force: bool,
    pub all: bool,
    pub review: Option<i64>,
    pub json: bool,
}

/// What a run does.
#[derive(Debug, Clone, Copy, PartialEq, Eq, Structural)]
pub enum RunKind {
    /// It cleans what a plan names.
    Reviewed(i64),
    /// It shows what would be cleaned, and makes a plan of it.
    Preview,
    /// It cleans what it finds.
    Clean,
}

/// What a run with these options does: a plan comes first, and a preview before a cleanup.
pub open spec fn run_kind(options: RunOptions) -> RunKind {
    match options.review {
        Some(id) => RunKind::Reviewed(id),
        None => if options.dry_run {
            RunKind::Preview
        } else {
            RunKind::Clean
        },
    }
}

/// How strict a run is: a plan carries the approval of managed storage with it, and its
/// run takes no flag of its own.
pub open spec fn run_safety(options: RunOptions, quiet: Duration) -> SafetyOptions {
    SafetyOptions {
        target_quiet_period: quiet,
        include_managed_cache: options.include_managed_cache || options.review is Some,
        include_active: options.include_active,
        force: options.force,
    }
}

impl RunOptions {
    /// What the run does.
    pub fn kind(&self) -> (kind: RunKind)
        ensures
            kind == run_kind(*self),
    {
        match self.review {
            Some(id) => RunKind::Reviewed(id),
            None => if self.dry_run {
                RunKind::Preview
            } else {
                RunKind::Clean
            },
        }
    }

    /// Whether the run scans before it does anything else.
    pub fn scans_first(&self) -> (scans: bool)
        ensures
            scans == (self.review is None && !self.no_scan),
    {
        self.review.is_none() && !self.no_scan
    }

    /// How strict the run is.
    pub fn safety(&self, quiet: Duration) -> (safety: SafetyOptions)
        ensures
            safety == run_safety(*self, quiet),
    {
        SafetyOptions {
            target_quiet_period: quiet,
            include_managed_cache: self.include_managed_cache || self.review.is_some(),
            include_active: self.include_active,
            force: self.force,
        }
    }
}

/// The number of the generation that a plan has to be of; a plan is of none where there
/// is none.
pub open spec fn plan_generation(store: StoreModel, policy_hash: Seq<char>) -> i64 {
    match current_generation_of(store.discovery_generations, policy_hash) {
        Some(row) => row.id,
        None => (-1) as i64,
    }
}

/// The number of the generation that a plan has to be of.
pub fn current_plan_generation(store: &Store, policy_hash: &str) -> (id: i64)
    ensures
        id == plan_generation(store@, policy_hash@),
{
    match store.current_generation(policy_hash) {
        Some(generation) => generation.id,
        None => -1,
    }
}

/// The bytes of a plan's targets, where they can be stored.
pub fn candidate_bytes(summary: &ReviewSummary) -> (bytes: Option<i64>)
    ensures
        match bytes {
            Some(n) => n == summary.cleanable_bytes,
            None => summary.cleanable_bytes > i64::MAX,
        },
{
    if summary.cleanable_bytes <= i64::MAX as u64 {
        Some(summary.cleanable_bytes as i64)
    } else {
        None
    }
}

// ------------------------------------------------------------------------ scan

/// What a scan comes to.
#[derive(Debug)]
pub struct ScanExecution {
    pub status: CommandStatus,
    pub generation: i64,
    pub policy_hash: String,
    pub scan_errors: Vec<ScanErrorReport>,
}

/// An origin of a scan as it is shown.
pub open spec fn shown_result(origin: DiscoveryOriginResult) -> ShownOrigin {
    ShownOrigin {
        kind: origin.kind,
        configured_path: origin.configured_path@,
        canonical_path: optional_path(origin.canonical_path),
        error: optional_text(origin.error),
    }
}

/// Whether an origin of a scan left something out.
pub open spec fn some_open(origins: Seq<DiscoveryOriginResult>) -> bool {
    exists|i: int| 0 <= i < origins.len() && !(#[trigger] origins[i]).completed
}

/// The origins of a scan that left something out.
pub open spec fn open_results(origins: Seq<DiscoveryOriginResult>) -> Seq<ShownOrigin>
    decreases origins.len(),
{
    if origins.len() == 0 {
        Seq::empty()
    } else if origins.last().completed {
        open_results(origins.drop_last())
    } else {
        open_results(origins.drop_last()).push(shown_result(origins.last()))
    }
}

/// The problems of a scan.
pub open spec fn scan_problems(origins: Seq<DiscoveryOriginResult>) -> Seq<ReportView> {
    open_results(origins).map_values(|origin: ShownOrigin| origin_problem(origin))
}

/// The outcome of a scan.
pub open spec fn scan_outcome(result: ScanCycleResult) -> CommandOutcome {
    if result.errors > 0 || some_open(result.origins@) {
        CommandOutcome::Incomplete
    } else {
        CommandOutcome::Complete
    }
}

/// The reasons for which a scan leaves something out.
pub open spec fn scan_reasons(result: ScanCycleResult) -> Set<Seq<char>> {
    (if result.errors > 0 || some_open(result.origins@) {
        set![reason::SCAN_INCOMPLETE@]
    } else {
        Set::empty()
    }).union(
        if some_open(result.origins@) {
            set![reason::ORIGIN_INCOMPLETE@]
        } else {
            Set::empty()
        },
    )
}

/// An open origin is among the open ones.
proof fn lemma_open_results(origins: Seq<DiscoveryOriginResult>)
    ensures
        some_open(origins) <==> open_results(origins).len() > 0,
    decreases origins.len(),
{
    if origins.len() > 0 {
        lemma_open_results(origins.drop_last());
        let shorter = origins.drop_last();
        if some_open(shorter) {
            let i = choose|i: int| 0 <= i < shorter.len() && !(#[trigger] shorter[i]).completed;
            assert(!origins[i].completed);
        }
        if some_open(origins) {
            let i = choose|i: int| 0 <= i < origins.len() && !(#[trigger] origins[i]).completed;
            if i < shorter.len() {
                assert(!shorter[i].completed);
            }
        }
        if !origins.last().completed {
            assert(!origins[origins.len() - 1].completed);
        }
    }
}

/// What a scan comes to.
pub fn scan_execution(result: &ScanCycleResult) -> (execution: ScanExecution)
    ensures
        execution.status.spec_outcome() == scan_outcome(*result),
        execution.status.reason_set() == scan_reasons(*result),
        execution.generation == result.generation,
        execution.policy_hash@ == result.policy_hash@,
        rows_view(execution.scan_errors@) == scan_problems(result.origins@),
{
    let ghost all = result.origins@;
    let mut scan_errors: Vec<ScanErrorReport> = Vec::new();
    let mut i: usize = 0;
    assert(all.take(0) =~= Seq::empty());
    assert(rows_view(scan_errors@) =~= scan_problems(all.take(0)));
    while i < result.origins.len()
        invariant
            i <= result.origins.len(),
            all == result.origins@,
            rows_view(scan_errors@) == scan_problems(all.take(i as int)),
        decreases result.origins.len() - i,
    {
        let ghost before = rows_view(scan_errors@);
        let ghost opened = open_results(all.take(i as int));
        let origin = &result.origins[i];
        proof {
            assert(all.take(i + 1).drop_last() =~= all.take(i as int));
            assert(all.take(i + 1).last() == all[i as int]);
        }
        if !origin.completed {
            let report = origin_report(origin.kind, &origin.configured_path, &origin.canonical_path, &origin.error);
            let ghost shown = report@;
            scan_errors.push(report);
            assert(rows_view(scan_errors@) =~= before.push(shown));
            assert(scan_problems(all.take(i + 1)) =~= scan_problems(all.take(i as int)).push(shown));
        }
        i += 1;
    }
    proof {
        assert(all.take(i as int) =~= all);
        lemma_open_results(all);
        assert(rows_view(scan_errors@).len() == scan_errors@.len());
    }
    let open = scan_errors.len() > 0;
    let mut status = if result.errors > 0 || open {
        CommandStatus::incomplete(reason::SCAN_INCOMPLETE)
    } else {
        CommandStatus::complete()
    };
    if open {
        status = status.merge_reason(CommandOutcome::Incomplete, reason::ORIGIN_INCOMPLETE);
    }
    assert(status.reason_set() =~= scan_reasons(*result));
    ScanExecution { status, generation: result.generation, policy_hash: result.policy_hash.clone(), scan_errors }
}

/// The paths of projects.
pub open spec fn project_paths(projects: Seq<ObservedProject>) -> Seq<Seq<u8>> {
    projects.map_values(|project: ObservedProject| project.path@)
}

/// The paths of the projects of all origins.
pub open spec fn found_paths(origins: Seq<DiscoveryOriginResult>) -> Seq<Seq<u8>>
    decreases origins.len(),
{
    if origins.len() == 0 {
        Seq::empty()
    } else {
        found_paths(origins.drop_last()) + project_paths(origins.last().projects@)
    }
}

fn push_paths(paths: &mut Vec<PathBuf>, projects: &Vec<ObservedProject>)
    ensures
        path_views(final(paths)@) == path_views(old(paths)@) + project_paths(projects@),
{
    let ghost start = path_views(paths@);
    let ghost all = project_paths(projects@);
    let mut i: usize = 0;
    assert(start + all.take(0) =~= start);
    while i < projects.len()
        invariant
            i <= projects.len(),
            all == project_paths(projects@),
            path_views(paths@) == start + all.take(i as int),
        decreases projects.len() - i,
    {
        let ghost before = path_views(paths@);
        let path = projects[i].path.clone();
        let ghost shown = path@;
        paths.push(path);
        i += 1;
        assert(path_views(paths@) =~= before.push(shown));
        assert(before.push(shown) =~= start + all.take(i as int));
    }
    assert(all.take(i as int) =~= all);
}

/// The projects that a scan found, in order, each once.
pub fn scan_projects(result: &ScanCycleResult) -> (paths: Vec<PathBuf>)
    ensures
        path_views(paths@) == sorted_distinct(found_paths(result.origins@), |path: Seq<u8>| path_rank(path)),
{
    let ghost all = result.origins@;
    let mut paths: Vec<PathBuf> = Vec::new();
    let mut i: usize = 0;
    assert(all.take(0) =~= Seq::empty());
    assert(path_views(paths@) =~= Seq::empty());
    while i < result.origins.len()
        invariant
            i <= result.origins.len(),
            all == result.origins@,
            path_views(paths@) == found_paths(all.take(i as int)),
        decreases result.origins.len() - i,
    {
        push_paths(&mut paths, &result.origins[i].projects);
        assert(all.take(i + 1).drop_last() =~= all.take(i as int));
        assert(all.take(i + 1).last() == all[i as int]);
        i += 1;
    }
    assert(all.take(i as int) =~= all);
    sort_paths(&mut paths);
    paths
}

/// The line of an origin that left something out.
pub open spec fn open_line(origin: ShownOrigin) -> Seq<char> {
    "Incomplete origin: "@ + lossy_chars(origin.configured_path) + " ("@ + (match origin.error {
        Some(error) => error,
        None => "unknown error"@,
    }) + ")"@
}

/// The lines of a scan.
pub open spec fn scan_lines_of(result: ScanCycleResult) -> Seq<Seq<char>> {
    seq![
        "Scan complete: errors="@ + decimal(result.errors as nat),
        "Authority: generation="@ + signed_decimal(result.generation as int) + " policy_hash="@ + result.policy_hash@,
    ] + open_results(result.origins@).map_values(|origin: ShownOrigin| open_line(origin))
}

/// The lines of a scan.
pub fn scan_lines(result: &ScanCycleResult) -> (lines: Vec<String>)
    ensures
        texts(lines@) == scan_lines_of(*result),
{
    let ghost all = result.origins@;
    let ghost show = |origin: ShownOrigin| open_line(origin);
    let mut lines: Vec<String> = Vec::new();
    assert(texts(lines@) =~= seq![]);
    let mut first = "Scan complete: errors=".to_owned();
    first.append(decimal_text(result.errors as u128).as_str());
    push_line(&mut lines, first);
    let mut second = "Authority: generation=".to_owned();
    second.append(signed_decimal_text(result.generation as i128).as_str());
    second.append(" policy_hash=");
    second.append(result.policy_hash.as_str());
    push_line(&mut lines, second);
    let ghost head = texts(lines@);
    let mut i: usize = 0;
    assert(all.take(0) =~= Seq::empty());
    assert(head + open_results(all.take(0)).map_values(show) =~= head);
    while i < result.origins.len()
        invariant
            i <= result.origins.len(),
            all == result.origins@,
            show == |origin: ShownOrigin| open_line(origin),
            texts(lines@) == head + open_results(all.take(i as int)).map_values(show),
        decreases result.origins.len() - i,
    {
        let origin = &result.origins[i];
        let ghost opened = open_results(all.take(i as int));
        proof {
            assert(all.take(i + 1).drop_last() =~= all.take(i as int));
            assert(all.take(i + 1).last() == all[i as int]);
        }
        if !origin.completed {
            let mut line = "Incomplete origin: ".to_owned();
            line.append(origin.configured_path.to_string_lossy().as_str());
            line.append(" (");
            match &origin.error {
                Some(error) => line.append(error.as_str()),
                None => line.append("unknown error"),
            }
            line.append(")");
            assert(line@ == open_line(shown_result(*origin)));
            let ghost shown = line@;
            push_line(&mut lines, line);
            proof {
                assert(opened.push(shown_result(*origin)).map_values(show) =~= opened.map_values(show).push(shown));
                assert((head + opened.map_values(show)).push(shown) =~= head + opened.map_values(show).push(shown));
            }
        }
        i += 1;
    }
    assert(all.take(i as int) =~= all);
    assert(texts(lines@) =~= scan_lines_of(*result));
    lines
}

// ------------------------------------------------------------------------- run

/// Whether a problem is one of an origin.
pub open spec fn is_origin_problem(report: ReportView) -> bool {
    report.kind == "scan_root"@ || report.kind == "explicit_project"@
}

/// Whether one of the problems is one of an origin.
pub open spec fn some_origin_problem(reports: Seq<ReportView>) -> bool {
    exists|i: int| 0 <= i < reports.len() && is_origin_problem(#[trigger] reports[i])
}

/// Whether anything failed in a run.
pub open spec fn run_failed(result: RunCycleResult) -> bool {
    result.cargo_failures > 0 || result.measurement_failures > 0 || result.cleanup_failures > 0
}

/// The outcome of a run: a failure outranks a limited coverage.
pub open spec fn run_outcome(result: RunCycleResult) -> CommandOutcome {
    if run_failed(result) {
        CommandOutcome::Failed
    } else if result.coverage_incomplete {
        CommandOutcome::Incomplete
    } else {
        CommandOutcome::Complete
    }
}

/// One reason, where it holds.
pub open spec fn reason_if(holds: bool, reason: Seq<char>) -> Set<Seq<char>> {
    if holds {
        set![reason]
    } else {
        Set::empty()
    }
}

/// The reasons for which a run is not complete.
pub open spec fn run_reasons(result: RunCycleResult, reports: Seq<ReportView>) -> Set<Seq<char>> {
    reason_if(result.cargo_failures > 0, reason::CARGO_FAILED@).union(
        reason_if(result.measurement_failures > 0, reason::MEASUREMENT_FAILED@),
    ).union(reason_if(result.cleanup_failures > 0, reason::CLEANUP_FAILED@)).union(
        reason_if(result.coverage_incomplete, reason::SCAN_INCOMPLETE@),
    ).union(
        reason_if(result.coverage_incomplete && some_origin_problem(reports), reason::ORIGIN_INCOMPLETE@),
    )
}

fn has_origin_problem(reports: &Vec<ScanErrorReport>) -> (found: bool)
    ensures
        found == some_origin_problem(rows_view(reports@)),
{
    let ghost all = rows_view(reports@);
    let mut i: usize = 0;
    while i < reports.len()
        invariant
            i <= reports.len(),
            all == rows_view(reports@),
            forall|k: int| 0 <= k < i ==> !is_origin_problem(#[trigger] all[k]),
        decreases reports.len() - i,
    {
        assert(all[i as int] == reports@[i as int]@);
        if text_equal(reports[i].kind.as_str(), "scan_root") || text_equal(
            reports[i].kind.as_str(),
            "explicit_project",
        ) {
            assert(is_origin_problem(all[i as int]));
            return true;
        }
        i += 1;
    }
    assert(all.len() == reports@.len());
    false
}

/// The status that a run gives a command.
pub fn run_result_status(result: &RunCycleResult, scan_errors: &Vec<ScanErrorReport>) -> (status: CommandStatus)
    requires
        result.errors == result.cargo_failures + result.measurement_failures + result.cleanup_failures,
    ensures
        status.spec_outcome() == run_outcome(*result),
        status.reason_set() == run_reasons(*result, rows_view(scan_errors@)),
{
    let mut status = CommandStatus::complete();
    if result.cargo_failures > 0 {
        status = status.merge(CommandStatus::failed(reason::CARGO_FAILED));
    }
    if result.measurement_failures > 0 {
        status = status.merge(CommandStatus::failed(reason::MEASUREMENT_FAILED));
    }
    if result.cleanup_failures > 0 {
        status = status.merge(CommandStatus::failed(reason::CLEANUP_FAILED));
    }
    if result.coverage_incomplete {
        status = status.merge(CommandStatus::incomplete(reason::SCAN_INCOMPLETE));
        if has_origin_problem(scan_errors) {
            status = status.merge_reason(CommandOutcome::Incomplete, reason::ORIGIN_INCOMPLETE);
        }
    }
    assert(status.reason_set() =~= run_reasons(*result, rows_view(scan_errors@)));
    status
}

/// What a run reports.
#[derive(Debug)]
pub struct RunReport {
    pub status: CommandStatus,
    pub scan_errors: Vec<ScanErrorReport>,
    pub generation: Option<i64>,
}

/// The outcome of a scan that may not have been made.
pub open spec fn prior_outcome(scan: Option<ScanExecution>) -> CommandOutcome {
    match scan {
        Some(execution) => execution.status.spec_outcome(),
        None => CommandOutcome::Complete,
    }
}

/// The reasons of a scan that may not have been made.
pub open spec fn prior_reasons(scan: Option<ScanExecution>) -> Set<Seq<char>> {
    match scan {
        Some(execution) => execution.status.reason_set(),
        None => Set::empty(),
    }
}

/// The problems of a scan that may not have been made.
pub open spec fn prior_problems(scan: Option<ScanExecution>) -> Seq<ReportView> {
    match scan {
        Some(execution) => rows_view(execution.scan_errors@),
        None => Seq::empty(),
    }
}

/// The generation of a scan that may not have been made.
pub open spec fn prior_generation(scan: Option<ScanExecution>) -> Option<i64> {
    match scan {
        Some(execution) => Some(execution.generation),
        None => None,
    }
}

/// A generation, or else that of the scan.
pub open spec fn generation_or(current: Option<i64>, scan: Option<ScanExecution>) -> Option<i64> {
    match current {
        Some(id) => Some(id),
        None => prior_generation(scan),
    }
}

fn first_of(current: Option<i64>, scanned: Option<i64>) -> (id: Option<i64>)
    ensures
        id == (match current {
            Some(n) => Some(n),
            None => scanned,
        }),
{
    match current {
        Some(n) => Some(n),
        None => scanned,
    }
}

fn after_scan(scan: Option<ScanExecution>, more: Vec<ScanErrorReport>) -> (parts: (
    CommandStatus,
    Vec<ScanErrorReport>,
    Option<i64>,
))
    ensures
        parts.0.spec_outcome() == prior_outcome(scan),
        parts.0.reason_set() == prior_reasons(scan),
        rows_view(parts.1@) == normalized(prior_problems(scan) + rows_view(more@)),
        parts.2 == prior_generation(scan),
{
    let mut status = CommandStatus::complete();
    let mut errors: Vec<ScanErrorReport> = Vec::new();
    let mut generation: Option<i64> = None;
    match scan {
        Some(execution) => {
            status = status.merge(execution.status);
            generation = Some(execution.generation);
            errors = execution.scan_errors;
            assert(Set::<Seq<char>>::empty().union(prior_reasons(scan)) =~= prior_reasons(scan));
        },
        None => {
            assert(rows_view(errors@) =~= Seq::empty());
        },
    }
    let ghost before = rows_view(errors@);
    let mut more = more;
    let ghost added = rows_view(more@);
    errors.append(&mut more);
    assert(rows_view(errors@) =~= before + added);
    normalize_scan_errors(&mut errors);
    (status, errors, generation)
}

/// What a preview reports: of the scan before it, if there was one, of the review, and
/// of what authorizes it.
pub fn preview_report(scan: Option<ScanExecution>, batch: &ReviewBatch, shown: &CleanupAuthorityDiagnostics) -> (report: RunReport)
    ensures
        report.status.spec_outcome() == merged(prior_outcome(scan), batch_outcome(*batch)),
        report.status.reason_set() == prior_reasons(scan).union(batch_reasons(*batch)),
        rows_view(report.scan_errors@) == normalized(
            prior_problems(scan) + by_place(
                with_paths(authority_problems(shown@), path_views(batch.scan_error_paths@)),
            ),
        ),
        report.generation == generation_or(batch.generation, scan),
{
    let (status, scan_errors, scanned) = after_scan(scan, review_batch_scan_errors(batch, shown));
    RunReport {
        status: status.merge(review_batch_incomplete_status(batch)),
        scan_errors,
        generation: first_of(batch.generation, scanned),
    }
}

/// What a run that cleans what it finds reports.
pub fn clean_report(
    scan: Option<ScanExecution>,
    result: &RunCycleResult,
    shown: &CleanupAuthorityDiagnostics,
    current: Option<i64>,
) -> (report: RunReport)
    requires
        result.errors == result.cargo_failures + result.measurement_failures + result.cleanup_failures,
    ensures
        rows_view(report.scan_errors@) == normalized(prior_problems(scan) + authority_problems(shown@)),
        report.status.spec_outcome() == merged(prior_outcome(scan), run_outcome(*result)),
        report.status.reason_set() == prior_reasons(scan).union(
            run_reasons(*result, normalized(prior_problems(scan) + authority_problems(shown@))),
        ),
        report.generation == generation_or(current, scan),
{
    let (status, scan_errors, scanned) = after_scan(scan, diagnostics_scan_errors(shown));
    let of_run = run_result_status(result, &scan_errors);
    RunReport { status: status.merge(of_run), scan_errors, generation: first_of(current, scanned) }
}

/// What a run that cleans what a plan names reports.
pub fn reviewed_report(result: &RunCycleResult, shown: &CleanupAuthorityDiagnostics, generation: i64) -> (report: RunReport)
    requires
        result.errors == result.cargo_failures + result.measurement_failures + result.cleanup_failures,
    ensures
        rows_view(report.scan_errors@) == authority_problems(shown@),
        report.status.spec_outcome() == run_outcome(*result),
        report.status.reason_set() == run_reasons(*result, authority_problems(shown@)),
        report.generation == Some(generation),
{
    let scan_errors = diagnostics_scan_errors(shown);
    let status = run_result_status(result, &scan_errors);
    RunReport { status, scan_errors, generation: Some(generation) }
}

/// The envelope of a run's report.
pub fn run_command_report(report: RunReport, result: RunCycleResult, policy_hash: String, review_id: Option<i64>) -> (wrapped: CommandReport<
    RunCycleResult,
>)
    ensures
        wrapped.outcome.describes(&report.status),
        wrapped == (CommandReport {
            format_version: FORMAT_VERSION,
            command: wrapped.command,
            outcome: wrapped.outcome,
            policy_hash: Some(policy_hash),
            generation: report.generation,
            review_id,
            scan_errors: report.scan_errors,
            data: result,
        }),
        wrapped.command@ == "run"@,
{
    CommandReport::new(
        "run",
        &report.status,
        Some(policy_hash),
        report.generation,
        review_id,
        report.scan_errors,
        result,
    )
}

/// The line of a run.
pub open spec fn run_line_of(result: RunCycleResult) -> Seq<char> {
    "Run complete: cleaned="@ + signed_decimal(result.cleaned as int) + " skipped="@ + signed_decimal(
        result.skipped as int,
    ) + " recovered="@ + signed_decimal(result.bytes_recovered as int) + " errors="@ + signed_decimal(
        result.errors as int,
    )
}

/// The line of a run.
pub fn run_line(result: &RunCycleResult) -> (line: String)
    ensures
        line@ == run_line_of(*result),
{
    let mut line = "Run complete: cleaned=".to_owned();
    line.append(signed_decimal_text(result.cleaned as i128).as_str());
    line.append(" skipped=");
    line.append(signed_decimal_text(result.skipped as i128).as_str());
    line.append(" recovered=");
    line.append(signed_decimal_text(result.bytes_recovered as i128).as_str());
    line.append(" errors=");
    line.append(signed_decimal_text(result.errors as i128).as_str());
    line
}

/// The lines of a plan.
pub open spec fn plan_lines_of(plan: ReviewPlan) -> Seq<Seq<char>> {
    seq![
        "Review ID: "@ + signed_decimal(plan.id as int),
        "Policy hash: "@ + plan.policy_hash@,
        "Discovery generation: "@ + signed_decimal(plan.generation_id as int),
        "Created: "@ + calendar_text(second_of(plan.created_at@)),
        "Expires: "@ + calendar_text(second_of(plan.expires_at@)),
        "Candidate bytes: "@ + signed_decimal(plan.candidate_bytes as int),
    ]
}

fn labelled(label: &str, value: &str) -> (line: String)
    ensures
        line@ == label@ + value@,
{
    let mut line = label.to_owned();
    line.append(value);
    line
}

/// The lines of a plan; none where the calendar does not show its times.
pub fn review_plan_lines(plan: &ReviewPlan) -> (lines: Option<Vec<String>>)
    ensures
        match lines {
            Some(list) => in_calendar(plan.created_at@) && in_calendar(plan.expires_at@) && texts(list@)
                == plan_lines_of(*plan),
            None => !in_calendar(plan.created_at@) || !in_calendar(plan.expires_at@),
        },
{
    let created = match calendar_time(plan.created_at) {
        Some(text) => text,
        None => return None,
    };
    let expires = match calendar_time(plan.expires_at) {
        Some(text) => text,
        None => return None,
    };
    let mut lines: Vec<String> = Vec::new();
    assert(texts(lines@) =~= seq![]);
    push_line(&mut lines, labelled("Review ID: ", signed_decimal_text(plan.id as i128).as_str()));
    push_line(&mut lines, labelled("Policy hash: ", plan.policy_hash.as_str()));
    push_line(
        &mut lines,
        labelled("Discovery generation: ", signed_decimal_text(plan.generation_id as i128).as_str()),
    );
    push_line(&mut lines, labelled("Created: ", created.as_str()));
    push_line(&mut lines, labelled("Expires: ", expires.as_str()));
    push_line(
        &mut lines,
        labelled("Candidate bytes: ", signed_decimal_text(plan.candidate_bytes as i128).as_str()),
    );
    assert(texts(lines@) =~= plan_lines_of(*plan));
    Some(lines)
}

// ------------------------------------------------------------------------ laws

/// A run that cleans what a plan names takes none of the flags that admit more, beyond
/// the approval that the plan carries.
pub proof fn reviewed_runs_admit_no_more(options: RunOptions, quiet: Duration)
    requires
        options.review is Some,
        !options.include_active,
        !options.force,
    ensures
        run_safety(options, quiet) == (SafetyOptions {
            target_quiet_period: quiet,
            include_managed_cache: true,
            include_active: false,
            force: false,
        }),
{
}

/// Leaving out the scan leaves out nothing else: the run is of the same kind and as
/// strict as with it.
pub proof fn skipping_the_scan_weakens_nothing(options: RunOptions, quiet: Duration)
    ensures
        ({
            let cached = (RunOptions { no_scan: true, ..options });
            &&& run_safety(cached, quiet) == run_safety(options, quiet)
            &&& run_kind(cached) == run_kind(options)
        }),
{
}

/// A run is complete only where nothing failed and nothing was left out, and a failure
/// outranks what was left out.
pub proof fn failures_outrank_limits(result: RunCycleResult)
    ensures
        run_outcome(result) == CommandOutcome::Complete <==> !run_failed(result) && !result.coverage_incomplete,
        run_failed(result) ==> run_outcome(result) == CommandOutcome::Failed,
{
}

} // verus!
