//! Reviews of all projects, as the commands make and show them.

use crate::cli::authority::{
    authority_limited, authority_problems, authority_reasons, cleanup_authority_status, diagnostics_scan_errors,
    push_line, push_row, row, CleanupAuthorityDiagnostics,
};
use crate::cli::format::{age, age_words, format_count, grouped, join_texts, joined_by, span_words};
use crate::cli::reports::{add_paths, by_place, sort_by_place, with_paths};
use crate::daemon::cycle::{
    begin_cycle, coverage_of, cycle_generation, cycle_observations, errors_since, is_cleanable, CoverageView,
    CycleScope,
};
use crate::daemon::run::decision_recorded;
use crate::outcome::{merged, reason, CommandOutcome, CommandStatus, ScanErrorReport};
use crate::path::{path_views, PathBuf};
use crate::policy::ScopePolicy;
use crate::resolve::Resolutions;
use crate::safety::{
    cleanable_bytes_in, review_summary, summarizes, CleanDecision, ProjectClass, ProjectReview, ReviewSummary,
    SkipReason,
};
use crate::store::generations::{observation_is, origin_is, origins_of};
use crate::store::history::review_recorded;
use crate::store::rows::{DiscoveryOriginRecord, ErrorRecord, OriginModel, ReviewStatus};
use crate::store::table::rows_view;
use crate::store::{epoch_of, Store, StoreError, StoreFault, StoreModel};
use crate::text::{decimal, decimal_text, lossy_chars, text_equal, texts};
use crate::time::{Duration, SystemTime};
use crate::store::keys::consistent;
use vstd::prelude::*;

verus! {

/// How many targets are shown where not all are asked for.
pub const DEFAULT_PREVIEW_LIMIT: usize = 20;

// ---------------------------------------------------------------------- batch

/// What a review of all projects works on.
#[derive(Debug)]
pub struct ReviewScope {
    pub scope: CycleScope,
    pub generation_invalid: bool,
    pub origin_incomplete: bool,
}

/// Whether an origin of a generation left something out.
pub open spec fn has_open_origin(store: StoreModel, generation_id: i64) -> bool {
    exists|i: int|
        0 <= i < origins_of(store, generation_id).len() && !(#[trigger] origins_of(
            store,
            generation_id,
        )[i]).completed
}

fn any_open(origins: &Vec<DiscoveryOriginRecord>, Ghost(rows): Ghost<Seq<OriginModel>>) -> (open: bool)
    requires
        origins@.len() == rows.len(),
        forall|i: int| 0 <= i < rows.len() ==> origin_is(#[trigger] origins@[i], rows[i]),
    ensures
        open == exists|i: int| 0 <= i < rows.len() && !(#[trigger] rows[i]).completed,
{
    let mut i: usize = 0;
    while i < origins.len()
        invariant
            i <= origins.len(),
            origins@.len() == rows.len(),
            forall|k: int| 0 <= k < rows.len() ==> origin_is(#[trigger] origins@[k], rows[k]),
            forall|k: int| 0 <= k < i ==> (#[trigger] rows[k]).completed,
        decreases origins.len() - i,
    {
        assert(origin_is(origins@[i as int], rows[i as int]));
        if !origins[i].completed {
            assert(!rows[i as int].completed);
            return true;
        }
        i += 1;
    }
    false
}

/// Starts a review of all projects: what may be acted on, and what limits it.
pub fn begin_reviews(
    store: &Store,
    policy: &ScopePolicy,
    scan_interval: Duration,
    now: SystemTime,
    known: &Resolutions,
) -> (result: Result<ReviewScope, StoreError>)
    ensures
        match coverage_of(store@, policy.hash@, errors_since(now@, scan_interval@ as int), known@) {
            Err(fault) => result matches Err(error) && error@ == fault,
            Ok(view) => result matches Ok(begun) && {
                let rows = cycle_observations(store@, Some(policy));
                let generation = cycle_generation(store@, Some(policy));
                &&& begun.scope.generation_id == generation
                &&& begun.scope.observations@.len() == rows.len()
                &&& forall|i: int|
                    0 <= i < rows.len() ==> observation_is(#[trigger] begun.scope.observations@[i], rows[i])
                &&& begun.scope.coverage@ == (CoverageView {
                    incomplete: view.incomplete || generation is None,
                    ..view
                })
                &&& begun.generation_invalid == (generation is None && store@.projects.len() > 0)
                &&& begun.origin_incomplete == match generation {
                    Some(id) => has_open_origin(store@, id),
                    None => false,
                }
            },
        },
{
    let scope = match begin_cycle(store, Some(policy), scan_interval, now, known) {
        Ok(scope) => scope,
        Err(error) => return Err(error),
    };
    let generation_invalid = scope.generation_id.is_none() && store.project_count() > 0;
    let origin_incomplete = match scope.generation_id {
        Some(id) => any_open(&store.discovery_origins(id), Ghost(origins_of(store@, id))),
        None => false,
    };
    Ok(ReviewScope { scope, generation_invalid, origin_incomplete })
}

/// A review of all projects.
#[derive(Debug)]
pub struct ReviewBatch {
    pub reviews: Vec<ProjectReview>,
    pub coverage_incomplete: bool,
    pub generation: Option<i64>,
    pub generation_invalid: bool,
    pub origin_incomplete: bool,
    pub scan_error_paths: Vec<PathBuf>,
}

/// The store after the targets that cannot be read have been recorded, or how far that
/// came.
pub open spec fn problems_recorded(store: StoreModel, reviews: Seq<ProjectReview>, now: int) -> (
    StoreModel,
    Option<StoreFault>,
)
    decreases reviews.len(),
{
    if reviews.len() == 0 {
        (store, None)
    } else {
        let before = problems_recorded(store, reviews.drop_last(), now);
        match before.1 {
            Some(_) => before,
            None => match decision_recorded(before.0, reviews.last(), reviews.last().decision, now) {
                Ok(after) => (after, None),
                Err(fault) => (before.0, Some(fault)),
            },
        }
    }
}

/// A fault on some of the reviews is the fault on all of them.
proof fn lemma_problems_early(store: StoreModel, reviews: Seq<ProjectReview>, now: int, n: int)
    requires
        0 <= n <= reviews.len(),
        problems_recorded(store, reviews.take(n), now).1 is Some,
    ensures
        problems_recorded(store, reviews, now) == problems_recorded(store, reviews.take(n), now),
    decreases reviews.len(),
{
    if n < reviews.len() {
        assert(reviews.drop_last().take(n) =~= reviews.take(n));
        lemma_problems_early(store, reviews.drop_last(), now, n);
    } else {
        assert(reviews.take(n) =~= reviews);
    }
}

/// Records the targets that cannot be read.
pub fn record_review_diagnostics(store: &mut Store, reviews: &Vec<ProjectReview>, now: SystemTime) -> (result: Result<
    (),
    StoreError,
>)
    ensures
        final(store)@ == problems_recorded(old(store)@, reviews@, now@).0,
        match problems_recorded(old(store)@, reviews@, now@).1 {
            None => result is Ok,
            Some(fault) => result matches Err(error) && error@ == fault,
        },
        consistent(old(store)@) ==> consistent(final(store)@),
{
    let ghost start = store@;
    let ghost all = reviews@;
    let mut i: usize = 0;
    assert(all.take(0) =~= Seq::empty());
    while i < reviews.len()
        invariant
            i <= reviews.len(),
            all == reviews@,
            start == old(store)@,
            problems_recorded(start, all.take(i as int), now@) == (store@, None::<StoreFault>),
            consistent(start) ==> consistent(store@),
        decreases reviews.len() - i,
    {
        proof {
            assert(all.take(i + 1).drop_last() =~= all.take(i as int));
            assert(all.take(i + 1).last() == all[i as int]);
            if problems_recorded(start, all.take(i + 1), now@).1 is Some {
                lemma_problems_early(start, all, now@, i + 1);
            }
        }
        match reviews[i].decision {
            CleanDecision::Skipped(SkipReason::TargetReadError) => {
                match store.record_error(
                    &ErrorRecord {
                        id: 0,
                        ts: now,
                        category: "review".to_owned(),
                        path: reviews[i].target_path.to_str(),
                        message: "target read error: unable to read direct target directory".to_owned(),
                    },
                ) {
                    Ok(_) => {},
                    Err(error) => return Err(error),
                }
            },
            _ => {},
        }
        i += 1;
    }
    assert(all.take(i as int) =~= all);
    Ok(())
}

/// The store after a review of all projects, or how far recording it came.
pub open spec fn batch_recorded(
    store: StoreModel,
    reviews: Seq<ProjectReview>,
    reviewed_at: int,
    source: Seq<char>,
    summary: ReviewSummary,
    recorded_at: int,
) -> (StoreModel, Option<StoreFault>) {
    let recorded = problems_recorded(store, reviews, recorded_at);
    match recorded.1 {
        Some(_) => recorded,
        None => match epoch_of(reviewed_at) {
            None => (recorded.0, Some(StoreFault::BeforeEpoch)),
            Some(secs) => (review_recorded(recorded.0, secs, source, summary), None),
        },
    }
}

/// Finishes a review of all projects: records what could not be read and the summary.
pub fn finish_reviews(
    store: &mut Store,
    begun: ReviewScope,
    reviews: Vec<ProjectReview>,
    source: &str,
    reviewed_at: SystemTime,
    recorded_at: SystemTime,
) -> (result: Result<ReviewBatch, StoreError>)
    requires
        cleanable_bytes_in(reviews@) <= u64::MAX,
    ensures
        exists|summary: ReviewSummary| #[trigger]
            summarizes(summary, reviews@) && final(store)@ == batch_recorded(
                old(store)@,
                reviews@,
                reviewed_at@,
                source@,
                summary,
                recorded_at@,
            ).0 && match batch_recorded(old(store)@, reviews@, reviewed_at@, source@, summary, recorded_at@).1 {
                Some(fault) => result matches Err(error) && error@ == fault,
                None => result == Ok::<ReviewBatch, StoreError>(
                    ReviewBatch {
                        reviews,
                        coverage_incomplete: begun.scope.coverage.incomplete,
                        generation: begun.scope.generation_id,
                        generation_invalid: begun.generation_invalid,
                        origin_incomplete: begun.origin_incomplete,
                        scan_error_paths: begun.scope.coverage.scan_errors,
                    },
                ),
            },
        consistent(old(store)@) ==> consistent(final(store)@),
{
    let summary = review_summary(&reviews);
    assert(summarizes(summary, reviews@));
    match record_review_diagnostics(store, &reviews, recorded_at) {
        Ok(_) => {},
        Err(error) => return Err(error),
    }
    match store.record_review_status(reviewed_at, source, &summary) {
        Ok(_) => {},
        Err(error) => return Err(error),
    }
    Ok(
        ReviewBatch {
            reviews,
            coverage_incomplete: begun.scope.coverage.incomplete,
            generation: begun.scope.generation_id,
            generation_invalid: begun.generation_invalid,
            origin_incomplete: begun.origin_incomplete,
            scan_error_paths: begun.scope.coverage.scan_errors,
        },
    )
}

/// The reasons for which a review of all projects leaves something out.
pub open spec fn batch_reasons(batch: ReviewBatch) -> Set<Seq<char>> {
    if !batch.coverage_incomplete {
        Set::empty()
    } else {
        let generation = if batch.generation is Some {
            Set::empty()
        } else if batch.generation_invalid {
            set![reason::GENERATION_INVALID@]
        } else {
            set![reason::GENERATION_MISSING@]
        };
        let origin = if batch.origin_incomplete {
            set![reason::ORIGIN_INCOMPLETE@]
        } else {
            Set::empty()
        };
        set![reason::SCAN_INCOMPLETE@].union(generation).union(origin)
    }
}

/// The outcome of a review of all projects.
pub open spec fn batch_outcome(batch: ReviewBatch) -> CommandOutcome {
    if batch.coverage_incomplete {
        CommandOutcome::Incomplete
    } else {
        CommandOutcome::Complete
    }
}

/// The status that a review of all projects gives a command.
pub fn review_batch_incomplete_status(batch: &ReviewBatch) -> (status: CommandStatus)
    ensures
        status.spec_outcome() == batch_outcome(*batch),
        status.reason_set() == batch_reasons(*batch),
{
    if !batch.coverage_incomplete {
        return CommandStatus::complete();
    }
    let mut status = CommandStatus::incomplete(reason::SCAN_INCOMPLETE);
    if batch.generation.is_none() {
        status = status.merge_reason(
            CommandOutcome::Incomplete,
            if batch.generation_invalid {
                reason::GENERATION_INVALID
            } else {
                reason::GENERATION_MISSING
            },
        );
    }
    if batch.origin_incomplete {
        status = status.merge_reason(CommandOutcome::Incomplete, reason::ORIGIN_INCOMPLETE);
    }
    assert(status.reason_set() =~= batch_reasons(*batch));
    status
}

/// The status of a command that shows what authorizes cleaning, and may have reviewed
/// all projects before.
pub fn refreshed_status(batch: Option<&ReviewBatch>, shown: &CleanupAuthorityDiagnostics) -> (status: CommandStatus)
    ensures
        status.spec_outcome() == merged(
            match batch {
                Some(b) => batch_outcome(*b),
                None => CommandOutcome::Complete,
            },
            if authority_limited(shown@) {
                CommandOutcome::Incomplete
            } else {
                CommandOutcome::Complete
            },
        ),
        status.reason_set() == (match batch {
            Some(b) => batch_reasons(*b),
            None => Set::empty(),
        }).union(authority_reasons(shown@)),
{
    let reviewed = match batch {
        Some(b) => review_batch_incomplete_status(b),
        None => CommandStatus::complete(),
    };
    reviewed.merge(cleanup_authority_status(shown))
}

/// The problems of a review of all projects and of what authorizes it.
pub fn review_batch_scan_errors(batch: &ReviewBatch, shown: &CleanupAuthorityDiagnostics) -> (reports: Vec<
    ScanErrorReport,
>)
    ensures
        rows_view(reports@) == by_place(
            with_paths(authority_problems(shown@), path_views(batch.scan_error_paths@)),
        ),
{
    let mut reports = diagnostics_scan_errors(shown);
    add_paths(&mut reports, &batch.scan_error_paths);
    sort_by_place(&mut reports);
    reports
}

// ---------------------------------------------------------------------- labels

/// The label of a decision.
pub open spec fn decision_words(decision: CleanDecision) -> Seq<char> {
    match decision {
        CleanDecision::Cleanable => "cleanable"@,
        CleanDecision::Skipped(reason) => match reason {
            SkipReason::NoTarget => "skipped:no_target"@,
            SkipReason::ActiveRecentWrite { .. } => "skipped:active_recent_write"@,
            SkipReason::ActiveProcess => "skipped:active_process"@,
            SkipReason::ManagedCache => "skipped:managed_cache"@,
            SkipReason::ContainerStorage => "skipped:container_storage"@,
            SkipReason::ScanError => "skipped:scan_error"@,
            SkipReason::TargetReadError => "skipped:target_read_error"@,
            SkipReason::InvalidManifest => "skipped:invalid_manifest"@,
            SkipReason::ProjectIdentityUnavailable => "skipped:project_identity_unavailable"@,
            SkipReason::TargetIdentityUnavailable => "skipped:target_identity_unavailable"@,
            SkipReason::CrossDeviceTarget => "skipped:cross_device_target"@,
            SkipReason::CrossMountTarget => "skipped:cross_mount_target"@,
            SkipReason::ProjectIdentityChanged => "skipped:project_identity_changed"@,
            SkipReason::TargetIdentityChanged => "skipped:target_identity_changed"@,
            SkipReason::OutOfScope => "skipped:out_of_scope"@,
            SkipReason::Excluded => "skipped:excluded"@,
        },
    }
}

/// The label of a decision.
pub fn decision_label(decision: CleanDecision) -> (label: &'static str)
    ensures
        label@ == decision_words(decision),
{
    match decision {
        CleanDecision::Cleanable => "cleanable",
        CleanDecision::Skipped(reason) => match reason {
            SkipReason::NoTarget => "skipped:no_target",
            SkipReason::ActiveRecentWrite { .. } => "skipped:active_recent_write",
            SkipReason::ActiveProcess => "skipped:active_process",
            SkipReason::ManagedCache => "skipped:managed_cache",
            SkipReason::ContainerStorage => "skipped:container_storage",
            SkipReason::ScanError => "skipped:scan_error",
            SkipReason::TargetReadError => "skipped:target_read_error",
            SkipReason::InvalidManifest => "skipped:invalid_manifest",
            SkipReason::ProjectIdentityUnavailable => "skipped:project_identity_unavailable",
            SkipReason::TargetIdentityUnavailable => "skipped:target_identity_unavailable",
            SkipReason::CrossDeviceTarget => "skipped:cross_device_target",
            SkipReason::CrossMountTarget => "skipped:cross_mount_target",
            SkipReason::ProjectIdentityChanged => "skipped:project_identity_changed",
            SkipReason::TargetIdentityChanged => "skipped:target_identity_changed",
            SkipReason::OutOfScope => "skipped:out_of_scope",
            SkipReason::Excluded => "skipped:excluded",
        },
    }
}

/// The label of a class.
pub open spec fn class_words(class: ProjectClass) -> Seq<char> {
    match class {
        ProjectClass::Workspace => "workspace"@,
        ProjectClass::ManagedCache => "managed_cache"@,
        ProjectClass::ContainerStorage => "container_storage"@,
    }
}

/// The label of a class.
pub fn class_label(class: ProjectClass) -> (label: &'static str)
    ensures
        label@ == class_words(class),
{
    match class {
        ProjectClass::Workspace => "workspace",
        ProjectClass::ManagedCache => "managed_cache",
        ProjectClass::ContainerStorage => "container_storage",
    }
}

/// The label of the source of a review.
pub open spec fn source_words(source: Seq<char>) -> Seq<char> {
    if source == "run"@ {
        "run (pre-clean snapshot)"@
    } else {
        source
    }
}

/// The label of the source of a review.
pub fn review_source_label(source: &str) -> (label: String)
    ensures
        label@ == source_words(source@),
{
    if text_equal(source, "run") {
        "run (pre-clean snapshot)".to_owned()
    } else {
        source.to_owned()
    }
}

// ----------------------------------------------------------------------- lines

/// The lines of a summary's counts; the bytes are shown as they are given.
pub open spec fn count_lines(summary: ReviewSummary, bytes: Seq<char>) -> Seq<Seq<char>> {
    seq![
        row("Total projects"@, grouped(summary.total_projects as nat)),
        row("Cleanable projects"@, grouped(summary.cleanable_projects as nat)),
        row("Skipped projects"@, grouped(summary.skipped_projects as nat)),
        row("Cleanable bytes"@, bytes),
    ]
}

fn push_counts(lines: &mut Vec<String>, summary: &ReviewSummary, bytes: &str)
    ensures
        texts(final(lines)@) == texts(old(lines)@) + count_lines(*summary, bytes@),
{
    let ghost start = texts(lines@);
    push_row(lines, "Total projects", format_count(summary.total_projects).as_str());
    push_row(lines, "Cleanable projects", format_count(summary.cleanable_projects).as_str());
    push_row(lines, "Skipped projects", format_count(summary.skipped_projects).as_str());
    push_row(lines, "Cleanable bytes", bytes);
    assert(texts(lines@) =~= start + count_lines(*summary, bytes@));
}

/// A count of a reason, if there are any.
pub open spec fn skip_part(label: Seq<char>, count: nat) -> Seq<Seq<char>> {
    if count == 0 {
        seq![]
    } else {
        seq![label + "="@ + decimal(count)]
    }
}

/// The counts of the reasons for skipping.
pub open spec fn skip_parts(summary: ReviewSummary) -> Seq<Seq<char>> {
    skip_part("no_target"@, summary.no_target as nat) + skip_part(
        "recent_write"@,
        summary.active_recent_write as nat,
    ) + skip_part("active_process"@, summary.active_process as nat) + skip_part(
        "managed_cache"@,
        summary.managed_cache as nat,
    ) + skip_part("container_storage"@, summary.container_storage as nat) + skip_part(
        "scan_error"@,
        summary.scan_error as nat,
    ) + skip_part("target_read_error"@, summary.target_read_error as nat)
}

/// The line of the reasons for skipping, if anything is skipped.
pub open spec fn breakdown_lines(summary: ReviewSummary) -> Seq<Seq<char>> {
    if summary.skipped_projects == 0 || skip_parts(summary).len() == 0 {
        seq![]
    } else {
        seq![row("Skipped breakdown"@, joined_by(skip_parts(summary), ", "@))]
    }
}

fn push_part(parts: &mut Vec<String>, label: &str, count: usize)
    ensures
        texts(final(parts)@) == texts(old(parts)@) + skip_part(label@, count as nat),
{
    let ghost before = texts(parts@);
    if count > 0 {
        let mut part = label.to_owned();
        part.append("=");
        part.append(decimal_text(count as u128).as_str());
        let ghost shown = part@;
        parts.push(part);
        assert(texts(parts@) =~= before + seq![shown]);
    }
    assert(texts(parts@) =~= before + skip_part(label@, count as nat));
}

fn push_breakdown(lines: &mut Vec<String>, summary: &ReviewSummary)
    ensures
        texts(final(lines)@) == texts(old(lines)@) + breakdown_lines(*summary),
{
    let ghost start = texts(lines@);
    if summary.skipped_projects == 0 {
        assert(start + breakdown_lines(*summary) =~= start);
        return;
    }
    let mut parts: Vec<String> = Vec::new();
    assert(texts(parts@) =~= seq![]);
    push_part(&mut parts, "no_target", summary.no_target);
    push_part(&mut parts, "recent_write", summary.active_recent_write);
    push_part(&mut parts, "active_process", summary.active_process);
    push_part(&mut parts, "managed_cache", summary.managed_cache);
    push_part(&mut parts, "container_storage", summary.container_storage);
    push_part(&mut parts, "scan_error", summary.scan_error);
    push_part(&mut parts, "target_read_error", summary.target_read_error);
    assert(texts(parts@) =~= skip_parts(*summary));
    assert(texts(parts@).len() == parts@.len());
    if parts.len() > 0 {
        push_row(lines, "Skipped breakdown", join_texts(&parts, ", ").as_str());
    }
    assert(texts(lines@) =~= start + breakdown_lines(*summary));
}

/// The lines of a summary: its counts and the reasons for skipping.
pub fn summary_lines(summary: &ReviewSummary, bytes: &str) -> (lines: Vec<String>)
    ensures
        texts(lines@) == count_lines(*summary, bytes@) + breakdown_lines(*summary),
{
    let mut lines: Vec<String> = Vec::new();
    assert(texts(lines@) =~= seq![]);
    push_counts(&mut lines, summary, bytes);
    push_breakdown(&mut lines, summary);
    assert(texts(lines@) =~= count_lines(*summary, bytes@) + breakdown_lines(*summary));
    lines
}

/// The lines of the last review of all projects.
pub open spec fn status_lines(status: ReviewStatus, bytes: Seq<char>, now: int) -> Seq<Seq<char>> {
    seq![
        row("Last review"@, span_words(age(status.reviewed_at@, now)) + " ago"@),
        row("Source"@, source_words(status.source@)),
    ] + count_lines(status.summary, bytes) + breakdown_lines(status.summary)
}

/// The lines of the last review of all projects.
pub fn review_status_lines(status: &ReviewStatus, bytes: &str, now: SystemTime) -> (lines: Vec<String>)
    ensures
        texts(lines@) == status_lines(*status, bytes@, now@),
{
    let mut lines: Vec<String> = Vec::new();
    assert(texts(lines@) =~= seq![]);
    push_row(&mut lines, "Last review", age_words(status.reviewed_at, now).as_str());
    push_row(&mut lines, "Source", review_source_label(status.source.as_str()).as_str());
    push_counts(&mut lines, &status.summary, bytes);
    push_breakdown(&mut lines, &status.summary);
    assert(texts(lines@) =~= status_lines(*status, bytes@, now@));
    lines
}

/// The line of a review.
pub open spec fn review_line(review: ProjectReview) -> Seq<char> {
    decision_words(review.decision) + "\t"@ + class_words(review.class) + "\t"@ + decimal(review.target_bytes as nat)
        + "\t"@ + lossy_chars(review.path@)
}

/// The lines of reviews.
pub fn review_lines(reviews: &Vec<ProjectReview>) -> (lines: Vec<String>)
    ensures
        texts(lines@) == reviews@.map_values(|review: ProjectReview| review_line(review)),
{
    let ghost all = reviews@.map_values(|review: ProjectReview| review_line(review));
    let mut lines: Vec<String> = Vec::new();
    let mut i: usize = 0;
    assert(texts(lines@) =~= all.take(0));
    while i < reviews.len()
        invariant
            i <= reviews.len(),
            all == reviews@.map_values(|review: ProjectReview| review_line(review)),
            texts(lines@) == all.take(i as int),
        decreases reviews.len() - i,
    {
        let review = &reviews[i];
        let mut line = decision_label(review.decision).to_owned();
        line.append("\t");
        line.append(class_label(review.class));
        line.append("\t");
        line.append(decimal_text(review.target_bytes as u128).as_str());
        line.append("\t");
        line.append(review.path.to_string_lossy().as_str());
        assert(line@ == all[i as int]);
        let ghost shown = line@;
        push_line(&mut lines, line);
        i += 1;
        assert(all.take(i as int) =~= all.take(i - 1).push(shown));
    }
    assert(all.take(i as int) =~= all);
    lines
}

/// The line of a target that would be cleaned.
pub open spec fn target_line(review: ProjectReview) -> Seq<char> {
    "  "@ + decimal(review.target_bytes as nat) + "\t"@ + lossy_chars(review.target_path@) + "\t"@ + lossy_chars(
        review.path@,
    )
}

/// The lines of targets that would be cleaned.
pub open spec fn target_lines(reviews: Seq<ProjectReview>) -> Seq<Seq<char>> {
    reviews.map_values(|review: ProjectReview| target_line(review))
}

/// The lines of the targets that would be cleaned: the first of them, or all, and how to
/// see the others.
pub open spec fn preview_lines(reviews: Seq<ProjectReview>, limit: nat, all: bool) -> Seq<Seq<char>> {
    let cleanable = reviews.filter(|review: ProjectReview| is_cleanable(review));
    if cleanable.len() == 0 {
        seq![]
    } else {
        let shown = if all || cleanable.len() <= limit {
            cleanable.len()
        } else {
            limit
        };
        seq!["Cleanable target preview:"@] + target_lines(cleanable.take(shown as int)) + (if shown
            < cleanable.len() {
            seq![
                "Use `projects --all` to show all "@ + decimal(reviews.len()) + " rows."@,
                "Use `run --dry-run --all` to show all cleanable targets."@,
            ]
        } else {
            seq![]
        })
    }
}

/// The lines of the targets that would be cleaned.
pub fn cleanable_target_preview(reviews: &Vec<ProjectReview>, limit: usize, all: bool) -> (lines: Vec<String>)
    ensures
        texts(lines@) == preview_lines(reviews@, limit as nat, all),
{
    let ghost keep = |review: ProjectReview| is_cleanable(review);
    let ghost cleanable = reviews@.filter(keep);
    let mut total: usize = 0;
    let mut shown: usize = 0;
    let mut lines: Vec<String> = Vec::new();
    push_line(&mut lines, "Cleanable target preview:".to_owned());
    let ghost head = seq!["Cleanable target preview:"@];
    assert(texts(lines@) =~= head);
    let mut i: usize = 0;
    proof {
        reveal(Seq::filter);
        assert(reviews@.take(0).filter(keep) =~= Seq::empty());
        assert(head + target_lines(Seq::empty()) =~= head);
    }
    while i < reviews.len()
        invariant
            shown <= total <= i <= reviews.len(),
            keep == (|review: ProjectReview| is_cleanable(review)),
            head == seq!["Cleanable target preview:"@],
            total == reviews@.take(i as int).filter(keep).len(),
            shown == (if all || total <= limit {
                total
            } else {
                limit
            }),
            texts(lines@) == head + target_lines(reviews@.take(i as int).filter(keep).take(shown as int)),
        decreases reviews.len() - i,
    {
        let ghost before = reviews@.take(i as int).filter(keep);
        let ghost now = reviews@.take(i + 1).filter(keep);
        proof {
            reveal(Seq::filter);
            assert(reviews@.take(i + 1).drop_last() =~= reviews@.take(i as int));
            assert(reviews@.take(i + 1).last() == reviews@[i as int]);
        }
        let review = &reviews[i];
        if review.decision == CleanDecision::Cleanable {
            assert(now == before.push(*review));
            if all || total < limit {
                let mut line = "  ".to_owned();
                line.append(decimal_text(review.target_bytes as u128).as_str());
                line.append("\t");
                line.append(review.target_path.to_string_lossy().as_str());
                line.append("\t");
                line.append(review.path.to_string_lossy().as_str());
                assert(line@ == target_line(*review));
                push_line(&mut lines, line);
                proof {
                    assert(before.take(shown as int) =~= before);
                    assert(now.take(shown + 1) =~= now);
                    assert(target_lines(now) =~= target_lines(before).push(target_line(*review)));
                    assert((head + target_lines(before)).push(target_line(*review)) =~= head + target_lines(now));
                }
                shown += 1;
            } else {
                assert(now.take(shown as int) =~= before.take(shown as int));
            }
            total += 1;
        } else {
            assert(now == before);
        }
        i += 1;
    }
    proof {
        assert(reviews@.take(i as int) =~= reviews@);
    }
    if total == 0 {
        let none: Vec<String> = Vec::new();
        assert(texts(none@) =~= seq![]);
        return none;
    }
    if shown < total {
        let mut line = "Use `projects --all` to show all ".to_owned();
        line.append(decimal_text(reviews.len() as u128).as_str());
        line.append(" rows.");
        push_line(&mut lines, line);
        push_line(&mut lines, "Use `run --dry-run --all` to show all cleanable targets.".to_owned());
    }
    assert(texts(lines@) =~= preview_lines(reviews@, limit as nat, all));
    lines
}

} // verus!
