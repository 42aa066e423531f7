//! What is shown of the authority, of the service and of reviews.

use crate::cli::authority::{
    authority_of, open_origins, shown_root, shown_service, state_label, GenerationState, ShownService,
};
use crate::cli::format::{age, grouped, schedule_words, signed_grouped, span_words};
use crate::cli::reviews::{batch_recorded, class_words, decision_words, problems_recorded, skip_parts};
use crate::cli::runs::{generation_or, plan_generation, prior_outcome, prior_problems, prior_reasons, ScanExecution};
use crate::cli::{schedule_lines, top_lines};
use crate::daemon::run::decision_recorded;
use crate::environment::Environment;
use crate::outcome::CommandOutcome;
use crate::path::path_views;
use crate::policy::{ProtectedRootKind, ProvenanceView, RootView, ScopePolicy};
use crate::safety::{CleanDecision, ProjectClass, ProjectReview, ReviewSummary, SkipReason};
use crate::service::manager::{installed_values, roots_of, same_roots, ManagerView};
use crate::service::{captured, ServiceStatus};
use crate::store::codec::{class_label, reason_label};
use crate::store::generations::{current_generation_of, origins_of};
use crate::store::history::{limits_coverage, scan_error_texts};
use crate::store::rows::{ErrorModel, ProjectBytes, SchedulerStatus};
use crate::store::table::some_row;
use crate::store::{epoch_of, StoreModel};
use crate::text::{decimal, signed_decimal};
use vstd::prelude::*;
use vstd::utf8::*;

verus! {

// --------------------------------------------------------------------- service

/// What is shown of the service is its status as it was found; where that could not be
/// found, nothing is claimed of it, and there is a warning.
pub proof fn services_are_shown_as_found<E: Environment>(
    home_known: bool,
    manager: Option<ManagerView>,
    status: Result<ServiceStatus, Seq<char>>,
    definition: Result<Option<Seq<char>>, Seq<char>>,
    environment: &E,
)
    ensures
        ({
            let (service, divergence) = shown_service(home_known, manager, status, definition, environment);
            &&& home_known && manager is Some && status is Ok ==> service.installed == Some(status->Ok_0.installed)
                && service.enabled == Some(status->Ok_0.enabled) && service.running == Some(status->Ok_0.active)
            &&& !(home_known && manager is Some && status is Ok) ==> service.installed is None && service.enabled is None
                && service.running is None && service.protected_roots is None && service.warning is Some && divergence is None
            &&& home_known && manager is Some && status is Ok && definition is Err ==> (service.warning matches Some(warning)
                && warning.1 == definition->Err_0) && divergence is None
        }),
{
}

/// The service is shown to differ from the environment exactly if the roots that its
/// definition captured are not the ones that the environment gives.
pub proof fn services_differ_by_their_roots<E: Environment>(
    manager: ManagerView,
    status: ServiceStatus,
    definition: Option<Seq<char>>,
    environment: &E,
    values: Map<Seq<char>, Seq<u8>>,
)
    requires
        installed_values(manager, definition) == Ok::<_, crate::service::ServiceFault>(Some(values)),
    ensures
        ({
            let (service, divergence) = shown_service(
                true,
                Some(manager),
                Ok(status),
                Ok(definition),
                environment,
            );
            let roots = roots_of(manager.platform, values);
            &&& divergence == Some(!same_roots(roots, roots_of(manager.platform, captured(environment))))
            &&& service.protected_roots matches Some(shown) && shown.len() == roots.len() && forall|i: int|
                0 <= i < roots.len() ==> (#[trigger] shown[i]).path == roots[i].path
            &&& service.warning is None
        }),
{
}

// ------------------------------------------------------------------- authority

/// What is shown of the authority is that of the policy and of the store: the roots as
/// they really are, the valid discovery if there is one, its origins that were not read to
/// the end, and what errors since the given time left uncovered.
pub proof fn authority_is_shown_as_it_is(
    policy: &ScopePolicy,
    store: StoreModel,
    since: int,
    service: ShownService,
    divergence: Option<bool>,
    secs: i64,
)
    requires
        epoch_of(since) == Some(secs),
    ensures
        authority_of(policy, store, since, service, divergence) matches Ok(shown) && {
            let current = current_generation_of(store.discovery_generations, policy.hash@);
            &&& shown.config_source == policy.config_source@
            &&& shown.scan_dirs == path_views(policy.canonical_scan_roots@)
            &&& shown.project_dirs == path_views(policy.canonical_project_paths@)
            &&& shown.policy_hash == policy.hash@
            &&& shown.current_generation is Some <==> current is Some
            &&& current matches Some(row) ==> (shown.current_generation->0).0 == row.id && shown.incomplete_origins
                == open_origins(origins_of(store, row.id))
            &&& current is None ==> shown.incomplete_origins.len() == 0
            &&& shown.protected_roots.len() == policy.protected_roots@.len()
            &&& forall|i: int|
                0 <= i < policy.protected_roots@.len() ==> (#[trigger] shown.protected_roots[i]).path
                    == policy.protected_roots@[i].path@
            &&& shown.service == service
            &&& shown.service_environment_divergence == divergence
            &&& shown.scan_coverage_incomplete <==> exists|i: int|
                0 <= i < store.errors.len() && limits_coverage(store, secs, #[trigger] store.errors[i])
            &&& shown.scan_error_paths.len() == scan_error_texts(store, secs).len()
            &&& forall|i: int|
                0 <= i < scan_error_texts(store, secs).len() ==> shown.scan_error_paths[i] == encode_utf8(
                    #[trigger] scan_error_texts(store, secs)[i],
                )
        },
{
    let p = |row: ErrorModel| limits_coverage(store, secs, row);
    if some_row(store.errors, p) {
        let i = choose|i: int| 0 <= i < store.errors.len() && p(#[trigger] store.errors[i]);
        assert(limits_coverage(store, secs, store.errors[i]));
    }
    if exists|i: int| 0 <= i < store.errors.len() && limits_coverage(store, secs, #[trigger] store.errors[i]) {
        let i = choose|i: int| 0 <= i < store.errors.len() && limits_coverage(store, secs, #[trigger] store.errors[i]);
        assert(p(store.errors[i]));
    }
}

/// A protected root is shown with its path, by what it holds and by where it was named.
pub proof fn roots_are_shown_by_their_kind(root: RootView, name: Seq<char>)
    ensures
        shown_root(root).path == root.path,
        root.kind == ProtectedRootKind::Cargo ==> shown_root(root).kind == "cargo"@,
        root.kind == ProtectedRootKind::Rustup ==> shown_root(root).kind == "rustup"@,
        root.kind == ProtectedRootKind::GoModule ==> shown_root(root).kind == "go_module"@,
        root.kind == ProtectedRootKind::Bun ==> shown_root(root).kind == "bun"@,
        root.kind == ProtectedRootKind::ManagedCache ==> shown_root(root).kind == "managed_cache"@,
        root.kind == ProtectedRootKind::Container ==> shown_root(root).kind == "container"@,
        root.provenance == ProvenanceView::Environment(name) ==> shown_root(root).provenance == "environment:"@ + name,
        root.provenance == ProvenanceView::Default ==> shown_root(root).provenance == "default"@,
        state_label(GenerationState::Current) == "current"@,
        state_label(GenerationState::Invalid) == "invalid"@,
        state_label(GenerationState::Missing) == "missing"@,
{
}

// --------------------------------------------------------------------- reviews

/// A decision is told by the same words as it is stored under.
pub proof fn decisions_are_told_as_they_are_stored(decision: CleanDecision, class: ProjectClass)
    ensures
        decision == CleanDecision::Cleanable ==> decision_words(decision) == "cleanable"@,
        decision matches CleanDecision::Skipped(reason) ==> decision_words(decision) == "skipped:"@ + reason_label(reason),
        class_words(class) == class_label(class),
{
    reveal_strlit("skipped:");
    reveal_strlit("skipped:no_target");
    reveal_strlit("skipped:active_recent_write");
    reveal_strlit("skipped:active_process");
    reveal_strlit("skipped:managed_cache");
    reveal_strlit("skipped:container_storage");
    reveal_strlit("skipped:scan_error");
    reveal_strlit("skipped:target_read_error");
    reveal_strlit("skipped:invalid_manifest");
    reveal_strlit("skipped:project_identity_unavailable");
    reveal_strlit("skipped:target_identity_unavailable");
    reveal_strlit("skipped:cross_device_target");
    reveal_strlit("skipped:cross_mount_target");
    reveal_strlit("skipped:project_identity_changed");
    reveal_strlit("skipped:target_identity_changed");
    reveal_strlit("skipped:out_of_scope");
    reveal_strlit("skipped:excluded");
    reveal_strlit("no_target");
    reveal_strlit("active_recent_write");
    reveal_strlit("active_process");
    reveal_strlit("managed_cache");
    reveal_strlit("container_storage");
    reveal_strlit("scan_error");
    reveal_strlit("target_read_error");
    reveal_strlit("invalid_manifest");
    reveal_strlit("project_identity_unavailable");
    reveal_strlit("target_identity_unavailable");
    reveal_strlit("cross_device_target");
    reveal_strlit("cross_mount_target");
    reveal_strlit("project_identity_changed");
    reveal_strlit("target_identity_changed");
    reveal_strlit("out_of_scope");
    reveal_strlit("excluded");
    if let CleanDecision::Skipped(reason) = decision {
        assert(decision_words(decision) =~= "skipped:"@ + reason_label(reason));
    }
}

/// A decision is put down as an error exactly if the target could not be read, with the
/// target's path.
pub proof fn unreadable_targets_are_errors(store: StoreModel, review: ProjectReview, decision: CleanDecision, now: int)
    ensures
        decision != CleanDecision::Skipped(SkipReason::TargetReadError) ==> decision_recorded(store, review, decision, now)
            == Ok::<StoreModel, crate::store::StoreFault>(store),
        decision == CleanDecision::Skipped(SkipReason::TargetReadError) ==> (decision_recorded(
            store,
            review,
            decision,
            now,
        ) matches Ok(after) ==> after.errors.len() == store.errors.len() + 1 && after.errors.last().category == "review"@ && (
        valid_utf8(review.target_path@) ==> after.errors.last().path == Some(decode_utf8(review.target_path@)))),
{
}

/// The reviews whose targets could not be read are put down one by one, and no others.
pub proof fn unreadable_targets_are_counted(store: StoreModel, reviews: Seq<ProjectReview>, now: int)
    requires
        problems_recorded(store, reviews, now).1 is None,
    ensures
        problems_recorded(store, reviews, now).0.errors.len() == store.errors.len() + reviews.filter(
            |review: ProjectReview| review.decision == CleanDecision::Skipped(SkipReason::TargetReadError),
        ).len(),
        problems_recorded(store, reviews, now).0.clean_events == store.clean_events,
        problems_recorded(store, reviews, now).0.projects == store.projects,
    decreases reviews.len(),
{
    let p = |review: ProjectReview| review.decision == CleanDecision::Skipped(SkipReason::TargetReadError);
    reveal(Seq::filter);
    if reviews.len() > 0 {
        let front = reviews.drop_last();
        unreadable_targets_are_counted(store, front, now);
    }
}

/// A batch of reviews is put down with its summary, its time and where it came from.
pub proof fn batches_are_put_down(
    store: StoreModel,
    reviews: Seq<ProjectReview>,
    reviewed_at: int,
    source: Seq<char>,
    summary: ReviewSummary,
    recorded_at: int,
)
    requires
        batch_recorded(store, reviews, reviewed_at, source, summary, recorded_at).1 is None,
    ensures
        batch_recorded(store, reviews, reviewed_at, source, summary, recorded_at).0.review_status matches Some(status) && Some(
            status.reviewed_at,
        ) == epoch_of(reviewed_at) && status.source == source,
{
}

/// Every kind of skipped project that there is is named with its number.
pub proof fn skipped_projects_are_told_by_kind(summary: ReviewSummary)
    ensures
        summary.no_target > 0 ==> skip_parts(summary).contains("no_target"@ + "="@ + decimal(summary.no_target as nat)),
        summary.active_recent_write > 0 ==> skip_parts(summary).contains(
            "recent_write"@ + "="@ + decimal(summary.active_recent_write as nat),
        ),
        summary.active_process > 0 ==> skip_parts(summary).contains(
            "active_process"@ + "="@ + decimal(summary.active_process as nat),
        ),
        summary.managed_cache > 0 ==> skip_parts(summary).contains(
            "managed_cache"@ + "="@ + decimal(summary.managed_cache as nat),
        ),
        summary.container_storage > 0 ==> skip_parts(summary).contains(
            "container_storage"@ + "="@ + decimal(summary.container_storage as nat),
        ),
        summary.scan_error > 0 ==> skip_parts(summary).contains("scan_error"@ + "="@ + decimal(summary.scan_error as nat)),
        summary.target_read_error > 0 ==> skip_parts(summary).contains(
            "target_read_error"@ + "="@ + decimal(summary.target_read_error as nat),
        ),
        summary.no_target == 0 && summary.active_recent_write == 0 && summary.active_process == 0 && summary.managed_cache == 0
            && summary.container_storage == 0 && summary.scan_error == 0 && summary.target_read_error == 0 ==> skip_parts(
            summary,
        ).len() == 0,
{
    let a = crate::cli::reviews::skip_part("no_target"@, summary.no_target as nat);
    let b = crate::cli::reviews::skip_part("recent_write"@, summary.active_recent_write as nat);
    let c = crate::cli::reviews::skip_part("active_process"@, summary.active_process as nat);
    let d = crate::cli::reviews::skip_part("managed_cache"@, summary.managed_cache as nat);
    let e = crate::cli::reviews::skip_part("container_storage"@, summary.container_storage as nat);
    let f = crate::cli::reviews::skip_part("scan_error"@, summary.scan_error as nat);
    let g = crate::cli::reviews::skip_part("target_read_error"@, summary.target_read_error as nat);
    let ab = a + b;
    let abc = ab + c;
    let abcd = abc + d;
    let abcde = abcd + e;
    let abcdef = abcde + f;
    let parts = skip_parts(summary);
    assert(parts == abcdef + g);
    assert(a.len() > 0 ==> parts[0] == a[0]);
    assert(b.len() > 0 ==> parts[a.len() as int] == b[0]);
    assert(c.len() > 0 ==> parts[ab.len() as int] == c[0]);
    assert(d.len() > 0 ==> parts[abc.len() as int] == d[0]);
    assert(e.len() > 0 ==> parts[abcd.len() as int] == e[0]);
    assert(f.len() > 0 ==> parts[abcde.len() as int] == f[0]);
    assert(g.len() > 0 ==> parts[abcdef.len() as int] == g[0]);
}

// ------------------------------------------------------------------------ runs

/// A plan is made under the valid discovery of its policy.
pub proof fn plans_are_made_under_the_valid_discovery(store: StoreModel, hash: Seq<char>)
    ensures
        current_generation_of(store.discovery_generations, hash) matches Some(row) ==> plan_generation(store, hash) == row.id,
        current_generation_of(store.discovery_generations, hash) is None ==> plan_generation(store, hash) == -1,
{
}

/// A run takes over what the scan before it said, and nothing where there was none.
pub proof fn runs_take_over_what_the_scan_said(current: Option<i64>, scan: Option<ScanExecution>)
    ensures
        scan is None ==> prior_outcome(scan) == CommandOutcome::Complete && prior_reasons(scan) == Set::<Seq<char>>::empty()
            && prior_problems(scan).len() == 0 && generation_or(current, scan) == current,
        scan matches Some(execution) ==> prior_outcome(scan) == execution.status.spec_outcome() && prior_reasons(scan)
            == execution.status.reason_set() && prior_problems(scan).len() == execution.scan_errors@.len(),
        current is Some ==> generation_or(current, scan) == current,
        current is None ==> (scan matches Some(execution) ==> generation_or(current, scan) == Some(execution.generation)),
{
}

/// A number below zero is told with a sign before its digits.
pub proof fn signed_numbers_are_told_with_their_sign(n: int)
    ensures
        n >= 0 ==> signed_decimal(n) == decimal(n as nat) && signed_grouped(n) == grouped(n as nat),
        n < 0 ==> signed_decimal(n) == seq!['-'] + decimal((-n) as nat) && signed_grouped(n) == "-"@ + grouped((-n) as nat),
{
}

// ------------------------------------------------------------------ statistics

/// The projects that gave back the most are told one to a line, with their place, their
/// path and their bytes.
pub proof fn top_projects_are_told_with_their_bytes(projects: Seq<ProjectBytes>, i: int)
    requires
        0 <= i < projects.len(),
    ensures
        top_lines(projects).len() == projects.len(),
        ("  "@ + decimal((i + 1) as nat) + ". "@ + projects[i].path@).is_prefix_of(top_lines(projects)[i]),
        (signed_decimal(projects[i].bytes as int) + " bytes"@).is_suffix_of(top_lines(projects)[i]),
{
    let line = top_lines(projects)[i];
    let head = "  "@ + decimal((i + 1) as nat) + ". "@ + projects[i].path@;
    let end = signed_decimal(projects[i].bytes as int) + " bytes"@;
    assert(head =~= line.subrange(0, head.len() as int));
    assert(end =~= line.subrange(line.len() - end.len(), line.len() as int));
}

/// What is told of the schedule: the intervals, and where it is on record when it was
/// written, when the next cleanup and when the next scan is due.
pub proof fn schedules_are_told(clean_interval: nat, scan_interval: nat, status: SchedulerStatus, now: int)
    ensures
        ({
            let lines = schedule_lines(clean_interval, scan_interval, Some(status), now);
            &&& lines.len() == 5
            &&& span_words(clean_interval).is_suffix_of(lines[0])
            &&& span_words(scan_interval).is_suffix_of(lines[1])
            &&& (span_words(age(status.updated_at@, now)) + " ago"@).is_suffix_of(lines[2])
            &&& "  Next scheduled clean: "@.is_prefix_of(lines[3]) && schedule_words(status.next_clean_at@, now).is_suffix_of(
                lines[3],
            )
            &&& "  Next scheduled scan: "@.is_prefix_of(lines[4]) && schedule_words(status.next_scan_at@, now).is_suffix_of(
                lines[4],
            )
        }),
{
    let lines = schedule_lines(clean_interval, scan_interval, Some(status), now);
    lemma_suffix(lines[0], span_words(clean_interval));
    lemma_suffix(lines[1], span_words(scan_interval));
    lemma_suffix(lines[2], span_words(age(status.updated_at@, now)) + " ago"@);
    lemma_suffix(lines[3], schedule_words(status.next_clean_at@, now));
    lemma_suffix(lines[4], schedule_words(status.next_scan_at@, now));
    reveal_strlit("  ");
    reveal_strlit(": ");
    reveal_strlit("Next scheduled clean");
    reveal_strlit("Next scheduled scan");
    reveal_strlit("  Next scheduled clean: ");
    reveal_strlit("  Next scheduled scan: ");
    assert("  Next scheduled clean: "@ =~= lines[3].subrange(0, "  Next scheduled clean: "@.len() as int));
    assert("  Next scheduled scan: "@ =~= lines[4].subrange(0, "  Next scheduled scan: "@.len() as int));
}

proof fn lemma_suffix(line: Seq<char>, end: Seq<char>)
    requires
        line.len() >= end.len(),
        line.subrange(line.len() - end.len(), line.len() as int) =~= end,
    ensures
        end.is_suffix_of(line),
{
}

} // verus!
