//! What is kept of worktrees, of the repositories that could not be asked for them, and of
//! plans.

use crate::order::{path_rank, sorted_distinct};
use crate::path::{path_views, same_path};
use crate::policy::Exclusions;
use crate::resolve::{physical_path, Finding, Resolved};
use crate::safety::ProjectReview;
use crate::store::blocking::{
    active_texts, blocked_paths, fail_closed_paths, failed_links, is_blocked, paths_of, removal_of, replacements_of,
    trusted_texts,
};
use crate::store::codec::{review_of_columns, target_is_read_back};
use crate::store::history::error_row;
use crate::store::laws::{is_in_force, newest_generation_is_the_greatest};
use crate::store::plans::{
    all_storable, is_current, keys_of, load_of, new_plan, newer, newer_count, newest_generation, plan_key, plan_with_id, pruned, rests_on_current,
    retained, LoadModel,
};
use crate::store::projects::projects_by_path;
use crate::store::publication::{changes_applied, changes_of, errors_recorded, scan_published, times_storable, WorktreeChange};
use crate::store::rows::{
    ErrorRecord, FailureModel, GenerationModel, LinkedModel, PlanModel, ProjectModel, ScanPublication,
    WorktreeReconciliation,
};
use crate::store::sorting::chosen_rows_have_the_property;
use crate::store::table::{picked, picked_are_of_rows, some_row};
use crate::store::worktrees::{
    has_untrusted_failure, lemma_links_added, links_added, same_link, text_set, text_set_holds, with_failure,
    with_worktrees, worktrees_replaced, NewFailureModel, SuccessModel,
};
use crate::store::{epoch_of, time_of, StoreFault, StoreModel};
use vstd::prelude::*;
use vstd::utf8::*;

verus! {

// -------------------------------------------------------------------- worktrees

/// A repository that could not be asked is on record with when and what was said, once;
/// nothing else changes.
pub proof fn failures_are_put_down(store: StoreModel, failure: NewFailureModel)
    ensures
        ({
            let rows = store.worktree_discovery_failures;
            let after = with_failure(store, failure).worktree_discovery_failures;
            &&& exists|i: int|
                0 <= i < after.len() && (#[trigger] after[i]).primary == failure.primary && after[i].failed_at
                    == failure.failed_at && after[i].message == failure.message
            &&& forall|i: int| 0 <= i < rows.len() && (#[trigger] rows[i]).primary != failure.primary ==> after[i] == rows[i]
            &&& forall|i: int|
                0 <= i < rows.len() && (#[trigger] rows[i]).primary == failure.primary ==> after[i].canonical_primary
                    == rows[i].canonical_primary
            &&& (forall|i: int| 0 <= i < rows.len() ==> (#[trigger] rows[i]).primary != failure.primary) ==> after
                == rows.push(
                FailureModel {
                    primary: failure.primary,
                    failed_at: failure.failed_at,
                    message: failure.message,
                    canonical_primary: failure.canonical_primary,
                },
            )
            &&& (StoreModel { worktree_discovery_failures: rows, ..with_failure(store, failure) }) == store
        }),
{
    let rows = store.worktree_discovery_failures;
    let key = |row: FailureModel| row.primary == failure.primary;
    let after = with_failure(store, failure).worktree_discovery_failures;
    if some_row(rows, key) {
        let i = choose|i: int| 0 <= i < rows.len() && key(#[trigger] rows[i]);
        assert(after[i].primary == failure.primary);
    } else {
        assert forall|i: int| 0 <= i < rows.len() implies (#[trigger] rows[i]).primary != failure.primary by {
            assert(!key(rows[i]));
        }
        assert(after[rows.len() as int].primary == failure.primary);
    }
    if forall|i: int| 0 <= i < rows.len() ==> (#[trigger] rows[i]).primary != failure.primary {
        if some_row(rows, key) {
            let i = choose|i: int| 0 <= i < rows.len() && key(#[trigger] rows[i]);
            assert(rows[i].primary == failure.primary);
        }
    }
}

/// A project is taken off the record because of what a repository says of its worktrees
/// exactly if it is one of those that are excluded or out of scope, or was one of its
/// worktrees and is none any more; every other project stays as it was.
pub proof fn former_worktrees_are_forgotten(store: StoreModel, success: SuccessModel, row: ProjectModel)
    requires
        !has_untrusted_failure(store.worktree_discovery_failures),
    ensures
        worktrees_replaced(store, success).projects.contains(row) <==> store.projects.contains(row)
            && !success.excluded.contains(row.path) && !success.out_of_scope.contains(row.path) && (success.linked.contains(
            row.path,
        ) || forall|i: int|
            0 <= i < store.linked_worktrees.len() ==> !((#[trigger] store.linked_worktrees[i]).canonical_primary == Some(
                success.primary,
            ) && store.linked_worktrees[i].linked == row.path)),
{
    let p = |row: ProjectModel| !crate::store::worktrees::project_gone(store.linked_worktrees, success, row.path);
    chosen_rows_have_the_property(store.projects, p);
    let links = store.linked_worktrees;
    let linked = |link: LinkedModel| link.canonical_primary == Some(success.primary) && link.linked == row.path;
    assert(worktrees_replaced(store, success).projects.contains(row) <==> store.projects.contains(row) && p(row));
    if some_row(links, linked) {
        let i = choose|i: int| 0 <= i < links.len() && linked(#[trigger] links[i]);
        assert(links[i].canonical_primary == Some(success.primary));
    } else {
        assert forall|i: int| 0 <= i < links.len() implies !((#[trigger] links[i]).canonical_primary == Some(
            success.primary,
        ) && links[i].linked == row.path) by {
            assert(!linked(links[i]));
        }
    }
}

/// What is on record of a repository's worktrees is replaced by what it says now: each
/// worktree is there, no former one is, and the worktrees of other repositories stay.
pub proof fn worktrees_are_replaced(store: StoreModel, success: SuccessModel)
    requires
        !has_untrusted_failure(store.worktree_discovery_failures),
        success.canonical_primary == Some(success.primary),
    ensures
        ({
            let after = worktrees_replaced(store, success).linked_worktrees;
            &&& forall|k: int|
                0 <= k < success.linked.len() ==> exists|i: int|
                    0 <= i < after.len() && (#[trigger] after[i]).primary == success.primary && after[i].linked
                        == #[trigger] success.linked[k]
            &&& forall|i: int|
                0 <= i < after.len() && (#[trigger] after[i]).canonical_primary == Some(success.primary)
                    ==> success.linked.contains(after[i].linked)
            &&& forall|row: LinkedModel|
                row.canonical_primary != Some(success.primary) ==> (#[trigger] after.contains(row)
                    <==> store.linked_worktrees.contains(row))
        }),
{
    let keep = |row: LinkedModel| row.canonical_primary != Some(success.primary);
    let kept = store.linked_worktrees.filter(keep);
    let make = |linked: Seq<char>|
        LinkedModel { primary: success.primary, linked, canonical_primary: success.canonical_primary };
    let new = success.linked.map_values(make);
    let after = worktrees_replaced(store, success).linked_worktrees;
    assert(after == links_added(kept, new));
    lemma_links_added(kept, new);
    chosen_rows_have_the_property(store.linked_worktrees, keep);
    assert forall|k: int| 0 <= k < success.linked.len() implies exists|i: int|
        0 <= i < after.len() && (#[trigger] after[i]).primary == success.primary && after[i].linked
            == #[trigger] success.linked[k] by {
        let p = |row: LinkedModel| same_link(row, new[k]);
        assert(some_row(after, p));
        let i = choose|i: int| 0 <= i < after.len() && p(#[trigger] after[i]);
        assert(after[i].linked == new[k].linked);
    }
    assert forall|i: int| 0 <= i < after.len() && (#[trigger] after[i]).canonical_primary == Some(
        success.primary,
    ) implies success.linked.contains(after[i].linked) by {
        if i < kept.len() {
            assert(after[i] == kept[i]);
            assert(kept.contains(kept[i]));
        } else {
            let k = choose|k: int| 0 <= k < new.len() && new[k] == after[i];
            assert(success.linked[k] == after[i].linked);
        }
    }
    assert forall|row: LinkedModel| row.canonical_primary != Some(success.primary) implies (#[trigger] after.contains(row)
        <==> store.linked_worktrees.contains(row)) by {
        if store.linked_worktrees.contains(row) {
            assert(kept.contains(row));
            let k = choose|k: int| 0 <= k < kept.len() && kept[k] == row;
            assert(after[k] == row);
        }
        if after.contains(row) {
            let i = choose|i: int| 0 <= i < after.len() && after[i] == row;
            if i < kept.len() {
                assert(after[i] == kept[i]);
                assert(kept.contains(row));
            } else {
                let k = choose|k: int| 0 <= k < new.len() && new[k] == after[i];
                assert(new[k].canonical_primary == Some(success.primary));
            }
        }
    }
}

/// While a repository could not be asked and it is not known where it really is, what
/// another says of its worktrees changes nothing.
pub proof fn unattributed_failures_hold_everything(store: StoreModel, success: SuccessModel, i: int)
    requires
        0 <= i < store.worktree_discovery_failures.len(),
        store.worktree_discovery_failures[i].canonical_primary is None,
    ensures
        worktrees_replaced(store, success) == store,
{
    let p = |row: FailureModel| row.canonical_primary is None;
    assert(p(store.worktree_discovery_failures[i]));
}

// --------------------------------------------------------------------- blocking

/// Where every repository could be asked, nothing is blocked.
pub proof fn nothing_is_blocked_without_failures(store: StoreModel, known: Map<Seq<u8>, Resolved>)
    requires
        store.worktree_discovery_failures.len() == 0,
    ensures
        blocked_paths(store, known) == Finding::Known(Seq::<Seq<u8>>::empty()),
{
    let failures = store.worktree_discovery_failures;
    let list = trusted_texts(store);
    assert(picked(failures, |row: FailureModel| row.canonical_primary) =~= Seq::empty());
    let g = |row: LinkedModel|
        if crate::store::blocking::link_failed(failures, row) {
            Some(row.linked)
        } else {
            None
        };
    picked_are_of_rows(store.linked_worktrees, g);
    assert(failed_links(store).len() == 0) by {
        if failed_links(store).len() > 0 {
            let i = choose|i: int|
                0 <= i < store.linked_worktrees.len() && g(#[trigger] store.linked_worktrees[i]) == Some(
                    failed_links(store)[0],
                );
            assert(crate::store::blocking::link_failed(failures, store.linked_worktrees[i]));
        }
    }
    assert(list =~= Seq::empty());
    let set = text_set(list);
    assert(set.len() == 0) by {
        if set.len() > 0 {
            text_set_holds(list, set[0]);
            assert(set.contains(set[0]));
        }
    }
    assert(paths_of(set) =~= Seq::empty());
}

/// Where it is not known which checkouts a failure concerns, every project on record is
/// blocked.
pub proof fn unattributed_failures_block_every_project(store: StoreModel, known: Map<Seq<u8>, Resolved>, i: int, k: int)
    requires
        0 <= i < store.worktree_discovery_failures.len(),
        store.worktree_discovery_failures[i].canonical_primary is None,
        0 <= k < store.projects.len(),
    ensures
        blocked_paths(store, known) matches Finding::Known(blocked) && is_blocked(
            blocked,
            encode_utf8(store.projects[k].path),
        ),
{
    let p = |row: FailureModel| row.canonical_primary is None;
    assert(p(store.worktree_discovery_failures[i]));
    lemma_projects_are_closed(store, k);
}

/// The same holds while a repository could not be asked and it is not known where the
/// repository of a worktree on record really lies.
pub proof fn unattributed_worktrees_block_every_project(store: StoreModel, known: Map<Seq<u8>, Resolved>, i: int, k: int)
    requires
        store.worktree_discovery_failures.len() > 0,
        0 <= i < store.linked_worktrees.len(),
        store.linked_worktrees[i].canonical_primary is None,
        0 <= k < store.projects.len(),
    ensures
        blocked_paths(store, known) matches Finding::Known(blocked) && is_blocked(
            blocked,
            encode_utf8(store.projects[k].path),
        ),
{
    let p = |row: LinkedModel| row.canonical_primary is None;
    assert(p(store.linked_worktrees[i]));
    lemma_projects_are_closed(store, k);
}

/// The same holds while a checkout that a failure concerns does not stand where it did.
pub proof fn moved_checkouts_block_every_project(store: StoreModel, known: Map<Seq<u8>, Resolved>, text: Seq<char>, k: int)
    requires
        trusted_texts(store).contains(text),
        blocked_paths(store, known) is Known,
        !(physical_path(known, encode_utf8(text)) matches Finding::Known(Some(physical)) && same_path(
            physical,
            encode_utf8(text),
        )),
        0 <= k < store.projects.len(),
    ensures
        is_blocked(blocked_paths(store, known)->Known_0, encode_utf8(store.projects[k].path)),
{
    let set = text_set(trusted_texts(store));
    text_set_holds(trusted_texts(store), text);
    let n = choose|n: int| 0 <= n < set.len() && set[n] == text;
    assert(paths_of(set)[n] == encode_utf8(text));
    lemma_not_all_physical(known, paths_of(set), n);
    lemma_projects_are_closed(store, k);
}

proof fn lemma_not_all_physical(known: Map<Seq<u8>, Resolved>, paths: Seq<Seq<u8>>, n: int)
    requires
        0 <= n < paths.len(),
        !(physical_path(known, paths[n]) matches Finding::Known(Some(physical)) && same_path(physical, paths[n])),
    ensures
        crate::store::blocking::all_physical(known, paths) != Finding::<bool>::Known(true),
    decreases paths.len(),
{
    if n > 0 {
        assert(paths.drop_first()[n - 1] == paths[n]);
        lemma_not_all_physical(known, paths.drop_first(), n - 1);
    }
}

proof fn lemma_projects_are_closed(store: StoreModel, k: int)
    requires
        0 <= k < store.projects.len(),
    ensures
        is_blocked(fail_closed_paths(store), encode_utf8(store.projects[k].path)),
{
    let rank = |row: ProjectModel| crate::order::text_rank(row.path);
    let sorted = projects_by_path(store.projects);
    crate::order::sorted_distinct_holds(store.projects, rank);
    assert(crate::order::has_key_by(sorted, rank(store.projects[k]), rank));
    let j = choose|j: int| 0 <= j < sorted.len() && rank(#[trigger] sorted[j]) == rank(store.projects[k]);
    crate::order::text_rank_is_text_equality(sorted[j].path, store.projects[k].path);
    let active = paths_of(text_set(active_texts(store)));
    let trusted = paths_of(text_set(trusted_texts(store)));
    let projects = paths_of(sorted.map_values(|row: ProjectModel| row.path));
    let all = active + trusted + projects;
    let path = encode_utf8(store.projects[k].path);
    assert(all[active.len() + trusted.len() + j] == path);
    let by_path = |path: Seq<u8>| path_rank(path);
    crate::order::sorted_distinct_holds(all, by_path);
    let closed = sorted_distinct(all, by_path);
    assert(crate::order::has_key_by(closed, by_path(all[active.len() + trusted.len() + j]), by_path));
    let m = choose|m: int| 0 <= m < closed.len() && by_path(#[trigger] closed[m]) == by_path(path);
    crate::order::path_rank_is_path_equality(closed[m], path);
}

/// Where every failure is attributed and all that it concerns stands where it did, nothing
/// but the failed checkouts and their worktrees is blocked.
pub proof fn attributed_failures_block_no_more(store: StoreModel, known: Map<Seq<u8>, Resolved>, path: Seq<u8>)
    requires
        !crate::store::blocking::unattributed(store),
        crate::store::blocking::all_physical(known, paths_of(text_set(trusted_texts(store)))) == Finding::<bool>::Known(true),
        blocked_paths(store, known) matches Finding::Known(blocked) && blocked.contains(path),
    ensures
        (exists|i: int|
            0 <= i < store.worktree_discovery_failures.len() && ((
            #[trigger] store.worktree_discovery_failures[i]).canonical_primary matches Some(text) && encode_utf8(text) == path))
            || (exists|i: int|
            0 <= i < store.linked_worktrees.len() && encode_utf8((#[trigger] store.linked_worktrees[i]).linked) == path
                && store.linked_worktrees[i].canonical_primary is Some && exists|k: int|
                0 <= k < store.worktree_discovery_failures.len() && (
                #[trigger] store.worktree_discovery_failures[k]).canonical_primary == store.linked_worktrees[i].canonical_primary),
{
    let failures = store.worktree_discovery_failures;
    let links = store.linked_worktrees;
    let set = text_set(trusted_texts(store));
    let blocked = paths_of(set);
    let n = choose|n: int| 0 <= n < blocked.len() && blocked[n] == path;
    text_set_holds(trusted_texts(store), set[n]);
    assert(set.contains(set[n]));
    let of_failure = |row: FailureModel| row.canonical_primary;
    let of_link = |row: LinkedModel|
        if crate::store::blocking::link_failed(failures, row) {
            Some(row.linked)
        } else {
            None
        };
    let first = picked(failures, of_failure);
    let second = picked(links, of_link);
    picked_are_of_rows(failures, of_failure);
    picked_are_of_rows(links, of_link);
    assert(trusted_texts(store) == first + second);
    let m = choose|m: int| 0 <= m < (first + second).len() && (first + second)[m] == set[n];
    if m < first.len() {
        let i = choose|i: int| 0 <= i < failures.len() && of_failure(#[trigger] failures[i]) == Some(first[m]);
        assert(failures[i].canonical_primary == Some(set[n]));
    } else {
        let i = choose|i: int| 0 <= i < links.len() && of_link(#[trigger] links[i]) == Some(second[m - first.len()]);
        let q = |failure: FailureModel| failure.canonical_primary == links[i].canonical_primary;
        assert(some_row(failures, q));
        let k = choose|k: int| 0 <= k < failures.len() && q(#[trigger] failures[k]);
        assert(failures[k].canonical_primary == links[i].canonical_primary);
    }
}

// ------------------------------------------------------------------------ paths

/// A path on record is replaced exactly if it is not held by a failure and really lies
/// elsewhere, and then by where it really lies.
pub proof fn moved_paths_are_replaced(known: Map<Seq<u8>, Resolved>, frozen: Seq<Seq<char>>, identities: Seq<Seq<char>>)
    requires
        replacements_of(known, frozen, identities) is Ok,
    ensures
        forall|i: int|
            0 <= i < identities.len() && !frozen.contains(#[trigger] identities[i]) ==> (physical_path(
                known,
                encode_utf8(identities[i]),
            ) matches Finding::Known(Some(physical)) ==> (decode_utf8(physical) != identities[i] ==> replacements_of(
                known,
                frozen,
                identities,
            )->Ok_0.contains((identities[i], decode_utf8(physical))))),
        forall|k: int|
            0 <= k < replacements_of(known, frozen, identities)->Ok_0.len() ==> {
                let pair = #[trigger] replacements_of(known, frozen, identities)->Ok_0[k];
                &&& identities.contains(pair.0)
                &&& !frozen.contains(pair.0)
                &&& pair.0 != pair.1
                &&& physical_path(known, encode_utf8(pair.0)) matches Finding::Known(Some(physical))
                &&& valid_utf8(physical) && decode_utf8(physical) == pair.1
            },
    decreases identities.len(),
{
    let all = replacements_of(known, frozen, identities)->Ok_0;
    if identities.len() > 0 {
        let front = identities.drop_last();
        let list = replacements_of(known, frozen, front)->Ok_0;
        moved_paths_are_replaced(known, frozen, front);
        assert forall|i: int| 0 <= i < identities.len() && !frozen.contains(#[trigger] identities[i]) implies (physical_path(
            known,
            encode_utf8(identities[i]),
        ) matches Finding::Known(Some(physical)) ==> (decode_utf8(physical) != identities[i] ==> all.contains(
            (identities[i], decode_utf8(physical)),
        ))) by {
            if let Finding::Known(Some(physical)) = physical_path(known, encode_utf8(identities[i])) {
                if decode_utf8(physical) != identities[i] {
                    if i < front.len() {
                        assert(front[i] == identities[i]);
                        let pair = (identities[i], decode_utf8(physical));
                        let k = choose|k: int| 0 <= k < list.len() && list[k] == pair;
                        assert(all[k] == pair);
                    } else {
                        assert(all[list.len() as int] == (identities[i], decode_utf8(physical)));
                    }
                }
            }
        }
        assert forall|k: int| 0 <= k < all.len() implies {
            let pair = #[trigger] all[k];
            &&& identities.contains(pair.0)
            &&& !frozen.contains(pair.0)
            &&& pair.0 != pair.1
            &&& physical_path(known, encode_utf8(pair.0)) matches Finding::Known(Some(physical))
            &&& valid_utf8(physical) && decode_utf8(physical) == pair.1
        } by {
            if k < list.len() {
                assert(all[k] == list[k]);
                let i = choose|i: int| 0 <= i < front.len() && front[i] == list[k].0;
                assert(identities[i] == list[k].0);
            } else {
                assert(identities[identities.len() - 1] == identities.last());
            }
        }
    }
}

/// A row is removed because of an exclusion exactly if the exclusion covers its path, as
/// it is written or where it really lies; one that does not exist any more is removed if
/// it needs its path.
pub proof fn excluded_rows_are_removed<E: Exclusions>(
    exclusions: &E,
    known: Map<Seq<u8>, Resolved>,
    path: Seq<u8>,
    needs_path: bool,
)
    ensures
        exclusions.covers(path) ==> removal_of(exclusions, known, path, needs_path) == Ok::<bool, StoreFault>(true),
        !exclusions.covers(path) && known.dom().contains(path) ==> (known[path] matches Resolved::Physical(physical)
            ==> removal_of(exclusions, known, path, needs_path) == Ok::<bool, StoreFault>(exclusions.covers(physical))),
        !exclusions.covers(path) && known.dom().contains(path) && known[path] == Resolved::NotFound ==> removal_of(
            exclusions,
            known,
            path,
            needs_path,
        ) == Ok::<bool, StoreFault>(needs_path),
        !exclusions.covers(path) && known.dom().contains(path) && known[path] == Resolved::Failed ==> removal_of(
            exclusions,
            known,
            path,
            needs_path,
        ) is Err,
{
}

// ------------------------------------------------------------------ publication

/// What a scan met is put down one after the other, each with all that is said of it.
pub proof fn met_errors_are_put_down(store: StoreModel, errors: Seq<ErrorRecord>)
    requires
        times_storable(errors),
        errors_recorded(store, errors) is Ok,
    ensures
        ({
            let after = errors_recorded(store, errors)->Ok_0;
            &&& after.errors.len() == store.errors.len() + errors.len()
            &&& after.errors.take(store.errors.len() as int) == store.errors
            &&& forall|i: int|
                0 <= i < errors.len() ==> {
                    let row = after.errors[store.errors.len() + i];
                    &&& row.category == (#[trigger] errors[i]).category@
                    &&& row.message == errors[i].message@
                    &&& row.path == crate::store::rows::optional_text(errors[i].path)
                    &&& epoch_of(errors[i].ts@) == Some(row.ts)
                }
            &&& after.discovery_generations == store.discovery_generations
            &&& after.discovery_origins == store.discovery_origins
            &&& after.project_observations == store.project_observations
            &&& after.projects == store.projects
            &&& after.worktree_discovery_failures == store.worktree_discovery_failures
            &&& after.linked_worktrees == store.linked_worktrees
        }),
    decreases errors.len(),
{
    if errors.len() > 0 {
        let front = errors.drop_last();
        assert forall|i: int| 0 <= i < front.len() implies epoch_of((#[trigger] front[i]).ts@) is Some by {
            assert(front[i] == errors[i]);
        }
        met_errors_are_put_down(store, front);
        let before = errors_recorded(store, front)->Ok_0;
        let after = errors_recorded(store, errors)->Ok_0;
        let n = store.errors.len();
        assert(epoch_of(errors[errors.len() - 1].ts@) is Some);
        assert(after.errors == before.errors.push(
            error_row(errors.last(), before.next_error_id, epoch_of(errors.last().ts@)->0),
        ));
        assert(after.errors.take(n as int) =~= before.errors.take(n as int));
        assert forall|i: int| 0 <= i < errors.len() implies {
            let row = after.errors[n + i];
            &&& row.category == (#[trigger] errors[i]).category@
            &&& row.message == errors[i].message@
            &&& row.path == crate::store::rows::optional_text(errors[i].path)
            &&& epoch_of(errors[i].ts@) == Some(row.ts)
        } by {
            if i < front.len() {
                assert(front[i] == errors[i]);
                assert(after.errors[n + i] == before.errors[n + i]);
            }
        }
    } else {
        assert(store.errors.take(store.errors.len() as int) =~= store.errors);
    }
}

/// What repositories say is taken over one by one: a success as a success with its
/// worktrees, a failure as a failure with what was said.
pub proof fn answers_of_repositories_are_taken_over(
    known: Map<Seq<u8>, Resolved>,
    now: int,
    worktrees: Seq<WorktreeReconciliation>,
)
    requires
        changes_of(known, now, worktrees) is Ok,
    ensures
        changes_of(known, now, worktrees)->Ok_0.len() == worktrees.len(),
        forall|i: int|
            0 <= i < worktrees.len() ==> match #[trigger] worktrees[i] {
                WorktreeReconciliation::Success { primary, linked, excluded, out_of_scope } => changes_of(
                    known,
                    now,
                    worktrees,
                )->Ok_0[i] matches WorktreeChange::Success(success) && success.linked == text_set(
                    path_views(linked@).map_values(|path: Seq<u8>| decode_utf8(path)),
                ) && success.excluded == text_set(path_views(excluded@).map_values(|path: Seq<u8>| decode_utf8(path)))
                    && success.out_of_scope == text_set(
                    path_views(out_of_scope@).map_values(|path: Seq<u8>| decode_utf8(path)),
                ) && success.primary == (match physical_path(known, primary@) {
                    Finding::Known(Some(physical)) => decode_utf8(physical),
                    _ => decode_utf8(primary@),
                }),
                WorktreeReconciliation::Failure { primary, message } => changes_of(
                    known,
                    now,
                    worktrees,
                )->Ok_0[i] matches WorktreeChange::Failure(failure) && failure.message == message@ && failure.primary
                    == decode_utf8(primary@) && Some(failure.failed_at) == epoch_of(now),
            },
    decreases worktrees.len(),
{
    if worktrees.len() > 0 {
        let front = worktrees.drop_last();
        answers_of_repositories_are_taken_over(known, now, front);
        let before = changes_of(known, now, front)->Ok_0;
        let all = changes_of(known, now, worktrees)->Ok_0;
        assert(worktrees[worktrees.len() - 1] == worktrees.last());
        assert forall|i: int| 0 <= i < front.len() implies front[i] == #[trigger] worktrees[i] && all[i] == before[i] by {}
    }
}

/// What repositories say is applied in their order: a failure puts the repository on
/// record as failed, a success replaces what was on record of its worktrees.
pub proof fn answers_are_applied_in_their_order(store: StoreModel, changes: Seq<WorktreeChange>, last: WorktreeChange)
    ensures
        changes_applied(store, Seq::empty()) == store,
        last matches WorktreeChange::Failure(failure) ==> exists|i: int|
            0 <= i < changes_applied(store, changes.push(last)).worktree_discovery_failures.len() && (
            #[trigger] changes_applied(store, changes.push(last)).worktree_discovery_failures[i]).primary == failure.primary
                && changes_applied(store, changes.push(last)).worktree_discovery_failures[i].message == failure.message
                && changes_applied(store, changes.push(last)).worktree_discovery_failures[i].failed_at == failure.failed_at,
        last matches WorktreeChange::Success(success) ==> changes_applied(store, changes.push(last)) == with_worktrees(
            changes_applied(store, changes),
            success,
        ),
{
    assert(changes.push(last).drop_last() =~= changes);
    if let WorktreeChange::Failure(failure) = last {
        failures_are_put_down(changes_applied(store, changes), failure);
    }
}

/// A scan that is published leaves what it says of worktrees and failures on record, next
/// to the new discovery and the errors that it met.
pub proof fn published_scans_are_on_record(
    store: StoreModel,
    known: Map<Seq<u8>, Resolved>,
    created_at: int,
    publication: ScanPublication,
)
    requires
        scan_published(store, known, created_at, publication) is Ok,
    ensures
        ({
            let after = scan_published(store, known, created_at, publication)->Ok_0;
            let pairs = replacements_of(
                known,
                crate::store::blocking::frozen_texts(store),
                crate::store::blocking::identity_texts(store),
            );
            let changes = changes_of(known, created_at, publication.worktrees@);
            &&& pairs is Ok && changes is Ok
            &&& after.worktree_discovery_failures == changes_applied(
                crate::store::blocking::paths_replaced(store, pairs->Ok_0),
                changes->Ok_0,
            ).worktree_discovery_failures
            &&& after.linked_worktrees == changes_applied(
                crate::store::blocking::paths_replaced(store, pairs->Ok_0),
                changes->Ok_0,
            ).linked_worktrees
            &&& after.discovery_generations.len() > 0 && after.discovery_generations.last().authority_valid
                && after.discovery_generations.last().policy_hash == publication.generation.policy_hash@
            &&& forall|i: int|
                0 <= i < after.discovery_generations.len() - 1 ==> !(#[trigger] after.discovery_generations[i]).authority_valid
            &&& after.errors.len() >= publication.diagnostics@.len()
            &&& forall|i: int|
                0 <= i < publication.diagnostics@.len() ==> after.errors[after.errors.len() - publication.diagnostics@.len() + i].message
                    == (#[trigger] publication.diagnostics@[i]).message@
        }),
{
    let pairs = replacements_of(
        known,
        crate::store::blocking::frozen_texts(store),
        crate::store::blocking::identity_texts(store),
    )->Ok_0;
    let changes = changes_of(known, created_at, publication.worktrees@)->Ok_0;
    let base = changes_applied(crate::store::blocking::paths_replaced(store, pairs), changes);
    let secs = epoch_of(created_at)->0;
    let next = crate::store::generations::generation_stored(base, secs, publication.generation)->Ok_0;
    crate::store::laws::new_generations_replace_the_old(base, secs, publication.generation);
    met_errors_are_put_down(next, publication.diagnostics@);
}

// ------------------------------------------------------------------------ plans

/// A plan expires half an hour after it was made, names the policy and the discovery that
/// it was made under, and gives the reviews that it was made of back in their order.
pub proof fn plans_hold_what_was_reviewed(
    id: i64,
    created_at: i64,
    hash: Seq<char>,
    generation_id: i64,
    incomplete: bool,
    bytes: i64,
    reviews: Seq<ProjectReview>,
)
    requires
        created_at + 1800 <= i64::MAX,
        created_at >= 0,
        reviews.len() <= i64::MAX,
        reviews.len() <= usize::MAX,
        all_storable(reviews),
    ensures
        ({
            let plan = new_plan(id, created_at, hash, generation_id, incomplete, bytes, reviews);
            &&& plan.id == id
            &&& plan.expires_at == created_at + 1800
            &&& plan.policy_hash == hash
            &&& plan.generation_id == generation_id
            &&& plan.coverage_incomplete == incomplete
            &&& plan.candidate_bytes == bytes
            &&& plan.targets.len() == reviews.len()
            &&& forall|i: int|
                0 <= i < reviews.len() ==> review_of_columns(#[trigger] plan.targets[i]) == Some((i as i64, reviews[i]@))
        }),
{
    let plan = new_plan(id, created_at, hash, generation_id, incomplete, bytes, reviews);
    assert forall|i: int| 0 <= i < reviews.len() implies review_of_columns(#[trigger] plan.targets[i]) == Some(
        (i as i64, reviews[i]@),
    ) by {
        target_is_read_back(i as i64, reviews[i]@);
    }
}

/// A plan whose targets can be read is loaded exactly if it has not expired and was made
/// under the policy and the discovery that are asked for, with that discovery the newest
/// and still valid; otherwise the first of these that fails is told.
pub proof fn plans_are_loaded_while_they_hold(
    store: StoreModel,
    id: i64,
    now: int,
    hash: Seq<char>,
    generation_id: i64,
    plan: PlanModel,
)
    requires
        now >= 0,
        plan_with_id(store.review_plans, id) == Some(plan),
        crate::store::plans::unreadable_text(plan.targets, 0) is None,
    ensures
        ({
            let loaded = load_of(store, id, now, hash, generation_id);
            let newest = newest_generation(store.discovery_generations);
            &&& time_of(plan.expires_at) <= now ==> loaded == LoadModel::Expired
            &&& time_of(plan.expires_at) > now && plan.policy_hash != hash ==> loaded == LoadModel::PolicyMismatch
            &&& time_of(plan.expires_at) > now && plan.policy_hash == hash && (plan.generation_id != generation_id || !(
            newest matches Some(row) && row.id == generation_id && row.policy_hash == hash && row.authority_valid)) ==> loaded
                == LoadModel::GenerationMismatch
            &&& time_of(plan.expires_at) > now && plan.policy_hash == hash && plan.generation_id == generation_id && (
            newest matches Some(row) && row.id == generation_id && row.policy_hash == hash && row.authority_valid) ==> loaded
                == LoadModel::Loaded(plan)
        }),
{
}

/// A plan is found by its number exactly if one with that number is on record.
pub proof fn plans_are_found_by_their_number(plans: Seq<PlanModel>, id: i64)
    ensures
        plan_with_id(plans, id) matches Some(plan) ==> plan.id == id && plans.contains(plan),
        plan_with_id(plans, id) is None <==> forall|i: int| 0 <= i < plans.len() ==> (#[trigger] plans[i]).id != id,
    decreases plans.len(),
{
    if plans.len() > 0 {
        let rest = plans.drop_first();
        plans_are_found_by_their_number(rest, id);
        assert forall|i: int| 0 <= i < rest.len() implies rest[i] == #[trigger] plans[i + 1] by {}
        if plans[0].id != id {
            if let Some(plan) = plan_with_id(rest, id) {
                let k = choose|k: int| 0 <= k < rest.len() && rest[k] == plan;
                assert(plans[k + 1] == plan);
            } else {
                assert forall|i: int| 0 <= i < plans.len() implies (#[trigger] plans[i]).id != id by {
                    if i > 0 {
                        assert(rest[i - 1] == plans[i]);
                    }
                }
            }
        }
    }
}

proof fn lemma_newer_count(keys: Seq<(i64, i64)>, a: (i64, i64), b: (i64, i64))
    requires
        newer(a, b) || a == b,
    ensures
        newer_count(keys, a) <= newer_count(keys, b),
        newer_count(keys, b) <= keys.len(),
    decreases keys.len(),
{
    if keys.len() > 0 {
        lemma_newer_count(keys.drop_last(), a, b);
    }
}

/// Of the plans the newest are retained: one that is retained is no older than one that is
/// not, and all are while there are no more than twenty.
pub proof fn newest_plans_are_retained(plans: Seq<PlanModel>, kept: PlanModel, other: PlanModel)
    requires
        plans.contains(other),
    ensures
        retained(plans).contains(kept) && (other.created_at > kept.created_at || (other.created_at == kept.created_at
            && other.id > kept.id)) ==> retained(plans).contains(other),
        plans.len() <= 20 ==> retained(plans).contains(other),
{
    let keys = keys_of(plans);
    let p = |plan: PlanModel| newer_count(keys, plan_key(plan)) < crate::store::REVIEW_PLAN_RETENTION;
    chosen_rows_have_the_property(plans, p);
    assert(retained(plans) == plans.filter(p));
    lemma_newer_count(keys, plan_key(other), plan_key(other));
    if newer(plan_key(other), plan_key(kept)) {
        lemma_newer_count(keys, plan_key(other), plan_key(kept));
    }
    let i = choose|i: int| 0 <= i < plans.len() && plans[i] == other;
    assert(keys[i] == plan_key(other));
    lemma_count_without(keys, plan_key(other), i);
    assert(retained(plans).contains(other) <==> p(other));
    assert(retained(plans).contains(kept) ==> p(kept));
}

proof fn lemma_count_without(keys: Seq<(i64, i64)>, key: (i64, i64), i: int)
    requires
        0 <= i < keys.len(),
        keys[i] == key,
    ensures
        newer_count(keys, key) < keys.len(),
    decreases keys.len(),
{
    if i < keys.len() - 1 {
        assert(keys.drop_last()[i] == keys[i]);
        lemma_count_without(keys.drop_last(), key, i);
    } else {
        lemma_newer_count(keys.drop_last(), key, key);
    }
}

/// A plan that has not expired and rests on the newest valid discovery, under the
/// authority that is asked for, is pruned only for newer ones.
pub proof fn plans_that_hold_are_not_pruned(
    plans: Seq<PlanModel>,
    generations: Seq<GenerationModel>,
    now: i64,
    authority: Option<(Seq<char>, i64)>,
    plan: PlanModel,
)
    requires
        plans.contains(plan),
        plan.expires_at > now,
        is_in_force(generations, plan.generation_id),
        exists|i: int|
            0 <= i < generations.len() && (#[trigger] generations[i]).id == plan.generation_id && generations[i].authority_valid
                && generations[i].policy_hash == plan.policy_hash,
        authority matches Some((hash, id)) ==> plan.policy_hash == hash && plan.generation_id == id,
        plans.len() <= 20,
    ensures
        pruned(plans, generations, now, authority).contains(plan),
{
    newest_generation_is_the_greatest(generations);
    let g = choose|i: int|
        0 <= i < generations.len() && (#[trigger] generations[i]).id == plan.generation_id && generations[i].authority_valid
            && generations[i].policy_hash == plan.policy_hash;
    let newest = newest_generation(generations)->0;
    assert(newest.id == plan.generation_id) by {
        let k = choose|k: int| 0 <= k < generations.len() && generations[k] == newest;
        assert(generations[k].id <= plan.generation_id);
        assert(generations[g].id <= newest.id);
    }
    let rests = |row: GenerationModel|
        row.id == plan.generation_id && row.policy_hash == plan.policy_hash && row.authority_valid && (
        newest_generation(generations) matches Some(best) && best.id == row.id);
    assert(rests(generations[g]));
    assert(rests_on_current(plan, generations));
    let live_keep = |p: PlanModel| p.expires_at > now && rests_on_current(p, generations);
    let live = plans.filter(live_keep);
    chosen_rows_have_the_property(plans, live_keep);
    assert(live_keep(plan));
    assert(live.contains(plan));
    match authority {
        Some((hash, id)) => {
            let own_keep = |p: PlanModel| p.policy_hash == hash && p.generation_id == id;
            chosen_rows_have_the_property(live, own_keep);
            assert(own_keep(plan));
            assert(live.filter(own_keep).contains(plan));
            newest_plans_are_retained(live.filter(own_keep), plan, plan);
        },
        None => {
            newest_plans_are_retained(live, plan, plan);
        },
    }
}

/// A discovery is current for a policy exactly if it is the newest, is valid, and was made
/// under the policy.
pub proof fn current_discoveries_are_in_force(rows: Seq<GenerationModel>, hash: Seq<char>, id: i64)
    requires
        is_current(rows, hash, id),
    ensures
        is_in_force(rows, id),
        exists|i: int|
            0 <= i < rows.len() && (#[trigger] rows[i]).id == id && rows[i].policy_hash == hash && rows[i].authority_valid,
{
    newest_generation_is_the_greatest(rows);
    let newest = newest_generation(rows)->0;
    let k = choose|k: int| 0 <= k < rows.len() && rows[k] == newest;
    assert(rows[k].authority_valid);
}

} // verus!
