//! What replacing a path on record comes to.

use crate::policy::Exclusions;
use crate::resolve::Resolved;
use crate::store::blocking::without_excluded;
use crate::store::rows::{FailureModel, LinkedModel, ProjectModel};
use crate::store::sorting::chosen_rows_have_the_property;
use crate::store::table::{first_row_is, picked, picked_are_of_rows, some_row, upserted};
use crate::store::worktrees::{
    failure_merged, failures_renamed, link_merged, link_names, link_to_move, links_merged, links_renamed, path_replaced,
    same_link,
};
use crate::store::{StoreFault, StoreModel};
use vstd::prelude::*;
use vstd::utf8::*;

verus! {

/// Whether a worktree of a repository is on record.
pub open spec fn links(rows: Seq<LinkedModel>, primary: Seq<char>, linked: Seq<char>) -> bool {
    exists|i: int| 0 <= i < rows.len() && (#[trigger] rows[i]).primary == primary && rows[i].linked == linked
}

proof fn lemma_link_merged(rows: Seq<LinkedModel>, new: LinkedModel, primary: Seq<char>, linked: Seq<char>)
    ensures
        links(link_merged(rows, new), primary, linked) <==> links(rows, primary, linked) || (new.primary == primary
            && new.linked == linked),
{
    let key = |row: LinkedModel| same_link(row, new);
    let after = link_merged(rows, new);
    if some_row(rows, key) {
        let k = choose|k: int| 0 <= k < rows.len() && key(#[trigger] rows[k]);
        assert(after.len() == rows.len());
        assert forall|i: int| 0 <= i < rows.len() implies (#[trigger] after[i]).primary == rows[i].primary && after[i].linked
            == rows[i].linked by {}
        if links(rows, primary, linked) {
            let i = choose|i: int| 0 <= i < rows.len() && (#[trigger] rows[i]).primary == primary && rows[i].linked == linked;
            assert(after[i].primary == primary);
        }
        if new.primary == primary && new.linked == linked {
            assert(after[k].primary == primary);
        }
        if links(after, primary, linked) {
            let i = choose|i: int| 0 <= i < after.len() && (#[trigger] after[i]).primary == primary && after[i].linked == linked;
            assert(rows[i].primary == primary);
        }
    } else {
        assert(after == rows.push(new));
        if links(rows, primary, linked) {
            let i = choose|i: int| 0 <= i < rows.len() && (#[trigger] rows[i]).primary == primary && rows[i].linked == linked;
            assert(after[i] == rows[i]);
        }
        if new.primary == primary && new.linked == linked {
            assert(after[rows.len() as int].primary == primary);
        }
        if links(after, primary, linked) {
            let i = choose|i: int| 0 <= i < after.len() && (#[trigger] after[i]).primary == primary && after[i].linked == linked;
            if i < rows.len() {
                assert(rows[i] == after[i]);
            }
        }
    }
}

proof fn lemma_links_merged(rows: Seq<LinkedModel>, new: Seq<LinkedModel>, primary: Seq<char>, linked: Seq<char>)
    ensures
        links(links_merged(rows, new), primary, linked) <==> links(rows, primary, linked) || links(new, primary, linked),
    decreases new.len(),
{
    if new.len() > 0 {
        let front = new.drop_last();
        lemma_links_merged(rows, front, primary, linked);
        lemma_link_merged(links_merged(rows, front), new.last(), primary, linked);
        if links(front, primary, linked) {
            let i = choose|i: int| 0 <= i < front.len() && (#[trigger] front[i]).primary == primary && front[i].linked == linked;
            assert(new[i] == front[i]);
        }
        if new.last().primary == primary && new.last().linked == linked {
            assert(new[new.len() - 1].primary == primary);
        }
        if links(new, primary, linked) {
            let i = choose|i: int| 0 <= i < new.len() && (#[trigger] new[i]).primary == primary && new[i].linked == linked;
            if i < front.len() {
                assert(front[i] == new[i]);
            }
        }
    }
}

/// Once a path has been replaced, a worktree is on record exactly if it was before, or if
/// it was under the old path and now is under the new one; nothing names the old path.
pub proof fn worktrees_follow_their_path(
    rows: Seq<LinkedModel>,
    old_path: Seq<char>,
    new_path: Seq<char>,
    primary: Seq<char>,
    linked: Seq<char>,
)
    requires
        old_path != new_path,
    ensures
        primary == old_path || linked == old_path ==> !links(links_renamed(rows, old_path, new_path), primary, linked),
        primary != old_path && linked != old_path && primary != new_path && linked != new_path ==> (links(
            links_renamed(rows, old_path, new_path),
            primary,
            linked,
        ) <==> links(rows, primary, linked)),
        linked != old_path && linked != new_path ==> (links(links_renamed(rows, old_path, new_path), new_path, linked)
            <==> links(rows, new_path, linked) || links(rows, old_path, linked)),
        primary != old_path && primary != new_path ==> (links(links_renamed(rows, old_path, new_path), primary, new_path)
            <==> links(rows, primary, new_path) || links(rows, primary, old_path)),
{
    let after = links_renamed(rows, old_path, new_path);
    lemma_renamed(rows, old_path, new_path, primary, linked);
    lemma_renamed(rows, old_path, new_path, new_path, linked);
    lemma_renamed(rows, old_path, new_path, primary, new_path);
    lemma_moved(rows, old_path, new_path, primary, linked);
    lemma_moved(rows, old_path, new_path, new_path, linked);
    lemma_moved(rows, old_path, new_path, primary, new_path);
}

proof fn lemma_renamed(
    rows: Seq<LinkedModel>,
    old_path: Seq<char>,
    new_path: Seq<char>,
    primary: Seq<char>,
    linked: Seq<char>,
)
    ensures
        ({
            let moved = picked(rows, |row: LinkedModel| link_to_move(row, old_path, new_path));
            links(links_renamed(rows, old_path, new_path), primary, linked) <==> primary != old_path && linked != old_path && (
            links(rows, primary, linked) || links(moved, primary, linked))
        }),
{
    let moved = picked(rows, |row: LinkedModel| link_to_move(row, old_path, new_path));
    let merged = links_merged(rows, moved);
    let keep = |row: LinkedModel| !link_names(row, old_path);
    let after = links_renamed(rows, old_path, new_path);
    lemma_links_merged(rows, moved, primary, linked);
    chosen_rows_have_the_property(merged, keep);
    if links(after, primary, linked) {
        let i = choose|i: int| 0 <= i < after.len() && (#[trigger] after[i]).primary == primary && after[i].linked == linked;
        assert(after.contains(after[i]));
        assert(keep(after[i]));
        let k = choose|k: int| 0 <= k < merged.len() && merged[k] == after[i];
        assert(merged[k].primary == primary);
    }
    if primary != old_path && linked != old_path && links(merged, primary, linked) {
        let i = choose|i: int| 0 <= i < merged.len() && (#[trigger] merged[i]).primary == primary && merged[i].linked == linked;
        assert(merged.contains(merged[i]));
        assert(keep(merged[i]));
        assert(after.contains(merged[i]));
        let k = choose|k: int| 0 <= k < after.len() && after[k] == merged[i];
        assert(after[k].primary == primary);
    }
}

proof fn lemma_moved(
    rows: Seq<LinkedModel>,
    old_path: Seq<char>,
    new_path: Seq<char>,
    primary: Seq<char>,
    linked: Seq<char>,
)
    requires
        old_path != new_path,
    ensures
        ({
            let moved = picked(rows, |row: LinkedModel| link_to_move(row, old_path, new_path));
            &&& primary != new_path && linked != new_path && primary != old_path && linked != old_path ==> !links(
                moved,
                primary,
                linked,
            )
            &&& primary == new_path && linked != new_path && linked != old_path ==> (links(moved, primary, linked) <==> links(
                rows,
                old_path,
                linked,
            ))
            &&& linked == new_path && primary != new_path && primary != old_path ==> (links(moved, primary, linked) <==> links(
                rows,
                primary,
                old_path,
            ))
        }),
{
    let g = |row: LinkedModel| link_to_move(row, old_path, new_path);
    let moved = picked(rows, g);
    picked_are_of_rows(rows, g);
    if links(moved, primary, linked) {
        let k = choose|k: int| 0 <= k < moved.len() && (#[trigger] moved[k]).primary == primary && moved[k].linked == linked;
        let i = choose|i: int| 0 <= i < rows.len() && g(#[trigger] rows[i]) == Some(moved[k]);
        assert(link_names(rows[i], old_path));
    }
    if primary == new_path && linked != new_path && linked != old_path && links(rows, old_path, linked) {
        let i = choose|i: int| 0 <= i < rows.len() && (#[trigger] rows[i]).primary == old_path && rows[i].linked == linked;
        assert(g(rows[i]) is Some);
        let row = g(rows[i])->0;
        assert(moved.contains(row));
        let k = choose|k: int| 0 <= k < moved.len() && moved[k] == row;
        assert(moved[k].primary == primary && moved[k].linked == linked);
    }
    if linked == new_path && primary != new_path && primary != old_path && links(rows, primary, old_path) {
        let i = choose|i: int| 0 <= i < rows.len() && (#[trigger] rows[i]).primary == primary && rows[i].linked == old_path;
        assert(g(rows[i]) is Some);
        let row = g(rows[i])->0;
        assert(moved.contains(row));
        let k = choose|k: int| 0 <= k < moved.len() && moved[k] == row;
        assert(moved[k].primary == primary && moved[k].linked == linked);
    }
}

proof fn lemma_merged_ends(rows: Seq<LinkedModel>, new: Seq<LinkedModel>)
    requires
        forall|i: int| 0 <= i < rows.len() ==> (#[trigger] rows[i]).primary != rows[i].linked,
        forall|i: int| 0 <= i < new.len() ==> (#[trigger] new[i]).primary != new[i].linked,
    ensures
        forall|i: int|
            0 <= i < links_merged(rows, new).len() ==> (#[trigger] links_merged(rows, new)[i]).primary != links_merged(
                rows,
                new,
            )[i].linked,
    decreases new.len(),
{
    if new.len() > 0 {
        let front = new.drop_last();
        assert forall|i: int| 0 <= i < front.len() implies (#[trigger] front[i]).primary != front[i].linked by {
            assert(front[i] == new[i]);
        }
        lemma_merged_ends(rows, front);
        let before = links_merged(rows, front);
        let after = links_merged(rows, new);
        assert(new[new.len() - 1] == new.last());
        assert forall|i: int| 0 <= i < after.len() implies (#[trigger] after[i]).primary != after[i].linked by {
            if i < before.len() {
                assert(before[i].primary != before[i].linked);
            }
        }
    }
}

/// Replacing a path never makes a worktree one of itself.
pub proof fn no_worktree_is_its_own_primary(rows: Seq<LinkedModel>, old_path: Seq<char>, new_path: Seq<char>)
    requires
        forall|i: int| 0 <= i < rows.len() ==> (#[trigger] rows[i]).primary != rows[i].linked,
    ensures
        forall|row: LinkedModel| #[trigger]
            links_renamed(rows, old_path, new_path).contains(row) ==> row.primary != row.linked,
{
    let g = |row: LinkedModel| link_to_move(row, old_path, new_path);
    let new = picked(rows, g);
    picked_are_of_rows(rows, g);
    assert forall|k: int| 0 <= k < new.len() implies (#[trigger] new[k]).primary != new[k].linked by {
        let i = choose|i: int| 0 <= i < rows.len() && g(#[trigger] rows[i]) == Some(new[k]);
        assert(link_to_move(rows[i], old_path, new_path) == Some(new[k]));
    }
    lemma_merged_ends(rows, new);
    let p = |row: LinkedModel| !link_names(row, old_path);
    chosen_rows_have_the_property(links_merged(rows, new), p);
    assert forall|row: LinkedModel| #[trigger] links_renamed(rows, old_path, new_path).contains(row) implies row.primary
        != row.linked by {
        assert(links_merged(rows, new).contains(row));
    }
}

/// Once a path has been replaced, the failure that was on record under it is on record
/// under the new one: as it was if there was none, and otherwise with the later of the two
/// times and what was said then. The failures of others stay.
pub proof fn failures_follow_their_path(rows: Seq<FailureModel>, old_path: Seq<char>, new_path: Seq<char>, i: int, j: int)
    requires
        old_path != new_path,
        0 <= i < rows.len(),
        rows[i].primary == old_path,
        forall|k: int| 0 <= k < rows.len() && k != i ==> (#[trigger] rows[k]).primary != old_path,
    ensures
        forall|row: FailureModel| #[trigger]
            failures_renamed(rows, old_path, new_path).contains(row) ==> row.primary != old_path,
        (forall|k: int| 0 <= k < rows.len() ==> (#[trigger] rows[k]).primary != new_path) ==> failures_renamed(
            rows,
            old_path,
            new_path,
        ).contains((FailureModel { primary: new_path, ..rows[i] })),
        0 <= j < rows.len() && rows[j].primary == new_path ==> exists|row: FailureModel| #[trigger]
            failures_renamed(rows, old_path, new_path).contains(row) && row.primary == new_path && row.failed_at
                >= rows[i].failed_at && row.failed_at >= rows[j].failed_at && (row.failed_at == rows[i].failed_at
                || row.failed_at == rows[j].failed_at) && (rows[i].failed_at > rows[j].failed_at ==> row.message
                == rows[i].message) && (rows[j].failed_at > rows[i].failed_at ==> row.message == rows[j].message),
        forall|row: FailureModel|
            row.primary != old_path && row.primary != new_path ==> (#[trigger] failures_renamed(
                rows,
                old_path,
                new_path,
            ).contains(row) <==> rows.contains(row)),
{
    let old_key = |row: FailureModel| row.primary == old_path;
    let new_key = |row: FailureModel| row.primary == new_path;
    first_row_is(rows, old_key, i);
    let moved = rows[i];
    let merge = |row: FailureModel| failure_merged(row, moved);
    let new = FailureModel { primary: new_path, ..moved };
    let merged = upserted(rows, new_key, merge, new);
    let keep = |row: FailureModel| row.primary != old_path;
    let after = failures_renamed(rows, old_path, new_path);
    assert(after == merged.filter(keep));
    chosen_rows_have_the_property(merged, keep);
    if 0 <= j < rows.len() && rows[j].primary == new_path {
        assert(new_key(rows[j]));
        assert(merged[j] == merge(rows[j]));
        assert(merged.contains(merged[j]));
        assert(keep(merged[j]));
        assert(after.contains(merged[j]));
    }
    if forall|k: int| 0 <= k < rows.len() ==> (#[trigger] rows[k]).primary != new_path {
        assert(!some_row(rows, new_key)) by {
            if some_row(rows, new_key) {
                let k = choose|k: int| 0 <= k < rows.len() && new_key(#[trigger] rows[k]);
                assert(rows[k].primary == new_path);
            }
        }
        assert(merged[rows.len() as int] == new);
        assert(merged.contains(new));
        assert(keep(new));
    }
    assert forall|row: FailureModel| row.primary != old_path && row.primary != new_path implies (#[trigger] after.contains(row)
        <==> rows.contains(row)) by {
        assert(keep(row));
        if rows.contains(row) {
            let k = choose|k: int| 0 <= k < rows.len() && rows[k] == row;
            assert(merged[k] == row);
            assert(merged.contains(row));
        }
        if after.contains(row) {
            assert(merged.contains(row));
            let k = choose|k: int| 0 <= k < merged.len() && merged[k] == row;
            if k < rows.len() {
                assert(merged[k].primary == rows[k].primary);
                assert(rows[k] == row);
            }
        }
    }
}

/// Replacing a path replaces it everywhere where projects and worktrees are on record, and
/// nowhere else.
pub proof fn paths_are_replaced_everywhere(store: StoreModel, old_path: Seq<char>, new_path: Seq<char>)
    ensures
        ({
            let after = path_replaced(store, old_path, new_path);
            &&& after.projects == crate::store::projects::project_renamed(store.projects, old_path, new_path)
            &&& after.linked_worktrees == links_renamed(store.linked_worktrees, old_path, new_path)
            &&& after.worktree_discovery_failures == failures_renamed(store.worktree_discovery_failures, old_path, new_path)
            &&& (StoreModel {
                projects: store.projects,
                linked_worktrees: store.linked_worktrees,
                worktree_discovery_failures: store.worktree_discovery_failures,
                ..after
            }) == store
        }),
{
}

/// Whether an exclusion takes a path off the record: it covers it as it is written or
/// where it really lies, or nothing is there and the row needs it.
pub open spec fn takes_off<E: Exclusions>(
    exclusions: &E,
    known: Map<Seq<u8>, Resolved>,
    path: Seq<char>,
    needs_path: bool,
) -> bool {
    ||| exclusions.covers(encode_utf8(path))
    ||| known[encode_utf8(path)] matches Resolved::Physical(physical) && exclusions.covers(physical)
    ||| needs_path && known[encode_utf8(path)] == Resolved::NotFound
}

/// Exclusions take exactly the projects off the record that they cover or that are gone,
/// and the worktrees and failures of which they cover a part.
pub proof fn excluded_paths_are_off_the_record<E: Exclusions>(
    store: StoreModel,
    exclusions: &E,
    known: Map<Seq<u8>, Resolved>,
    project: ProjectModel,
    link: LinkedModel,
    failure: FailureModel,
)
    requires
        without_excluded(store, exclusions, known) is Ok,
    ensures
        ({
            let after = without_excluded(store, exclusions, known)->Ok_0;
            &&& after.projects.contains(project) <==> store.projects.contains(project) && !takes_off(
                exclusions,
                known,
                project.path,
                true,
            )
            &&& after.linked_worktrees.contains(link) <==> store.linked_worktrees.contains(link) && !takes_off(
                exclusions,
                known,
                link.primary,
                false,
            ) && !takes_off(exclusions, known, link.linked, false) && !(link.canonical_primary matches Some(path) && takes_off(
                exclusions,
                known,
                path,
                false,
            ))
            &&& after.worktree_discovery_failures.contains(failure) <==> store.worktree_discovery_failures.contains(failure)
                && !takes_off(exclusions, known, failure.primary, false) && !(failure.canonical_primary matches Some(path)
                && takes_off(exclusions, known, path, false))
            &&& (StoreModel {
                projects: store.projects,
                linked_worktrees: store.linked_worktrees,
                worktree_discovery_failures: store.worktree_discovery_failures,
                ..after
            }) == store
        }),
{
    let of_project = |row: ProjectModel| crate::store::blocking::project_removal(exclusions, known, row);
    let of_link = |row: LinkedModel| crate::store::blocking::link_removal(exclusions, known, row);
    let of_failure = |row: FailureModel| crate::store::blocking::failure_removal(exclusions, known, row);
    let keep_project = |row: ProjectModel| of_project(row) != Ok::<bool, StoreFault>(true);
    let keep_link = |row: LinkedModel| of_link(row) != Ok::<bool, StoreFault>(true);
    let keep_failure = |row: FailureModel| of_failure(row) != Ok::<bool, StoreFault>(true);
    chosen_rows_have_the_property(store.projects, keep_project);
    chosen_rows_have_the_property(store.linked_worktrees, keep_link);
    chosen_rows_have_the_property(store.worktree_discovery_failures, keep_failure);
    let after = without_excluded(store, exclusions, known)->Ok_0;
    assert(after.projects.contains(project) <==> store.projects.contains(project) && keep_project(project));
    assert(after.linked_worktrees.contains(link) <==> store.linked_worktrees.contains(link) && keep_link(link));
    assert(after.worktree_discovery_failures.contains(failure) <==> store.worktree_discovery_failures.contains(failure)
        && keep_failure(failure));
    if store.projects.contains(project) {
        let i = choose|i: int| 0 <= i < store.projects.len() && store.projects[i] == project;
        lemma_no_fault(store.projects, of_project, i);
    }
    if store.linked_worktrees.contains(link) {
        let i = choose|i: int| 0 <= i < store.linked_worktrees.len() && store.linked_worktrees[i] == link;
        lemma_no_fault(store.linked_worktrees, of_link, i);
    }
    if store.worktree_discovery_failures.contains(failure) {
        let i = choose|i: int|
            0 <= i < store.worktree_discovery_failures.len() && store.worktree_discovery_failures[i] == failure;
        lemma_no_fault(store.worktree_discovery_failures, of_failure, i);
    }
}

proof fn lemma_no_fault<V>(rows: Seq<V>, f: spec_fn(V) -> Result<bool, StoreFault>, i: int)
    requires
        crate::store::blocking::first_fault(rows, f) is None,
        0 <= i < rows.len(),
    ensures
        f(rows[i]) is Ok,
    decreases rows.len(),
{
    if i > 0 {
        assert(rows.drop_first()[i - 1] == rows[i]);
        lemma_no_fault(rows.drop_first(), f, i - 1);
    }
}

} // verus!
