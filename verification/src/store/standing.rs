//! What stays blocked: a checkout that could not be asked for its worktrees, and the
//! worktrees that are known of it, until it is asked with success.

use crate::resolve::{physical_path, Finding, Resolved};
use crate::store::blocking::{
    active_texts, blocked_paths, blocked_paths_are_listed_once, failed_links, failures_block_their_checkouts, is_blocked,
    lemma_closed_covers, link_ends, link_failed,
};
use crate::store::rows::{FailureModel, LinkedModel};
use crate::store::table::{first_row, picked, picked_are_of_rows, some_row, upserted};
use crate::store::worktrees::{
    aliases_merged, failed_alias_rekeyed, failed_aliases, failed_aliases_rekeyed, failure_merged, failure_of, failures_renamed,
    first_not_text, has_untrusted_failure, is_alias_link, lemma_links_added, linked_aliases, linked_aliases_rekeyed,
    links_added, links_rekeyed, path_text_set, same_link, success_of, text_set_holds, with_failure, with_worktrees,
    worktrees_replaced, NewFailureModel, SuccessModel,
};
use crate::store::StoreModel;
use vstd::prelude::*;
use vstd::utf8::*;

verus! {

/// Whether every failure that is recorded under a path is one of the physical
/// checkout there.
pub open spec fn failures_are_own(rows: Seq<FailureModel>, primary: Seq<char>) -> bool {
    forall|i: int|
        0 <= i < rows.len() && (#[trigger] rows[i]).primary == primary ==> rows[i].canonical_primary == Some(primary)
}

/// Whether a physical checkout stands as failed.
pub open spec fn stands_as_failed(store: StoreModel, primary: Seq<char>) -> bool {
    &&& failures_are_own(store.worktree_discovery_failures, primary)
    &&& some_row(store.worktree_discovery_failures, |row: FailureModel| row.primary == primary)
}

/// Whether an association may be one of a physical checkout.
pub open spec fn may_belong(row: LinkedModel, primary: Seq<char>) -> bool {
    row.canonical_primary is None || row.canonical_primary == Some(primary)
}

/// Whether a path stands as a worktree of a physical checkout, or of one that is not
/// known.
pub open spec fn stands_as_linked(store: StoreModel, primary: Seq<char>, linked: Seq<char>) -> bool {
    some_row(store.linked_worktrees, |row: LinkedModel| row.linked == linked && may_belong(row, primary))
}

/// Whether a worktree is recorded under the path of a checkout as one of another
/// physical checkout, as where the path was once a link to it.
pub open spec fn linked_elsewhere(store: StoreModel, primary: Seq<char>, linked: Seq<char>) -> bool {
    some_row(
        store.linked_worktrees,
        |row: LinkedModel| row.primary == primary && row.linked == linked && !may_belong(row, primary),
    )
}

proof fn lemma_loose_link_is_active(store: StoreModel, j: int)
    requires
        0 <= j < store.linked_worktrees.len(),
        store.linked_worktrees[j].canonical_primary is None,
        store.worktree_discovery_failures.len() > 0,
    ensures
        active_texts(store).contains(store.linked_worktrees[j].linked),
{
    let links = store.linked_worktrees;
    let selected = |row: LinkedModel| row.canonical_primary is None;
    let first = |row: LinkedModel|
        if selected(row) {
            Some(row.primary)
        } else {
            None::<Seq<char>>
        };
    let second = |row: LinkedModel|
        if selected(row) {
            Some(row.linked)
        } else {
            None::<Seq<char>>
        };
    picked_are_of_rows(links, second);
    assert(second(links[j]) == Some(links[j].linked));
    let part = picked(links, second);
    assert(part.contains(links[j].linked));
    let k = choose|k: int| 0 <= k < part.len() && part[k] == links[j].linked;
    let ends = link_ends(links, selected);
    assert(ends == picked(links, first) + part);
    assert(ends[picked(links, first).len() + k] == links[j].linked);
    let before = picked(store.worktree_discovery_failures, |row: FailureModel| Some(row.primary)) + failed_links(store);
    assert(active_texts(store) == before + ends);
    assert(active_texts(store)[before.len() + picked(links, first).len() + k] == links[j].linked);
}

/// In every store, whatever led to it: as long as a checkout stands as failed, it is
/// blocked, and so is every path that stands as a worktree of it. No path is listed
/// twice.
pub proof fn standing_failures_block(store: StoreModel, known: Map<Seq<u8>, Resolved>, primary: Seq<char>)
    requires
        blocked_paths(store, known) is Known,
        stands_as_failed(store, primary),
    ensures
        is_blocked(blocked_paths(store, known)->Known_0, encode_utf8(primary)),
        forall|linked: Seq<char>| #[trigger]
            stands_as_linked(store, primary, linked) ==> is_blocked(
                blocked_paths(store, known)->Known_0,
                encode_utf8(linked),
            ),
        blocked_paths(store, known)->Known_0.no_duplicates(),
{
    let failures = store.worktree_discovery_failures;
    let links = store.linked_worktrees;
    let blocked = blocked_paths(store, known)->Known_0;
    failures_block_their_checkouts(store, known);
    blocked_paths_are_listed_once(store, known);
    let own = |row: FailureModel| row.primary == primary;
    let f = choose|i: int| 0 <= i < failures.len() && own(#[trigger] failures[i]);
    assert(failures[f].canonical_primary == Some(primary));
    assert forall|linked: Seq<char>| #[trigger] stands_as_linked(store, primary, linked) implies is_blocked(
        blocked,
        encode_utf8(linked),
    ) by {
        let stands = |row: LinkedModel| row.linked == linked && may_belong(row, primary);
        let j = choose|j: int| 0 <= j < links.len() && stands(#[trigger] links[j]);
        if links[j].canonical_primary is Some {
            let fits = |failure: FailureModel| failure.canonical_primary == links[j].canonical_primary;
            assert(fits(failures[f]));
            assert(link_failed(failures, links[j]));
        } else {
            let loose = |row: LinkedModel| row.canonical_primary is None;
            assert(loose(links[j]));
            lemma_loose_link_is_active(store, j);
            lemma_closed_covers(store, linked);
        }
    }
}

// ------------------------------------------------------- how rows come to stand

proof fn lemma_rekeyed_links(rows: Seq<LinkedModel>, alias: Seq<char>, canonical: Seq<char>)
    ensures
        forall|row: LinkedModel| #![auto]
            row.canonical_primary != Some(canonical) ==> (links_rekeyed(rows, alias, canonical).contains(row)
                <==> rows.contains(row)),
{
    let move_link = |row: LinkedModel|
        if is_alias_link(row, alias, canonical) && row.linked != canonical {
            Some(LinkedModel { primary: canonical, ..row })
        } else {
            None::<LinkedModel>
        };
    let keep = |row: LinkedModel| !is_alias_link(row, alias, canonical);
    let new = picked(rows, move_link);
    let all = links_added(rows, new);
    lemma_links_added(rows, new);
    picked_are_of_rows(rows, move_link);
    assert forall|row: LinkedModel| #![auto] row.canonical_primary != Some(canonical) implies (all.filter(keep).contains(row)
        <==> rows.contains(row)) by {
        if rows.contains(row) {
            let i = choose|i: int| 0 <= i < rows.len() && rows[i] == row;
            assert(all[i] == row);
            assert(keep(all[i]));
            all.lemma_filter_contains(keep, i);
        }
        if all.filter(keep).contains(row) {
            all.lemma_filter_contains_rev(keep, row);
            let j = choose|j: int| 0 <= j < all.len() && all[j] == row;
            if j < rows.len() {
                assert(rows[j] == row);
            } else {
                assert(new.contains(row));
                let k = choose|k: int| 0 <= k < new.len() && new[k] == row;
                let i = choose|i: int| 0 <= i < rows.len() && move_link(#[trigger] rows[i]) == Some(new[k]);
                assert(is_alias_link(rows[i], alias, canonical));
            }
        }
    }
}

proof fn lemma_failed_aliases_links(store: StoreModel, aliases: Seq<Seq<char>>, canonical: Seq<char>)
    ensures
        forall|row: LinkedModel| #![auto]
            row.canonical_primary != Some(canonical) ==> (failed_aliases_rekeyed(
                store,
                aliases,
                canonical,
            ).linked_worktrees.contains(row) <==> store.linked_worktrees.contains(row)),
    decreases aliases.len(),
{
    if aliases.len() > 0 {
        let before = failed_aliases_rekeyed(store, aliases.drop_last(), canonical);
        lemma_failed_aliases_links(store, aliases.drop_last(), canonical);
        lemma_rekeyed_links(before.linked_worktrees, aliases.last(), canonical);
    }
}

proof fn lemma_linked_aliases_links(store: StoreModel, aliases: Seq<Seq<char>>, canonical: Seq<char>)
    ensures
        forall|row: LinkedModel| #![auto]
            row.canonical_primary != Some(canonical) ==> (linked_aliases_rekeyed(
                store,
                aliases,
                canonical,
            ).linked_worktrees.contains(row) <==> store.linked_worktrees.contains(row)),
        linked_aliases_rekeyed(store, aliases, canonical).worktree_discovery_failures
            == store.worktree_discovery_failures,
    decreases aliases.len(),
{
    if aliases.len() > 0 {
        let before = linked_aliases_rekeyed(store, aliases.drop_last(), canonical);
        lemma_linked_aliases_links(store, aliases.drop_last(), canonical);
        lemma_rekeyed_links(before.linked_worktrees, aliases.last(), canonical);
    }
}

/// Merging the aliases of a physical checkout leaves the associations of every other.
proof fn lemma_merged_links(store: StoreModel, canonical: Seq<char>)
    ensures
        forall|row: LinkedModel| #![auto]
            row.canonical_primary != Some(canonical) ==> (aliases_merged(store, canonical).linked_worktrees.contains(row)
                <==> store.linked_worktrees.contains(row)),
{
    let aliases = failed_aliases(store.worktree_discovery_failures, canonical);
    let merged = failed_aliases_rekeyed(store, aliases, canonical);
    lemma_failed_aliases_links(store, aliases, canonical);
    lemma_linked_aliases_links(merged, linked_aliases(merged.linked_worktrees, canonical), canonical);
}

/// Each worktree that a checkout was found to have stands as one of it, unless it is
/// recorded under the same path as one of another physical checkout.
pub proof fn discovered_worktrees_stand(store: StoreModel, success: SuccessModel, linked: Seq<char>)
    requires
        success.canonical_primary == Some(success.primary),
        !has_untrusted_failure(aliases_merged(store, success.primary).worktree_discovery_failures),
        success.linked.contains(linked),
        !linked_elsewhere(store, success.primary, linked),
    ensures
        stands_as_linked(with_worktrees(store, success), success.primary, linked),
{
    let primary = success.primary;
    let merged = aliases_merged(store, primary).linked_worktrees;
    let keep = |row: LinkedModel| row.canonical_primary != Some(primary);
    let kept = merged.filter(keep);
    let new = success.linked.map_values(
        |linked: Seq<char>| LinkedModel { primary, linked, canonical_primary: success.canonical_primary },
    );
    let links = with_worktrees(store, success).linked_worktrees;
    assert(links == links_added(kept, new));
    lemma_merged_links(store, primary);
    lemma_links_added(kept, new);
    let k = choose|k: int| 0 <= k < success.linked.len() && success.linked[k] == linked;
    let p = |row: LinkedModel| same_link(row, new[k]);
    assert(some_row(links, p));
    let j = choose|j: int| 0 <= j < links.len() && p(#[trigger] links[j]);
    let row = links[j];
    assert(row.primary == primary && row.linked == linked);
    if !may_belong(row, primary) {
        if j >= kept.len() {
            assert(new.contains(row));
            let n = choose|n: int| 0 <= n < new.len() && new[n] == row;
            assert(new[n].canonical_primary == Some(primary));
        }
        assert(kept[j] == row);
        merged.lemma_filter_contains_rev(keep, row);
        assert(store.linked_worktrees.contains(row));
        let i = choose|i: int| 0 <= i < store.linked_worktrees.len() && store.linked_worktrees[i] == row;
        let elsewhere = |row: LinkedModel|
            row.primary == primary && row.linked == linked && !may_belong(row, primary);
        assert(elsewhere(store.linked_worktrees[i]));
    }
    let stands = |row: LinkedModel| row.linked == linked && may_belong(row, primary);
    assert(stands(links[j]));
}

/// A failure of a physical checkout makes it stand as failed, unless a failure is
/// recorded under its path that is not its own.
pub proof fn recorded_failures_stand(store: StoreModel, failure: NewFailureModel)
    requires
        failure.canonical_primary == Some(failure.primary),
        failures_are_own(store.worktree_discovery_failures, failure.primary),
    ensures
        stands_as_failed(with_failure(store, failure), failure.primary),
{
    let rows = store.worktree_discovery_failures;
    let after = with_failure(store, failure).worktree_discovery_failures;
    let same = |row: FailureModel| row.primary == failure.primary;
    if some_row(rows, same) {
        let i = choose|i: int| 0 <= i < rows.len() && same(#[trigger] rows[i]);
        assert(same(after[i]));
        assert forall|k: int| 0 <= k < after.len() && (#[trigger] after[k]).primary == failure.primary implies after[k].canonical_primary
            == Some(failure.primary) by {
            assert(rows[k].primary == after[k].primary);
        }
    } else {
        assert(same(after[rows.len() as int]));
    }
}

// ------------------------------------------------------------ how rows go on to

/// Whether a store may follow another while a physical checkout is not asked for its
/// worktrees with success, no path is renamed, and nothing known of worktrees is
/// forgotten: another checkout was asked with success; one was asked and failed; or
/// what is known of worktrees was left as it was.
pub open spec fn follows(store: StoreModel, next: StoreModel, primary: Seq<char>) -> bool {
    ||| next.linked_worktrees == store.linked_worktrees && next.worktree_discovery_failures
        == store.worktree_discovery_failures
    ||| exists|success: SuccessModel|
        success.primary != primary && next == #[trigger] with_worktrees(store, success)
    ||| exists|failure: NewFailureModel|
        (failure.primary == primary ==> failure.canonical_primary == Some(primary)) && next == #[trigger] with_failure(
            store,
            failure,
        )
}

proof fn lemma_renamed_failures(rows: Seq<FailureModel>, alias: Seq<char>, canonical: Seq<char>, primary: Seq<char>)
    requires
        alias != primary,
        canonical != primary,
        failures_are_own(rows, primary),
    ensures
        failures_are_own(failures_renamed(rows, alias, canonical), primary),
        some_row(rows, |row: FailureModel| row.primary == primary) ==> some_row(
            failures_renamed(rows, alias, canonical),
            |row: FailureModel| row.primary == primary,
        ),
{
    let at_alias = |row: FailureModel| row.primary == alias;
    let same = |row: FailureModel| row.primary == canonical;
    let keep = |row: FailureModel| row.primary != alias;
    let own = |row: FailureModel| row.primary == primary;
    let changed = match first_row(rows, at_alias) {
        Some(moved) => upserted(
            rows,
            same,
            |row: FailureModel| failure_merged(row, moved),
            FailureModel { primary: canonical, ..moved },
        ),
        None => rows,
    };
    let after = failures_renamed(rows, alias, canonical);
    assert(after == changed.filter(keep));
    assert forall|k: int| 0 <= k < rows.len() implies changed.len() >= rows.len() && (rows[k].primary == primary
        ==> #[trigger] changed[k] == rows[k]) by {}
    assert forall|k: int| 0 <= k < changed.len() && (#[trigger] changed[k]).primary == primary implies k < rows.len()
        && changed[k] == rows[k] by {
        if first_row(rows, at_alias) is Some && !some_row(rows, same) && k == rows.len() {
            assert(changed[k].primary == canonical);
        } else if k < rows.len() && same(rows[k]) {
            assert(changed[k].primary == canonical || changed[k] == rows[k]);
        }
    }
    assert forall|k: int| 0 <= k < after.len() && (#[trigger] after[k]).primary == primary implies after[k].canonical_primary
        == Some(primary) by {
        changed.lemma_filter_contains_rev(keep, after[k]);
        let i = choose|i: int| 0 <= i < changed.len() && changed[i] == after[k];
        assert(rows[i] == after[k]);
    }
    if some_row(rows, own) {
        let i = choose|i: int| 0 <= i < rows.len() && own(#[trigger] rows[i]);
        assert(changed[i] == rows[i]);
        assert(keep(changed[i]));
        changed.lemma_filter_contains(keep, i);
        let k = choose|k: int| 0 <= k < after.len() && after[k] == changed[i];
        assert(own(after[k]));
    }
}

proof fn lemma_failed_aliases_failures(
    store: StoreModel,
    aliases: Seq<Seq<char>>,
    canonical: Seq<char>,
    primary: Seq<char>,
)
    requires
        !aliases.contains(primary),
        canonical != primary,
        failures_are_own(store.worktree_discovery_failures, primary),
    ensures
        failures_are_own(failed_aliases_rekeyed(store, aliases, canonical).worktree_discovery_failures, primary),
        some_row(store.worktree_discovery_failures, |row: FailureModel| row.primary == primary) ==> some_row(
            failed_aliases_rekeyed(store, aliases, canonical).worktree_discovery_failures,
            |row: FailureModel| row.primary == primary,
        ),
    decreases aliases.len(),
{
    if aliases.len() > 0 {
        let rest = aliases.drop_last();
        assert forall|i: int| 0 <= i < rest.len() implies rest[i] != primary by {
            assert(aliases[i] == rest[i]);
        }
        assert(aliases[aliases.len() - 1] != primary);
        lemma_failed_aliases_failures(store, rest, canonical, primary);
        let before = failed_aliases_rekeyed(store, rest, canonical);
        lemma_renamed_failures(before.worktree_discovery_failures, aliases.last(), canonical, primary);
        assert(failed_aliases_rekeyed(store, aliases, canonical) == failed_alias_rekeyed(before, aliases.last(), canonical));
    }
}

proof fn lemma_merged_failures(store: StoreModel, canonical: Seq<char>, primary: Seq<char>)
    requires
        canonical != primary,
        failures_are_own(store.worktree_discovery_failures, primary),
    ensures
        failures_are_own(aliases_merged(store, canonical).worktree_discovery_failures, primary),
        some_row(store.worktree_discovery_failures, |row: FailureModel| row.primary == primary) ==> some_row(
            aliases_merged(store, canonical).worktree_discovery_failures,
            |row: FailureModel| row.primary == primary,
        ),
{
    let failures = store.worktree_discovery_failures;
    let aliases = failed_aliases(failures, canonical);
    let pick = |row: FailureModel|
        if row.canonical_primary == Some(canonical) && row.primary != canonical {
            Some(row.primary)
        } else {
            None::<Seq<char>>
        };
    let list = picked(failures, pick);
    picked_are_of_rows(failures, pick);
    text_set_holds(list, primary);
    if list.contains(primary) {
        let k = choose|k: int| 0 <= k < list.len() && list[k] == primary;
        let i = choose|i: int| 0 <= i < failures.len() && pick(#[trigger] failures[i]) == Some(list[k]);
        assert(failures[i].primary == primary);
    }
    lemma_failed_aliases_failures(store, aliases, canonical, primary);
    let merged = failed_aliases_rekeyed(store, aliases, canonical);
    lemma_linked_aliases_links(merged, linked_aliases(merged.linked_worktrees, canonical), canonical);
}

/// What may follow keeps standing what stood: own failures stay own, a checkout that
/// stands as failed goes on to, and every association that may be one of it stays.
pub proof fn what_follows_leaves_standing(store: StoreModel, next: StoreModel, primary: Seq<char>)
    requires
        follows(store, next, primary),
        failures_are_own(store.worktree_discovery_failures, primary),
    ensures
        failures_are_own(next.worktree_discovery_failures, primary),
        stands_as_failed(store, primary) ==> stands_as_failed(next, primary),
        forall|linked: Seq<char>| #[trigger]
            stands_as_linked(store, primary, linked) ==> stands_as_linked(next, primary, linked),
{
    let own = |row: FailureModel| row.primary == primary;
    let failures = store.worktree_discovery_failures;
    if exists|success: SuccessModel| success.primary != primary && next == #[trigger] with_worktrees(store, success) {
        let success = choose|success: SuccessModel|
            success.primary != primary && next == #[trigger] with_worktrees(store, success);
        lemma_merged_links(store, success.primary);
        lemma_merged_failures(store, success.primary, primary);
        let merged = if success.canonical_primary is Some {
            aliases_merged(store, success.primary)
        } else {
            store
        };
        assert(next == worktrees_replaced(merged, success));
        let rows = merged.worktree_discovery_failures;
        let keep = |row: FailureModel|
            !(row.primary == success.primary && row.canonical_primary == Some(success.primary));
        let after = next.worktree_discovery_failures;
        if !has_untrusted_failure(rows) {
            assert(after == rows.filter(keep));
            assert forall|k: int| 0 <= k < after.len() && (#[trigger] after[k]).primary == primary implies after[k].canonical_primary
                == Some(primary) by {
                rows.lemma_filter_contains_rev(keep, after[k]);
                let i = choose|i: int| 0 <= i < rows.len() && rows[i] == after[k];
                assert(rows[i].primary == primary);
            }
            if some_row(rows, own) {
                let i = choose|i: int| 0 <= i < rows.len() && own(#[trigger] rows[i]);
                assert(keep(rows[i]));
                rows.lemma_filter_contains(keep, i);
                let k = choose|k: int| 0 <= k < after.len() && after[k] == rows[i];
                assert(own(after[k]));
            }
        }
        let keep_link = |row: LinkedModel| row.canonical_primary != Some(success.primary);
        let kept = merged.linked_worktrees.filter(keep_link);
        let new = success.linked.map_values(
            |linked: Seq<char>|
                LinkedModel { primary: success.primary, linked, canonical_primary: success.canonical_primary },
        );
        lemma_links_added(kept, new);
        assert forall|linked: Seq<char>| #[trigger] stands_as_linked(store, primary, linked) implies stands_as_linked(
            next,
            primary,
            linked,
        ) by {
            let stands = |row: LinkedModel| row.linked == linked && may_belong(row, primary);
            let links = store.linked_worktrees;
            let j = choose|j: int| 0 <= j < links.len() && stands(#[trigger] links[j]);
            let row = links[j];
            assert(links.contains(row));
            assert(row.canonical_primary != Some(success.primary));
            assert(merged.linked_worktrees.contains(row));
            let i = choose|i: int| 0 <= i < merged.linked_worktrees.len() && merged.linked_worktrees[i] == row;
            if has_untrusted_failure(rows) {
                assert(stands(next.linked_worktrees[i]));
            } else {
                merged.linked_worktrees.lemma_filter_contains(keep_link, i);
                let k = choose|k: int| 0 <= k < kept.len() && kept[k] == row;
                assert(next.linked_worktrees == links_added(kept, new));
                assert(next.linked_worktrees[k] == row);
                assert(stands(next.linked_worktrees[k]));
            }
        }
    } else if exists|failure: NewFailureModel|
        (failure.primary == primary ==> failure.canonical_primary == Some(primary)) && next == #[trigger] with_failure(
            store,
            failure,
        ) {
        let failure = choose|failure: NewFailureModel|
            (failure.primary == primary ==> failure.canonical_primary == Some(primary)) && next
                == #[trigger] with_failure(store, failure);
        let after = next.worktree_discovery_failures;
        let same = |row: FailureModel| row.primary == failure.primary;
        assert forall|k: int| 0 <= k < after.len() && (#[trigger] after[k]).primary == primary implies after[k].canonical_primary
            == Some(primary) by {
            if k < failures.len() {
                assert(failures[k].primary == after[k].primary);
            }
        }
        if some_row(failures, own) {
            let i = choose|i: int| 0 <= i < failures.len() && own(#[trigger] failures[i]);
            assert(own(after[i]));
        }
    }
}

/// Whether each store of a history may follow the one before it.
pub open spec fn is_history(stores: Seq<StoreModel>, primary: Seq<char>) -> bool {
    &&& stores.len() > 0
    &&& forall|i: int| 0 <= i < stores.len() - 1 ==> follows(#[trigger] stores[i], stores[i + 1], primary)
}

proof fn lemma_history(stores: Seq<StoreModel>, primary: Seq<char>, from: int, to: int)
    requires
        is_history(stores, primary),
        0 <= from <= to < stores.len(),
        failures_are_own(stores[from].worktree_discovery_failures, primary),
    ensures
        failures_are_own(stores[to].worktree_discovery_failures, primary),
        stands_as_failed(stores[from], primary) ==> stands_as_failed(stores[to], primary),
        forall|linked: Seq<char>| #[trigger]
            stands_as_linked(stores[from], primary, linked) ==> stands_as_linked(stores[to], primary, linked),
    decreases to - from,
{
    if from < to {
        lemma_history(stores, primary, from, to - 1);
        assert(follows(stores[to - 1], stores[to - 1 + 1], primary));
        what_follows_leaves_standing(stores[to - 1], stores[to], primary);
    }
}

proof fn lemma_texts_of_paths(paths: Seq<Seq<u8>>, i: int)
    requires
        first_not_text(paths) is None,
        0 <= i < paths.len(),
    ensures
        valid_utf8(paths[i]),
        path_text_set(paths).contains(decode_utf8(paths[i])),
    decreases paths.len(),
{
    let list = paths.map_values(|path: Seq<u8>| decode_utf8(path));
    assert(list[i] == decode_utf8(paths[i]));
    text_set_holds(list, decode_utf8(paths[i]));
    if i > 0 {
        lemma_texts_of_paths(paths.drop_first(), i - 1);
    }
}

/// After a checkout was found to have worktrees and asking for them again failed, the
/// checkout and each of those worktrees is blocked, whatever other checkouts were
/// asked before or since, and no path is listed twice. Left out are stores in which a
/// failure that cannot be attributed kept the worktrees from being stored, a failure
/// that is recorded under the checkout's path but is not its own, and a worktree that
/// is recorded under that path as one of another physical checkout.
pub proof fn failures_block_what_was_discovered(
    store: StoreModel,
    known: Map<Seq<u8>, Resolved>,
    primary: Seq<u8>,
    linked: Seq<Seq<u8>>,
    excluded: Seq<Seq<u8>>,
    out_of_scope: Seq<Seq<u8>>,
    stores: Seq<StoreModel>,
    failed: int,
    known_then: Map<Seq<u8>, Resolved>,
    failed_at: int,
    message: Seq<char>,
    known_last: Map<Seq<u8>, Resolved>,
)
    requires
        physical_path(known, primary) == Finding::Known(Some(primary)),
        success_of(known, primary, linked, excluded, out_of_scope) is Ok,
        !has_untrusted_failure(aliases_merged(store, decode_utf8(primary)).worktree_discovery_failures),
        is_history(stores, decode_utf8(primary)),
        stores[0] == with_worktrees(store, success_of(known, primary, linked, excluded, out_of_scope)->Ok_0),
        failures_are_own(stores[0].worktree_discovery_failures, decode_utf8(primary)),
        0 <= failed < stores.len() - 1,
        physical_path(known_then, primary) == Finding::Known(Some(primary)),
        failure_of(known_then, primary, failed_at, message) is Ok,
        stores[failed + 1] == with_failure(
            stores[failed],
            failure_of(known_then, primary, failed_at, message)->Ok_0,
        ),
        blocked_paths(stores.last(), known_last) is Known,
    ensures
        is_blocked(blocked_paths(stores.last(), known_last)->Known_0, primary),
        forall|i: int|
            0 <= i < linked.len() && !linked_elsewhere(store, decode_utf8(primary), decode_utf8(#[trigger] linked[i]))
                ==> is_blocked(blocked_paths(stores.last(), known_last)->Known_0, linked[i]),
        blocked_paths(stores.last(), known_last)->Known_0.no_duplicates(),
{
    let success = success_of(known, primary, linked, excluded, out_of_scope)->Ok_0;
    let failure = failure_of(known_then, primary, failed_at, message)->Ok_0;
    let text = decode_utf8(primary);
    let last = stores.len() - 1;
    decode_utf8_encode_utf8(primary);
    assert(success.primary == text && success.canonical_primary == Some(text));
    assert(failure.primary == text && failure.canonical_primary == Some(text));
    lemma_history(stores, text, 0, failed);
    recorded_failures_stand(stores[failed], failure);
    lemma_history(stores, text, failed + 1, last);
    lemma_history(stores, text, 0, last);
    standing_failures_block(stores[last], known_last, text);
    assert forall|i: int|
        0 <= i < linked.len() && !linked_elsewhere(store, text, decode_utf8(#[trigger] linked[i])) implies is_blocked(
        blocked_paths(stores.last(), known_last)->Known_0,
        linked[i],
    ) by {
        lemma_texts_of_paths(linked, i);
        decode_utf8_encode_utf8(linked[i]);
        discovered_worktrees_stand(store, success, decode_utf8(linked[i]));
        assert(stands_as_linked(stores[0], text, decode_utf8(linked[i])));
    }
}

} // verus!
