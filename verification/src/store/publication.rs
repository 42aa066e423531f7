//! Everything that a scan found, stored at once or not at all.

use crate::path::path_views;
use crate::resolve::{Resolutions, Resolved};
use crate::store::blocking::{frozen_texts, identity_texts, pair_views, paths_replaced, replacements_of};
use crate::store::generations::{
    current_generation_of, generation_stored, is_new_generation, new_generation, store_generation,
    stored_generation_alone_is_valid,
};
use crate::store::history::{error_recorded_at, record_error_at};
use crate::store::rows::{copy_text, DiscoveryGeneration, ErrorRecord, ScanPublication, WorktreeReconciliation};
use crate::store::worktrees::{
    failure_of, mark_worktree_discovery_failed_in, prepare_worktree_failure, prepare_worktree_success,
    replace_linked_worktrees_in, replace_path, success_of, with_failure, with_worktrees, NewFailureModel, PreparedFailure,
    PreparedSuccess, SuccessModel,
};
use crate::store::{epoch_of, to_epoch, Store, StoreError, StoreFault, StoreModel};
use crate::time::SystemTime;
use crate::store::keys::{consistent, lemma_changes_keep_records, lemma_replacing_keeps_records, published_scans_keep_consistency};
use vstd::prelude::*;

verus! {

/// What is stored of asking one checkout for its worktrees.
pub enum WorktreeChange {
    Success(SuccessModel),
    Failure(NewFailureModel),
}

/// A checked change.
pub enum PreparedWorktree {
    Success(PreparedSuccess),
    Failure(PreparedFailure),
}

impl View for PreparedWorktree {
    type V = WorktreeChange;

    open spec fn view(&self) -> WorktreeChange {
        match self {
            PreparedWorktree::Success(success) => WorktreeChange::Success(success.model()),
            PreparedWorktree::Failure(failure) => WorktreeChange::Failure(failure.model()),
        }
    }
}

/// What is stored of a worktree reconciliation, or why nothing is.
pub open spec fn change_of(known: Map<Seq<u8>, Resolved>, now: int, worktree: WorktreeReconciliation) -> Result<
    WorktreeChange,
    StoreFault,
> {
    match worktree {
        WorktreeReconciliation::Success { primary, linked, excluded, out_of_scope } => match success_of(
            known,
            primary@,
            path_views(linked@),
            path_views(excluded@),
            path_views(out_of_scope@),
        ) {
            Ok(success) => Ok(WorktreeChange::Success(success)),
            Err(fault) => Err(fault),
        },
        WorktreeReconciliation::Failure { primary, message } => match failure_of(known, primary@, now, message@) {
            Ok(failure) => Ok(WorktreeChange::Failure(failure)),
            Err(fault) => Err(fault),
        },
    }
}

/// What is stored of several worktree reconciliations, or why nothing is.
pub open spec fn changes_of(known: Map<Seq<u8>, Resolved>, now: int, worktrees: Seq<WorktreeReconciliation>) -> Result<
    Seq<WorktreeChange>,
    StoreFault,
>
    decreases worktrees.len(),
{
    if worktrees.len() == 0 {
        Ok(Seq::empty())
    } else {
        match changes_of(known, now, worktrees.drop_last()) {
            Err(fault) => Err(fault),
            Ok(before) => match change_of(known, now, worktrees.last()) {
                Err(fault) => Err(fault),
                Ok(change) => Ok(before.push(change)),
            },
        }
    }
}

/// The store after one change.
pub open spec fn change_applied(store: StoreModel, change: WorktreeChange) -> StoreModel {
    match change {
        WorktreeChange::Success(success) => with_worktrees(store, success),
        WorktreeChange::Failure(failure) => with_failure(store, failure),
    }
}

/// The store after several changes.
pub open spec fn changes_applied(store: StoreModel, changes: Seq<WorktreeChange>) -> StoreModel
    decreases changes.len(),
{
    if changes.len() == 0 {
        store
    } else {
        change_applied(changes_applied(store, changes.drop_last()), changes.last())
    }
}

/// Whether no error has a time before the epoch.
pub open spec fn times_storable(errors: Seq<ErrorRecord>) -> bool {
    forall|i: int| 0 <= i < errors.len() ==> epoch_of((#[trigger] errors[i]).ts@) is Some
}

/// The store with more errors.
pub open spec fn errors_recorded(store: StoreModel, errors: Seq<ErrorRecord>) -> Result<StoreModel, StoreFault>
    decreases errors.len(),
{
    if errors.len() == 0 {
        Ok(store)
    } else {
        match errors_recorded(store, errors.drop_last()) {
            Err(fault) => Err(fault),
            Ok(before) => error_recorded_at(before, errors.last(), epoch_of(errors.last().ts@)->0),
        }
    }
}

/// The store after the publication of a scan, or why it cannot be stored.
pub open spec fn scan_published(
    store: StoreModel,
    known: Map<Seq<u8>, Resolved>,
    created_at: int,
    publication: ScanPublication,
) -> Result<StoreModel, StoreFault> {
    match epoch_of(created_at) {
        None => Err(StoreFault::BeforeEpoch),
        Some(secs) => match replacements_of(known, frozen_texts(store), identity_texts(store)) {
            Err(fault) => Err(fault),
            Ok(pairs) => match changes_of(known, created_at, publication.worktrees@) {
                Err(fault) => Err(fault),
                Ok(changes) => if !times_storable(publication.diagnostics@) {
                    Err(StoreFault::BeforeEpoch)
                } else {
                    match generation_stored(
                        changes_applied(paths_replaced(store, pairs), changes),
                        secs,
                        publication.generation,
                    ) {
                        Err(fault) => Err(fault),
                        Ok(next) => errors_recorded(next, publication.diagnostics@),
                    }
                },
            },
        },
    }
}

fn prepare_worktree_reconciliation(worktree: &WorktreeReconciliation, now: SystemTime, known: &Resolutions) -> (result: Result<
    PreparedWorktree,
    StoreError,
>)
    ensures
        match change_of(known@, now@, *worktree) {
            Ok(change) => result matches Ok(prepared) && prepared@ == change,
            Err(fault) => result matches Err(error) && error@ == fault,
        },
{
    match worktree {
        WorktreeReconciliation::Success { primary, linked, excluded, out_of_scope } => match prepare_worktree_success(
            primary,
            linked,
            excluded,
            out_of_scope,
            known,
        ) {
            Ok(success) => Ok(PreparedWorktree::Success(success)),
            Err(error) => Err(error),
        },
        WorktreeReconciliation::Failure { primary, message } => match prepare_worktree_failure(
            primary,
            now,
            message.as_str(),
            known,
        ) {
            Ok(failure) => Ok(PreparedWorktree::Failure(failure)),
            Err(error) => Err(error),
        },
    }
}

/// The contents of checked changes.
pub open spec fn change_views(changes: Seq<PreparedWorktree>) -> Seq<WorktreeChange> {
    changes.map_values(|change: PreparedWorktree| change@)
}

proof fn lemma_early_change_fault(
    known: Map<Seq<u8>, Resolved>,
    now: int,
    worktrees: Seq<WorktreeReconciliation>,
    n: int,
)
    requires
        0 <= n <= worktrees.len(),
        changes_of(known, now, worktrees.take(n)) is Err,
    ensures
        changes_of(known, now, worktrees) == changes_of(known, now, worktrees.take(n)),
    decreases worktrees.len() - n,
{
    if n < worktrees.len() {
        assert(worktrees.take(n + 1).drop_last() =~= worktrees.take(n));
        lemma_early_change_fault(known, now, worktrees, n + 1);
    } else {
        assert(worktrees.take(n) =~= worktrees);
    }
}

fn prepare_worktrees(worktrees: &Vec<WorktreeReconciliation>, now: SystemTime, known: &Resolutions) -> (result: Result<
    Vec<PreparedWorktree>,
    StoreError,
>)
    ensures
        match changes_of(known@, now@, worktrees@) {
            Ok(changes) => result matches Ok(list) && change_views(list@) == changes,
            Err(fault) => result matches Err(error) && error@ == fault,
        },
{
    let ghost all = worktrees@;
    let mut list: Vec<PreparedWorktree> = Vec::new();
    let mut i: usize = 0;
    assert(all.take(0) =~= Seq::empty());
    assert(change_views(list@) =~= Seq::empty());
    while i < worktrees.len()
        invariant
            i <= worktrees.len(),
            all == worktrees@,
            changes_of(known@, now@, all.take(i as int)) == Ok::<Seq<WorktreeChange>, StoreFault>(change_views(list@)),
        decreases worktrees.len() - i,
    {
        proof {
            assert(all.take(i + 1).drop_last() =~= all.take(i as int));
            assert(all.take(i + 1).last() == all[i as int]);
        }
        match prepare_worktree_reconciliation(&worktrees[i], now, known) {
            Ok(prepared) => {
                let ghost before = change_views(list@);
                list.push(prepared);
                assert(change_views(list@) =~= before.push(prepared@));
            },
            Err(error) => {
                proof {
                    lemma_early_change_fault(known@, now@, all, i + 1);
                }
                return Err(error);
            },
        }
        i += 1;
    }
    assert(all.take(i as int) =~= all);
    Ok(list)
}

fn can_store_times(errors: &Vec<ErrorRecord>) -> (can: bool)
    ensures
        can == times_storable(errors@),
{
    let mut i: usize = 0;
    while i < errors.len()
        invariant
            i <= errors.len(),
            forall|k: int| 0 <= k < i ==> epoch_of((#[trigger] errors@[k]).ts@) is Some,
        decreases errors.len() - i,
    {
        match to_epoch(errors[i].ts) {
            Ok(_) => {},
            Err(_) => return false,
        }
        i += 1;
    }
    true
}

proof fn lemma_early_error_fault(store: StoreModel, errors: Seq<ErrorRecord>, n: int)
    requires
        0 <= n <= errors.len(),
        errors_recorded(store, errors.take(n)) is Err,
    ensures
        errors_recorded(store, errors) == errors_recorded(store, errors.take(n)),
    decreases errors.len() - n,
{
    if n < errors.len() {
        assert(errors.take(n + 1).drop_last() =~= errors.take(n));
        lemma_early_error_fault(store, errors, n + 1);
    } else {
        assert(errors.take(n) =~= errors);
    }
}

fn record_errors(store: &mut Store, errors: &Vec<ErrorRecord>) -> (result: Result<(), StoreError>)
    requires
        times_storable(errors@),
    ensures
        match errors_recorded(old(store)@, errors@) {
            Ok(after) => result is Ok && final(store)@ == after,
            Err(fault) => result matches Err(error) && error@ == fault,
        },
{
    let ghost all = errors@;
    let ghost start = store@;
    let mut i: usize = 0;
    assert(all.take(0) =~= Seq::empty());
    while i < errors.len()
        invariant
            i <= errors.len(),
            all == errors@,
            times_storable(errors@),
            start == old(store)@,
            errors_recorded(start, all.take(i as int)) == Ok::<StoreModel, StoreFault>(store@),
        decreases errors.len() - i,
    {
        proof {
            assert(all.take(i + 1).drop_last() =~= all.take(i as int));
            assert(all.take(i + 1).last() == all[i as int]);
        }
        match to_epoch(errors[i].ts) {
            Ok(secs) => match record_error_at(store, &errors[i], secs) {
                Ok(_) => {},
                Err(error) => {
                    proof {
                        lemma_early_error_fault(start, all, i + 1);
                    }
                    return Err(error);
                },
            },
            Err(error) => return Err(error),
        }
        i += 1;
    }
    assert(all.take(i as int) =~= all);
    Ok(())
}

impl Store {
    /// Stores everything that a scan found. Where that fails, nothing changes.
    pub fn publish_scan(&mut self, created_at: SystemTime, publication: &ScanPublication, known: &Resolutions) -> (result: Result<
        DiscoveryGeneration,
        StoreError,
    >)
        ensures
            match scan_published(old(self)@, known@, created_at@, *publication) {
                Err(fault) => result matches Err(error) && error@ == fault && final(self)@ == old(self)@,
                Ok(store) => final(self)@ == store && (result matches Ok(generation) && is_new_generation(
                    generation,
                    old(self)@.next_generation_id,
                    created_at,
                    publication.generation,
                )),
            },
            consistent(old(self)@) ==> consistent(final(self)@),
    {
        proof {
            if consistent(self@) {
                published_scans_keep_consistency(self@, known@, created_at@, *publication);
            }
        }
        let secs: i64 = match to_epoch(created_at) {
            Ok(secs) => secs,
            Err(error) => return Err(error),
        };
        let pairs = match self.resolvable_project_alias_replacements(known) {
            Ok(pairs) => pairs,
            Err(error) => return Err(error),
        };
        let changes = match prepare_worktrees(&publication.worktrees, created_at, known) {
            Ok(changes) => changes,
            Err(error) => return Err(error),
        };
        if !can_store_times(&publication.diagnostics) {
            return Err(StoreError::BeforeEpoch);
        }
        let mut next = self.duplicate();
        let ghost start = next@;
        let ghost all_pairs = pair_views(pairs@);
        let mut i: usize = 0;
        assert(all_pairs.take(0) =~= Seq::empty());
        while i < pairs.len()
            invariant
                i <= pairs.len(),
                all_pairs == pair_views(pairs@),
                next@ == paths_replaced(start, all_pairs.take(i as int)),
                next@.next_generation_id == start.next_generation_id,
            decreases pairs.len() - i,
        {
            proof {
                assert(all_pairs.take(i + 1).drop_last() =~= all_pairs.take(i as int));
                assert(all_pairs.take(i + 1).last() == (pairs@[i as int].0@, pairs@[i as int].1@));
            }
            replace_path(&mut next, pairs[i].0.as_str(), pairs[i].1.as_str());
            i += 1;
        }
        assert(all_pairs.take(i as int) =~= all_pairs);
        let ghost renamed = next@;
        let ghost all_changes = change_views(changes@);
        let mut j: usize = 0;
        assert(all_changes.take(0) =~= Seq::empty());
        while j < changes.len()
            invariant
                j <= changes.len(),
                all_changes == change_views(changes@),
                next@ == changes_applied(renamed, all_changes.take(j as int)),
            decreases changes.len() - j,
        {
            proof {
                assert(all_changes.take(j + 1).drop_last() =~= all_changes.take(j as int));
                assert(all_changes.take(j + 1).last() == changes@[j as int]@);
            }
            match &changes[j] {
                PreparedWorktree::Success(success) => replace_linked_worktrees_in(&mut next, success),
                PreparedWorktree::Failure(failure) => mark_worktree_discovery_failed_in(&mut next, failure),
            }
            j += 1;
        }
        assert(all_changes.take(j as int) =~= all_changes);
        proof {
            lemma_changes_keep_numbers(renamed, all_changes);
        }
        let id: i64 = next.next_generation_id;
        match store_generation(&mut next, secs, &publication.generation) {
            Ok(_) => {},
            Err(error) => return Err(error),
        }
        match record_errors(&mut next, &publication.diagnostics) {
            Ok(_) => {},
            Err(error) => return Err(error),
        }
        *self = next;
        Ok(
            DiscoveryGeneration {
                id,
                created_at,
                policy_hash: publication.generation.policy_hash.clone(),
                boot_session_id: copy_text(&publication.generation.boot_session_id),
            },
        )
    }
}

/// What changes to worktrees leave alone.
pub open spec fn same_discovery(a: StoreModel, b: StoreModel) -> bool {
    &&& a.discovery_generations == b.discovery_generations
    &&& a.discovery_origins == b.discovery_origins
    &&& a.project_observations == b.project_observations
    &&& a.next_generation_id == b.next_generation_id
    &&& a.next_origin_id == b.next_origin_id
}

proof fn lemma_changes_keep_numbers(store: StoreModel, changes: Seq<WorktreeChange>)
    ensures
        same_discovery(changes_applied(store, changes), store),
    decreases changes.len(),
{
    if changes.len() > 0 {
        let before = changes_applied(store, changes.drop_last());
        lemma_changes_keep_numbers(store, changes.drop_last());
        match changes.last() {
            WorktreeChange::Success(success) => {
                crate::store::worktrees::worktrees_leave_discovery(before, success);
            },
            WorktreeChange::Failure(failure) => {},
        }
    }
}

// ---------------------------------------------------------------------- laws

proof fn lemma_errors_keep_discovery(store: StoreModel, errors: Seq<ErrorRecord>)
    ensures
        errors_recorded(store, errors) matches Ok(after) ==> same_discovery(after, store),
    decreases errors.len(),
{
    if errors.len() > 0 {
        lemma_errors_keep_discovery(store, errors.drop_last());
    }
}

/// Publishing a scan makes its generation the current one of its policy, and the only one
/// that is valid: under every other policy there is none.
pub proof fn published_generation_alone_is_valid(
    store: StoreModel,
    known: Map<Seq<u8>, Resolved>,
    created_at: int,
    publication: ScanPublication,
)
    requires
        consistent(store),
        scan_published(store, known, created_at, publication) is Ok,
    ensures
        scan_published(store, known, created_at, publication) matches Ok(after) && {
            let rows = after.discovery_generations;
            let hash = publication.generation.policy_hash@;
            &&& consistent(after)
            &&& current_generation_of(rows, hash) == Some(
                new_generation(store.next_generation_id, epoch_of(created_at)->0, publication.generation),
            )
            &&& forall|other: Seq<char>| other != hash ==> (#[trigger] current_generation_of(rows, other)) is None
            &&& forall|i: int|
                0 <= i < rows.len() && (#[trigger] rows[i]).authority_valid ==> rows[i].id == store.next_generation_id
        },
{
    let secs = epoch_of(created_at)->0;
    let pairs = replacements_of(known, frozen_texts(store), identity_texts(store))->Ok_0;
    let changes = changes_of(known, created_at, publication.worktrees@)->Ok_0;
    let renamed = paths_replaced(store, pairs);
    let changed = changes_applied(renamed, changes);
    lemma_replacing_keeps_records(store, pairs);
    lemma_changes_keep_records(renamed, changes);
    stored_generation_alone_is_valid(changed, secs, publication.generation);
    let next = generation_stored(changed, secs, publication.generation)->Ok_0;
    lemma_errors_keep_discovery(next, publication.diagnostics@);
    published_scans_keep_consistency(store, known, created_at, publication);
}

} // verus!
