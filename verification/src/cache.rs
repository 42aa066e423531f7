//! The known projects, brought in line with what is on disk.

use crate::path::{path_views, paths_equal, same_path, PathBuf};
use crate::policy::{among, is_among, Exclusions};
use crate::resolve::{physical_path, Answer, Finding, Resolutions, Resolved};
use crate::store::blocking::{frozen_texts, identity_texts, paths_replaced, replacements_of, without_excluded};
use crate::store::projects::{project_is, project_renamed, projects_by_path, without_project};
use crate::store::rows::ProjectModel;
use crate::store::{Store, StoreError, StoreFault, StoreModel};
use crate::store::keys::consistent;
use vstd::prelude::*;
use vstd::utf8::*;

verus! {

/// Keeps the known projects in line with what is on disk.
#[derive(Debug, Clone, Copy, PartialEq, Eq)]
pub struct Cache;

/// How far the projects have been brought in line.
pub struct Sync {
    pub store: StoreModel,
    pub removed: Seq<Seq<u8>>,
    pub fault: Option<StoreFault>,
}

/// One more project brought in line: removed where no project is on disk, and
/// otherwise known by its physical path.
pub open spec fn project_synced(sync: Sync, known: Map<Seq<u8>, Resolved>, present: Seq<PathBuf>, name: Seq<char>) -> Sync {
    let path = encode_utf8(name);
    if sync.fault is Some {
        sync
    } else if !among(path, present) {
        Sync {
            store: StoreModel { projects: without_project(sync.store.projects, name), ..sync.store },
            removed: sync.removed.push(path),
            fault: None,
        }
    } else {
        match physical_path(known, path) {
            Finding::Unresolved(p) => Sync { fault: Some(StoreFault::Unresolved(p)), ..sync },
            Finding::Known(None) => Sync { fault: Some(StoreFault::Unresolvable(path)), ..sync },
            Finding::Known(Some(physical)) => if same_path(physical, path) {
                sync
            } else if !valid_utf8(physical) {
                Sync { fault: Some(StoreFault::NotText(physical)), ..sync }
            } else {
                Sync {
                    store: StoreModel {
                        projects: if name == decode_utf8(physical) {
                            sync.store.projects
                        } else {
                            project_renamed(sync.store.projects, name, decode_utf8(physical))
                        },
                        ..sync.store
                    },
                    ..sync
                }
            },
        }
    }
}

/// Several projects brought in line one by one.
pub open spec fn projects_synced(
    store: StoreModel,
    known: Map<Seq<u8>, Resolved>,
    present: Seq<PathBuf>,
    names: Seq<Seq<char>>,
) -> Sync
    decreases names.len(),
{
    if names.len() == 0 {
        Sync { store, removed: Seq::empty(), fault: None }
    } else {
        project_synced(projects_synced(store, known, present, names.drop_last()), known, present, names.last())
    }
}

/// All projects brought in line, after aliases have been replaced.
pub open spec fn synced(store: StoreModel, known: Map<Seq<u8>, Resolved>, present: Seq<PathBuf>) -> Sync {
    match replacements_of(known, frozen_texts(store), identity_texts(store)) {
        Err(fault) => Sync { store, removed: Seq::empty(), fault: Some(fault) },
        Ok(pairs) => {
            let normalized = paths_replaced(store, pairs);
            projects_synced(
                normalized,
                known,
                present,
                projects_by_path(normalized.projects).map_values(|row: ProjectModel| row.path),
            )
        },
    }
}

/// The store before a review: without what is excluded, and with physical paths;
/// or how far that went and why it stopped.
pub open spec fn reconciled<E: Exclusions>(store: StoreModel, exclusions: &E, known: Map<Seq<u8>, Resolved>) -> (
    StoreModel,
    Option<StoreFault>,
) {
    match without_excluded(store, exclusions, known) {
        Err(fault) => (store, Some(fault)),
        Ok(kept) => match replacements_of(known, frozen_texts(kept), identity_texts(kept)) {
            Err(fault) => (kept, Some(fault)),
            Ok(pairs) => (paths_replaced(kept, pairs), None),
        },
    }
}

proof fn lemma_sync_stops(
    store: StoreModel,
    known: Map<Seq<u8>, Resolved>,
    present: Seq<PathBuf>,
    names: Seq<Seq<char>>,
    n: int,
)
    requires
        0 <= n <= names.len(),
        projects_synced(store, known, present, names.take(n)).fault is Some,
    ensures
        projects_synced(store, known, present, names) == projects_synced(store, known, present, names.take(n)),
    decreases names.len() - n,
{
    if n < names.len() {
        assert(names.take(n + 1).drop_last() =~= names.take(n));
        lemma_sync_stops(store, known, present, names, n + 1);
    } else {
        assert(names.take(n) =~= names);
    }
}

impl Cache {
    /// Whether a project is on disk: a directory with a manifest in it.
    pub fn verify(is_directory: bool, has_manifest: bool) -> (present: bool)
        ensures
            present == (is_directory && has_manifest),
    {
        is_directory && has_manifest
    }

    /// Brings the projects in line with what is on disk; `present` lists the paths
    /// at which projects are. Gives the projects that were removed.
    pub fn sync_on_disk(store: &mut Store, present: &Vec<PathBuf>, known: &Resolutions) -> (result: Result<
        Vec<PathBuf>,
        StoreError,
    >)
        ensures
            final(store)@ == synced(old(store)@, known@, present@).store,
            match synced(old(store)@, known@, present@).fault {
                Some(fault) => result matches Err(error) && error@ == fault,
                None => result matches Ok(removed) && path_views(removed@) == synced(
                    old(store)@,
                    known@,
                    present@,
                ).removed,
            },
            consistent(old(store)@) ==> consistent(final(store)@),
    {
        match store.normalize_resolvable_project_aliases(known) {
            Ok(_) => {},
            Err(error) => return Err(error),
        }
        let projects = store.all_projects();
        let ghost start = store@;
        let ghost sorted = projects_by_path(start.projects);
        let ghost names = sorted.map_values(|row: ProjectModel| row.path);
        let mut removed: Vec<PathBuf> = Vec::new();
        let mut i: usize = 0;
        assert(names.take(0) =~= Seq::empty());
        assert(path_views(removed@) =~= Seq::empty());
        while i < projects.len()
            invariant
                i <= projects.len(),
                projects@.len() == sorted.len(),
                names == sorted.map_values(|row: ProjectModel| row.path),
                forall|k: int| 0 <= k < projects@.len() ==> project_is(#[trigger] projects@[k], sorted[k]),
                projects_synced(start, known@, present@, names.take(i as int)) == (Sync {
                    store: store@,
                    removed: path_views(removed@),
                    fault: None,
                }),
                synced(old(store)@, known@, present@) == projects_synced(start, known@, present@, names),
                consistent(old(store)@) ==> consistent(store@),
            decreases projects.len() - i,
        {
            let path = PathBuf::new(projects[i].path.as_str());
            proof {
                assert(project_is(projects@[i as int], sorted[i as int]));
                assert(names.take(i + 1).drop_last() =~= names.take(i as int));
                assert(names.take(i + 1).last() == projects@[i as int].path@);
                encode_utf8_decode_utf8(projects@[i as int].path@);
                encode_utf8_valid_utf8(projects@[i as int].path@);
                if projects_synced(start, known@, present@, names.take(i + 1)).fault is Some {
                    lemma_sync_stops(start, known@, present@, names, i + 1);
                }
            }
            if !is_among(&path, present) {
                match store.remove_project(&path) {
                    Ok(_) => {},
                    Err(error) => return Err(error),
                }
                let ghost before = path_views(removed@);
                removed.push(path);
                assert(path_views(removed@) =~= before.push(path@));
            } else {
                match known.physical(&path) {
                    Answer::Unresolved(p) => return Err(StoreError::Unresolved(p)),
                    Answer::Known(None) => return Err(StoreError::Unresolvable(path)),
                    Answer::Known(Some(physical)) => {
                        if !paths_equal(&physical, &path) {
                            match store.replace_cached_project_path(&path, &physical) {
                                Ok(_) => {},
                                Err(error) => return Err(error),
                            }
                        }
                    },
                }
            }
            i += 1;
        }
        assert(names.take(i as int) =~= names);
        Ok(removed)
    }

    /// Removes what is excluded and replaces aliases, before a review. No project is
    /// reported as removed.
    pub fn reconcile_for_review<E: Exclusions>(store: &mut Store, exclusions: &E, known: &Resolutions) -> (result: Result<
        Vec<PathBuf>,
        StoreError,
    >)
        ensures
            final(store)@ == reconciled(old(store)@, exclusions, known@).0,
            match reconciled(old(store)@, exclusions, known@).1 {
                Some(fault) => result matches Err(error) && error@ == fault,
                None => result matches Ok(removed) && removed@.len() == 0,
            },
            consistent(old(store)@) ==> consistent(final(store)@),
    {
        match store.reconcile_excluded_discovery_state(exclusions, known) {
            Ok(_) => match store.normalize_resolvable_project_aliases(known) {
                Ok(_) => Ok(Vec::new()),
                Err(error) => Err(error),
            },
            Err(error) => Err(error),
        }
    }
}

} // verus!
