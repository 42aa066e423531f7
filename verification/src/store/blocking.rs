//! Which paths must not be cleaned because the worktrees of their repository are
//! not known, and how stored paths are brought in line with the file system.

use crate::order::{
    lex_irreflexive, lex_less, path_rank, path_rank_is_path_equality, sorted_distinct, sorted_distinct_exists,
    sorted_distinct_holds, text_rank,
};
use crate::path::{path_views, paths_equal, same_path, PathBuf};
use crate::policy::scope::{sort_paths, sort_texts};
use crate::policy::Exclusions;
use crate::resolve::{physical_path, Answer, Finding, Resolution, Resolutions, Resolved};
use crate::store::projects::projects_by_path;
use crate::store::rows::{texts_match, FailureModel, FailureRow, LinkedModel, LinkedRow, ProjectModel, ProjectRow};
use crate::store::table::{any_row, pick_rows, picked, picked_are_of_rows, retain_rows, rows_view, some_row};
use crate::store::worktrees::{
    has_text, has_untrusted_failure, path_replaced, physical_string, physical_text, replace_path, some_untrusted_failure,
    text_set, text_set_holds,
};
use crate::store::{path_to_string, Store, StoreError, StoreFault, StoreModel};
use crate::text::texts;
use crate::store::keys::{consistent, lemma_replacing_keeps_records};
use vstd::prelude::*;
use vstd::utf8::*;

verus! {

/// Whether an association belongs to a physical primary that failed.
pub open spec fn link_failed(failures: Seq<FailureModel>, row: LinkedModel) -> bool {
    row.canonical_primary is Some && some_row(
        failures,
        |failure: FailureModel| failure.canonical_primary == row.canonical_primary,
    )
}

/// The paths that a failure with a known physical primary blocks: the primary and
/// its worktrees.
pub open spec fn trusted_texts(store: StoreModel) -> Seq<Seq<char>> {
    picked(store.worktree_discovery_failures, |row: FailureModel| row.canonical_primary) + failed_links(store)
}

/// The worktrees of the physical primaries that failed.
pub open spec fn failed_links(store: StoreModel) -> Seq<Seq<char>> {
    picked(
        store.linked_worktrees,
        |row: LinkedModel|
            if link_failed(store.worktree_discovery_failures, row) {
                Some(row.linked)
            } else {
                None
            },
    )
}

/// Both ends of the associations that are selected.
pub open spec fn link_ends(rows: Seq<LinkedModel>, selected: spec_fn(LinkedModel) -> bool) -> Seq<Seq<char>> {
    picked(
        rows,
        |row: LinkedModel|
            if selected(row) {
                Some(row.primary)
            } else {
                None
            },
    ) + picked(
        rows,
        |row: LinkedModel|
            if selected(row) {
                Some(row.linked)
            } else {
                None
            },
    )
}

/// The paths that take part in a failure in any way.
pub open spec fn active_texts(store: StoreModel) -> Seq<Seq<char>> {
    picked(store.worktree_discovery_failures, |row: FailureModel| Some(row.primary)) + failed_links(store) + (if
    store.worktree_discovery_failures.len() > 0 {
        link_ends(store.linked_worktrees, |row: LinkedModel| row.canonical_primary is None)
    } else {
        Seq::empty()
    })
}

/// The paths whose meaning for worktrees is fixed: those of a failure, and both
/// ends of every association.
pub open spec fn frozen_texts(store: StoreModel) -> Seq<Seq<char>> {
    text_set(active_texts(store)) + link_ends(store.linked_worktrees, |row: LinkedModel| true)
}

/// Whether every path is its own physical path.
pub open spec fn all_physical(known: Map<Seq<u8>, Resolved>, paths: Seq<Seq<u8>>) -> Finding<bool>
    decreases paths.len(),
{
    if paths.len() == 0 {
        Finding::Known(true)
    } else {
        match physical_path(known, paths[0]) {
            Finding::Unresolved(path) => Finding::Unresolved(path),
            Finding::Known(None) => Finding::Known(false),
            Finding::Known(Some(physical)) => if same_path(physical, paths[0]) {
                all_physical(known, paths.drop_first())
            } else {
                Finding::Known(false)
            },
        }
    }
}

/// The paths with these texts.
pub open spec fn paths_of(list: Seq<Seq<char>>) -> Seq<Seq<u8>> {
    list.map_values(|text: Seq<char>| encode_utf8(text))
}

/// Everything that may be meant by a failure that cannot be attributed: the paths
/// of failures and all projects.
pub open spec fn fail_closed_paths(store: StoreModel) -> Seq<Seq<u8>> {
    sorted_distinct(
        paths_of(text_set(active_texts(store))) + paths_of(text_set(trusted_texts(store))) + paths_of(
            projects_by_path(store.projects).map_values(|row: ProjectModel| row.path),
        ),
        |path: Seq<u8>| path_rank(path),
    )
}

/// Whether some failure cannot be attributed to the paths it concerns.
pub open spec fn unattributed(store: StoreModel) -> bool {
    has_untrusted_failure(store.worktree_discovery_failures) || (store.worktree_discovery_failures.len() > 0
        && some_row(store.linked_worktrees, |row: LinkedModel| row.canonical_primary is None))
}

/// The paths that failures block.
pub open spec fn blocked_paths(store: StoreModel, known: Map<Seq<u8>, Resolved>) -> Finding<Seq<Seq<u8>>> {
    let trusted = paths_of(text_set(trusted_texts(store)));
    if unattributed(store) {
        Finding::Known(fail_closed_paths(store))
    } else {
        match all_physical(known, trusted) {
            Finding::Unresolved(path) => Finding::Unresolved(path),
            Finding::Known(true) => Finding::Known(trusted),
            Finding::Known(false) => Finding::Known(fail_closed_paths(store)),
        }
    }
}

proof fn lemma_texts_view(list: Seq<String>)
    ensures
        rows_view(list) == texts(list),
{
    assert(rows_view(list) =~= texts(list));
}

fn pick_failed_links(store: &Store, out: &mut Vec<String>)
    ensures
        texts(final(out)@) == texts(old(out)@) + failed_links(store@),
{
    let failures = &store.worktree_discovery_failures;
    let pick = |row: &LinkedRow| -> (found: Option<String>)
        ensures
            match found {
                Some(value) => link_failed(rows_view(failures@), row@) && value@ == row@.linked,
                None => !link_failed(rows_view(failures@), row@),
            },
    {
        let same = |failure: &FailureRow| -> (is: bool)
            ensures
                is == (row@.canonical_primary is Some && failure@.canonical_primary == row@.canonical_primary),
        {
            texts_match(&row.canonical_primary, &failure.canonical_primary)
        };
        let ghost p = |failure: FailureModel|
            row@.canonical_primary is Some && failure.canonical_primary == row@.canonical_primary;
        let found = any_row(failures, same, Ghost(p));
        proof {
            let all = rows_view(failures@);
            let q = |failure: FailureModel| failure.canonical_primary == row@.canonical_primary;
            if some_row(all, p) {
                let i = choose|i: int| 0 <= i < all.len() && p(#[trigger] all[i]);
                assert(q(all[i]));
            }
            if link_failed(all, row@) {
                let i = choose|i: int| 0 <= i < all.len() && q(#[trigger] all[i]);
                assert(p(all[i]));
            }
        }
        if found {
            Some(row.linked.clone())
        } else {
            None
        }
    };
    proof {
        lemma_texts_view(out@);
    }
    pick_rows(
        &store.linked_worktrees,
        pick,
        out,
        Ghost(
            |row: LinkedModel|
                if link_failed(rows_view(failures@), row) {
                    Some(row.linked)
                } else {
                    None
                },
        ),
    );
    proof {
        lemma_texts_view(out@);
    }
}

fn pick_link_ends(
    rows: &Vec<LinkedRow>,
    selected: impl Fn(&LinkedRow) -> bool,
    out: &mut Vec<String>,
    Ghost(p): Ghost<spec_fn(LinkedModel) -> bool>,
)
    requires
        forall|row: &LinkedRow| #[trigger] selected.requires((row,)),
        forall|row: &LinkedRow, is: bool| #[trigger] selected.ensures((row,), is) ==> is == p(row@),
    ensures
        texts(final(out)@) == texts(old(out)@) + link_ends(rows_view(rows@), p),
{
    let ghost all = rows_view(rows@);
    let ghost first = |row: LinkedModel|
        if p(row) {
            Some(row.primary)
        } else {
            None::<Seq<char>>
        };
    let ghost second = |row: LinkedModel|
        if p(row) {
            Some(row.linked)
        } else {
            None::<Seq<char>>
        };
    let ghost start = texts(out@);
    let mut i: usize = 0;
    assert(picked(all.take(0), first) =~= Seq::empty());
    assert(texts(out@) =~= start + picked(all.take(0), first));
    while i < rows.len()
        invariant
            i <= rows.len(),
            all == rows_view(rows@),
            first == (|row: LinkedModel|
                if p(row) {
                    Some(row.primary)
                } else {
                    None::<Seq<char>>
                }),
            texts(out@) == start + picked(all.take(i as int), first),
            forall|row: &LinkedRow| #[trigger] selected.requires((row,)),
            forall|row: &LinkedRow, is: bool| #[trigger] selected.ensures((row,), is) ==> is == p(row@),
        decreases rows.len() - i,
    {
        assert(all.take(i + 1).drop_last() =~= all.take(i as int));
        assert(all.take(i + 1).last() == rows@[i as int]@);
        if selected(&rows[i]) {
            let ghost before = texts(out@);
            out.push(rows[i].primary.clone());
            assert(texts(out@) =~= before.push(rows@[i as int].primary@));
            assert(first(all.take(i + 1).last()) == Some(rows@[i as int].primary@));
            assert(texts(out@) =~= start + picked(all.take(i + 1), first));
        }
        i += 1;
    }
    assert(all.take(i as int) =~= all);
    let ghost middle = texts(out@);
    let mut j: usize = 0;
    assert(picked(all.take(0), second) =~= Seq::empty());
    assert(texts(out@) =~= middle + picked(all.take(0), second));
    while j < rows.len()
        invariant
            j <= rows.len(),
            all == rows_view(rows@),
            second == (|row: LinkedModel|
                if p(row) {
                    Some(row.linked)
                } else {
                    None::<Seq<char>>
                }),
            texts(out@) == middle + picked(all.take(j as int), second),
            forall|row: &LinkedRow| #[trigger] selected.requires((row,)),
            forall|row: &LinkedRow, is: bool| #[trigger] selected.ensures((row,), is) ==> is == p(row@),
        decreases rows.len() - j,
    {
        assert(all.take(j + 1).drop_last() =~= all.take(j as int));
        assert(all.take(j + 1).last() == rows@[j as int]@);
        if selected(&rows[j]) {
            let ghost before = texts(out@);
            out.push(rows[j].linked.clone());
            assert(texts(out@) =~= before.push(rows@[j as int].linked@));
            assert(second(all.take(j + 1).last()) == Some(rows@[j as int].linked@));
            assert(texts(out@) =~= middle + picked(all.take(j + 1), second));
        }
        j += 1;
    }
    assert(all.take(j as int) =~= all);
    assert(texts(out@) =~= start + (picked(all, first) + picked(all, second)));
}

impl Store {
    /// The paths that failures with known physical primaries block.
    fn trusted_worktree_discovery_paths(&self) -> (list: Vec<String>)
        ensures
            texts(list@) == text_set(trusted_texts(self@)),
    {
        let mut list: Vec<String> = Vec::new();
        let pick = |row: &FailureRow| -> (found: Option<String>)
            ensures
                match found {
                    Some(value) => row@.canonical_primary == Some(value@),
                    None => row@.canonical_primary is None,
                },
        {
            match &row.canonical_primary {
                Some(text) => Some(text.clone()),
                None => None,
            }
        };
        pick_rows(
            &self.worktree_discovery_failures,
            pick,
            &mut list,
            Ghost(|row: FailureModel| row.canonical_primary),
        );
        proof {
            lemma_texts_view(list@);
            assert(texts(list@) =~= picked(
                self@.worktree_discovery_failures,
                |row: FailureModel| row.canonical_primary,
            ));
        }
        pick_failed_links(self, &mut list);
        sort_texts(&mut list);
        list
    }

    /// The paths that take part in a failure.
    fn active_worktree_discovery_identities(&self) -> (list: Vec<String>)
        ensures
            texts(list@) == text_set(active_texts(self@)),
    {
        let mut list: Vec<String> = Vec::new();
        let pick = |row: &FailureRow| -> (found: Option<String>)
            ensures
                found matches Some(value) && value@ == row@.primary,
        {
            Some(row.primary.clone())
        };
        pick_rows(
            &self.worktree_discovery_failures,
            pick,
            &mut list,
            Ghost(|row: FailureModel| Some(row.primary)),
        );
        proof {
            lemma_texts_view(list@);
            assert(texts(list@) =~= picked(
                self@.worktree_discovery_failures,
                |row: FailureModel| Some(row.primary),
            ));
        }
        pick_failed_links(self, &mut list);
        let ghost so_far = texts(list@);
        if self.worktree_discovery_failures.len() > 0 {
            let untrusted = |row: &LinkedRow| -> (is: bool)
                ensures
                    is == row@.canonical_primary is None,
            {
                row.canonical_primary.is_none()
            };
            pick_link_ends(
                &self.linked_worktrees,
                untrusted,
                &mut list,
                Ghost(|row: LinkedModel| row.canonical_primary is None),
            );
        } else {
            assert(so_far + Seq::<Seq<char>>::empty() =~= so_far);
        }
        assert(texts(list@) == active_texts(self@));
        sort_texts(&mut list);
        list
    }

    /// The paths whose meaning for worktrees is fixed.
    fn frozen_worktree_identities(&self) -> (list: Vec<String>)
        ensures
            texts(list@) == frozen_texts(self@),
    {
        let mut list = self.active_worktree_discovery_identities();
        let every = |row: &LinkedRow| -> (is: bool)
            ensures
                is,
        {
            true
        };
        pick_link_ends(&self.linked_worktrees, every, &mut list, Ghost(|row: LinkedModel| true));
        list
    }

    /// Whether a path's meaning for worktrees is fixed.
    pub fn is_active_worktree_discovery_identity(&self, path: &PathBuf) -> (result: Result<bool, StoreError>)
        ensures
            if valid_utf8(path@) {
                result == Ok::<bool, StoreError>(frozen_texts(self@).contains(decode_utf8(path@)))
            } else {
                result matches Err(StoreError::NotText(p)) && p@ == path@
            },
    {
        match path_to_string(path) {
            Ok(text) => Ok(has_text(&self.frozen_worktree_identities(), text.as_str())),
            Err(error) => Err(error),
        }
    }

    /// The paths that failures block.
    pub fn blocked_worktree_discovery_paths(&self, known: &Resolutions) -> (result: Result<Vec<PathBuf>, StoreError>)
        ensures
            match blocked_paths(self@, known@) {
                Finding::Known(paths) => result matches Ok(list) && path_views(list@) == paths,
                Finding::Unresolved(path) => result matches Err(error) && error@ == StoreFault::Unresolved(path),
            },
    {
        let trusted = self.trusted_worktree_discovery_paths();
        let blocked = paths_from_texts(&trusted);
        let untrusted = |row: &LinkedRow| -> (is: bool)
            ensures
                is == row@.canonical_primary is None,
        {
            row.canonical_primary.is_none()
        };
        let unattributed = some_untrusted_failure(&self.worktree_discovery_failures) || (
        self.worktree_discovery_failures.len() > 0 && any_row(
            &self.linked_worktrees,
            untrusted,
            Ghost(|row: LinkedModel| row.canonical_primary is None),
        ));
        if !unattributed {
            match are_physical(known, &blocked) {
                Answer::Unresolved(path) => return Err(StoreError::Unresolved(path)),
                Answer::Known(true) => return Ok(blocked),
                Answer::Known(false) => {},
            }
        }
        let active = self.active_worktree_discovery_identities();
        let mut closed = paths_from_texts(&active);
        let mut blocked = blocked;
        let ghost first = path_views(closed@);
        let ghost second = path_views(blocked@);
        closed.append(&mut blocked);
        assert(path_views(closed@) =~= first + second);
        let projects = self.all_projects();
        let ghost sorted = projects_by_path(self@.projects);
        let ghost names = paths_of(sorted.map_values(|row: ProjectModel| row.path));
        let mut i: usize = 0;
        assert(path_views(closed@) =~= first + second + names.take(0));
        while i < projects.len()
            invariant
                i <= projects.len(),
                projects@.len() == sorted.len(),
                names == paths_of(sorted.map_values(|row: ProjectModel| row.path)),
                forall|k: int|
                    0 <= k < projects@.len() ==> crate::store::projects::project_is(#[trigger] projects@[k], sorted[k]),
                path_views(closed@) == first + second + names.take(i as int),
            decreases projects.len() - i,
        {
            let ghost before = path_views(closed@);
            assert(crate::store::projects::project_is(projects@[i as int], sorted[i as int]));
            let path = PathBuf::new(projects[i].path.as_str());
            assert(path@ == names[i as int]);
            closed.push(path);
            i += 1;
            assert(path_views(closed@) =~= before.push(names[i - 1]));
            assert(path_views(closed@) =~= first + second + names.take(i as int));
        }
        assert(names.take(i as int) =~= names);
        sort_paths(&mut closed);
        Ok(closed)
    }
}

fn paths_from_texts(list: &Vec<String>) -> (paths: Vec<PathBuf>)
    ensures
        path_views(paths@) == paths_of(texts(list@)),
{
    let mut paths: Vec<PathBuf> = Vec::new();
    let mut i: usize = 0;
    while i < list.len()
        invariant
            i <= list.len(),
            paths@.len() == i,
            forall|k: int| 0 <= k < i ==> (#[trigger] paths@[k])@ == encode_utf8(list@[k]@),
        decreases list.len() - i,
    {
        paths.push(PathBuf::new(list[i].as_str()));
        i += 1;
    }
    assert(path_views(paths@) =~= paths_of(texts(list@)));
    paths
}

fn are_physical(known: &Resolutions, paths: &Vec<PathBuf>) -> (answer: Answer<bool>)
    ensures
        answer.finding() == all_physical(known@, path_views(paths@)),
{
    let ghost all = path_views(paths@);
    let mut i: usize = 0;
    assert(all.skip(0) =~= all);
    while i < paths.len()
        invariant
            i <= paths.len(),
            all == path_views(paths@),
            all_physical(known@, all) == all_physical(known@, all.skip(i as int)),
        decreases paths.len() - i,
    {
        assert(all.skip(i as int)[0] == paths@[i as int]@);
        assert(all.skip(i as int).drop_first() =~= all.skip(i + 1));
        match known.physical(&paths[i]) {
            Answer::Unresolved(path) => return Answer::Unresolved(path),
            Answer::Known(None) => return Answer::Known(false),
            Answer::Known(Some(physical)) => {
                if !paths_equal(&physical, &paths[i]) {
                    return Answer::Known(false);
                }
            },
        }
        i += 1;
    }
    Answer::Known(true)
}

// ------------------------------------------------------------------- aliases

/// Every path that stands in the store as a project or for a worktree.
pub open spec fn identity_texts(store: StoreModel) -> Seq<Seq<char>> {
    text_set(
        picked(store.projects, |row: ProjectModel| Some(row.path)) + link_ends(
            store.linked_worktrees,
            |row: LinkedModel| true,
        ) + picked(store.worktree_discovery_failures, |row: FailureModel| Some(row.primary)),
    )
}

/// The stored paths, among the given ones, that have another physical path and no
/// fixed meaning, with that path; or why one of them cannot be told.
pub open spec fn replacements_of(
    known: Map<Seq<u8>, Resolved>,
    frozen: Seq<Seq<char>>,
    identities: Seq<Seq<char>>,
) -> Result<Seq<(Seq<char>, Seq<char>)>, StoreFault>
    decreases identities.len(),
{
    if identities.len() == 0 {
        Ok(Seq::empty())
    } else {
        let identity = identities.last();
        match replacements_of(known, frozen, identities.drop_last()) {
            Err(fault) => Err(fault),
            Ok(list) => if frozen.contains(identity) {
                Ok(list)
            } else {
                match physical_text(known, encode_utf8(identity)) {
                    Err(fault) => Err(fault),
                    Ok(None) => Ok(list),
                    Ok(Some(canonical)) => if canonical == identity {
                        Ok(list)
                    } else {
                        Ok(list.push((identity, canonical)))
                    },
                }
            },
        }
    }
}

/// The store after paths have been replaced one by one.
pub open spec fn paths_replaced(store: StoreModel, replacements: Seq<(Seq<char>, Seq<char>)>) -> StoreModel
    decreases replacements.len(),
{
    if replacements.len() == 0 {
        store
    } else {
        let last = replacements.last();
        path_replaced(paths_replaced(store, replacements.drop_last()), last.0, last.1)
    }
}

/// The contents of a list of replacements.
pub open spec fn pair_views(pairs: Seq<(String, String)>) -> Seq<(Seq<char>, Seq<char>)> {
    pairs.map_values(|pair: (String, String)| (pair.0@, pair.1@))
}

/// An error in a prefix of the identities is an error in all of them.
proof fn lemma_early_fault(known: Map<Seq<u8>, Resolved>, frozen: Seq<Seq<char>>, identities: Seq<Seq<char>>, n: int)
    requires
        0 <= n <= identities.len(),
        replacements_of(known, frozen, identities.take(n)) is Err,
    ensures
        replacements_of(known, frozen, identities) == replacements_of(known, frozen, identities.take(n)),
    decreases identities.len() - n,
{
    if n < identities.len() {
        assert(identities.take(n + 1).drop_last() =~= identities.take(n));
        lemma_early_fault(known, frozen, identities, n + 1);
    } else {
        assert(identities.take(n) =~= identities);
    }
}

impl Store {
    fn identities(&self) -> (list: Vec<String>)
        ensures
            texts(list@) == identity_texts(self@),
    {
        let mut list: Vec<String> = Vec::new();
        let of_project = |row: &ProjectRow| -> (found: Option<String>)
            ensures
                found matches Some(value) && value@ == row@.path,
        {
            Some(row.path.clone())
        };
        pick_rows(&self.projects, of_project, &mut list, Ghost(|row: ProjectModel| Some(row.path)));
        proof {
            lemma_texts_view(list@);
            assert(texts(list@) =~= picked(self@.projects, |row: ProjectModel| Some(row.path)));
        }
        let every = |row: &LinkedRow| -> (is: bool)
            ensures
                is,
        {
            true
        };
        pick_link_ends(&self.linked_worktrees, every, &mut list, Ghost(|row: LinkedModel| true));
        let of_failure = |row: &FailureRow| -> (found: Option<String>)
            ensures
                found matches Some(value) && value@ == row@.primary,
        {
            Some(row.primary.clone())
        };
        proof {
            lemma_texts_view(list@);
        }
        pick_rows(
            &self.worktree_discovery_failures,
            of_failure,
            &mut list,
            Ghost(|row: FailureModel| Some(row.primary)),
        );
        proof {
            lemma_texts_view(list@);
        }
        sort_texts(&mut list);
        list
    }

    pub(crate) fn resolvable_project_alias_replacements(&self, known: &Resolutions) -> (result: Result<
        Vec<(String, String)>,
        StoreError,
    >)
        ensures
            match replacements_of(known@, frozen_texts(self@), identity_texts(self@)) {
                Ok(pairs) => result matches Ok(list) && pair_views(list@) == pairs,
                Err(fault) => result matches Err(error) && error@ == fault,
            },
    {
        let frozen = self.frozen_worktree_identities();
        let identities = self.identities();
        let ghost all = texts(identities@);
        let ghost fixed = texts(frozen@);
        let mut list: Vec<(String, String)> = Vec::new();
        let mut i: usize = 0;
        assert(all.take(0) =~= Seq::empty());
        assert(pair_views(list@) =~= Seq::empty());
        while i < identities.len()
            invariant
                i <= identities.len(),
                all == texts(identities@),
                all == identity_texts(self@),
                fixed == texts(frozen@),
                fixed == frozen_texts(self@),
                replacements_of(known@, fixed, all.take(i as int)) == Ok::<_, StoreFault>(pair_views(list@)),
            decreases identities.len() - i,
        {
            let identity = identities[i].as_str();
            proof {
                assert(all.take(i + 1).drop_last() =~= all.take(i as int));
                assert(all.take(i + 1).last() == identity@);
            }
            if !has_text(&frozen, identity) {
                let path = PathBuf::new(identity);
                match physical_string(known, &path) {
                    Err(error) => {
                        proof {
                            lemma_early_fault(known@, fixed, all, i + 1);
                        }
                        return Err(error);
                    },
                    Ok(None) => {},
                    Ok(Some(canonical)) => {
                        if !crate::text::text_equal(canonical.as_str(), identity) {
                            let ghost before = pair_views(list@);
                            list.push((identity.to_owned(), canonical));
                            assert(pair_views(list@) =~= before.push((identity@, canonical@)));
                        }
                    },
                }
            }
            i += 1;
        }
        assert(all.take(i as int) =~= all);
        Ok(list)
    }

    /// Replaces stored paths by their physical paths, but for those whose meaning
    /// for worktrees is fixed.
    pub fn normalize_resolvable_project_aliases(&mut self, known: &Resolutions) -> (result: Result<(), StoreError>)
        ensures
            match replacements_of(known@, frozen_texts(old(self)@), identity_texts(old(self)@)) {
                Ok(pairs) => result is Ok && final(self)@ == paths_replaced(old(self)@, pairs),
                Err(fault) => result matches Err(error) && error@ == fault && final(self)@ == old(self)@,
            },
            consistent(old(self)@) ==> consistent(final(self)@),
    {
        proof {
            if consistent(self@) {
                lemma_replacing_keeps_records(
                    self@,
                    replacements_of(known@, frozen_texts(self@), identity_texts(self@))->Ok_0,
                );
            }
        }
        let pairs = match self.resolvable_project_alias_replacements(known) {
            Ok(pairs) => pairs,
            Err(error) => return Err(error),
        };
        let ghost all = pair_views(pairs@);
        let ghost before = self@;
        let mut i: usize = 0;
        assert(all.take(0) =~= Seq::empty());
        while i < pairs.len()
            invariant
                i <= pairs.len(),
                all == pair_views(pairs@),
                self@ == paths_replaced(before, all.take(i as int)),
            decreases pairs.len() - i,
        {
            proof {
                assert(all.take(i + 1).drop_last() =~= all.take(i as int));
                assert(all.take(i + 1).last() == (pairs@[i as int].0@, pairs@[i as int].1@));
            }
            replace_path(self, pairs[i].0.as_str(), pairs[i].1.as_str());
            i += 1;
        }
        assert(all.take(i as int) =~= all);
        Ok(())
    }
}

// ----------------------------------------------------------------- exclusion

/// Whether what is stored of a path is to be removed: the path or its physical
/// path is excluded, or, for what needs an existing path, nothing exists there.
pub open spec fn removal_of<E: Exclusions>(
    exclusions: &E,
    known: Map<Seq<u8>, Resolved>,
    path: Seq<u8>,
    needs_path: bool,
) -> Result<bool, StoreFault> {
    if exclusions.covers(path) {
        Ok(true)
    } else if !known.dom().contains(path) {
        Err(StoreFault::Unresolved(path))
    } else {
        match known[path] {
            Resolved::Physical(physical) => Ok(exclusions.covers(physical)),
            Resolved::NotFound => Ok(needs_path),
            Resolved::Failed => Err(StoreFault::Unresolvable(path)),
        }
    }
}

/// Whether a project is to be removed.
pub open spec fn project_removal<E: Exclusions>(exclusions: &E, known: Map<Seq<u8>, Resolved>, row: ProjectModel) -> Result<
    bool,
    StoreFault,
> {
    removal_of(exclusions, known, encode_utf8(row.path), true)
}

/// Whether something is to be removed because of its physical primary.
pub open spec fn canonical_removal<E: Exclusions>(
    exclusions: &E,
    known: Map<Seq<u8>, Resolved>,
    canonical: Option<Seq<char>>,
) -> Result<bool, StoreFault> {
    match canonical {
        Some(path) => removal_of(exclusions, known, encode_utf8(path), false),
        None => Ok(false),
    }
}

/// Whether an association is to be removed.
pub open spec fn link_removal<E: Exclusions>(exclusions: &E, known: Map<Seq<u8>, Resolved>, row: LinkedModel) -> Result<
    bool,
    StoreFault,
> {
    match removal_of(exclusions, known, encode_utf8(row.primary), false) {
        Ok(false) => match removal_of(exclusions, known, encode_utf8(row.linked), false) {
            Ok(false) => canonical_removal(exclusions, known, row.canonical_primary),
            other => other,
        },
        other => other,
    }
}

/// Whether a failure is to be removed.
pub open spec fn failure_removal<E: Exclusions>(exclusions: &E, known: Map<Seq<u8>, Resolved>, row: FailureModel) -> Result<
    bool,
    StoreFault,
> {
    match removal_of(exclusions, known, encode_utf8(row.primary), false) {
        Ok(false) => canonical_removal(exclusions, known, row.canonical_primary),
        other => other,
    }
}

/// The first error among the rows.
pub open spec fn first_fault<V>(rows: Seq<V>, f: spec_fn(V) -> Result<bool, StoreFault>) -> Option<StoreFault>
    decreases rows.len(),
{
    if rows.len() == 0 {
        None
    } else {
        match f(rows[0]) {
            Err(fault) => Some(fault),
            Ok(_) => first_fault(rows.drop_first(), f),
        }
    }
}

/// The store without what is excluded, or the first error on the way.
pub open spec fn without_excluded<E: Exclusions>(store: StoreModel, exclusions: &E, known: Map<Seq<u8>, Resolved>) -> Result<
    StoreModel,
    StoreFault,
> {
    let of_project = |row: ProjectModel| project_removal(exclusions, known, row);
    let of_link = |row: LinkedModel| link_removal(exclusions, known, row);
    let of_failure = |row: FailureModel| failure_removal(exclusions, known, row);
    match first_fault(store.projects, of_project) {
        Some(fault) => Err(fault),
        None => match first_fault(store.linked_worktrees, of_link) {
            Some(fault) => Err(fault),
            None => match first_fault(store.worktree_discovery_failures, of_failure) {
                Some(fault) => Err(fault),
                None => Ok(
                    StoreModel {
                        projects: store.projects.filter(
                            |row: ProjectModel| of_project(row) != Ok::<bool, StoreFault>(true),
                        ),
                        linked_worktrees: store.linked_worktrees.filter(
                            |row: LinkedModel| of_link(row) != Ok::<bool, StoreFault>(true),
                        ),
                        worktree_discovery_failures: store.worktree_discovery_failures.filter(
                            |row: FailureModel| of_failure(row) != Ok::<bool, StoreFault>(true),
                        ),
                        ..store
                    },
                ),
            },
        },
    }
}

/// Whether a result stands for a finding.
pub open spec fn stands_for(result: Result<bool, StoreError>, finding: Result<bool, StoreFault>) -> bool {
    match finding {
        Ok(value) => result == Ok::<bool, StoreError>(value),
        Err(fault) => result matches Err(error) && error@ == fault,
    }
}

fn should_remove<E: Exclusions>(exclusions: &E, known: &Resolutions, text: &str, needs_path: bool) -> (result: Result<
    bool,
    StoreError,
>)
    ensures
        stands_for(result, removal_of(exclusions, known@, encode_utf8(text@), needs_path)),
{
    let path = PathBuf::new(text);
    if exclusions.covers_path(&path) {
        return Ok(true);
    }
    match known.get(&path) {
        None => Err(StoreError::Unresolved(path)),
        Some(Resolution::Physical(physical)) => Ok(exclusions.covers_path(physical)),
        Some(Resolution::NotFound) => Ok(needs_path),
        Some(Resolution::Failed) => Err(StoreError::Unresolvable(path)),
    }
}

fn should_remove_cached_path<E: Exclusions>(exclusions: &E, known: &Resolutions, row: &ProjectRow) -> (result: Result<
    bool,
    StoreError,
>)
    ensures
        stands_for(result, project_removal(exclusions, known@, row@)),
{
    should_remove(exclusions, known, row.path.as_str(), true)
}

fn should_remove_canonical<E: Exclusions>(exclusions: &E, known: &Resolutions, canonical: &Option<String>) -> (result: Result<
    bool,
    StoreError,
>)
    ensures
        stands_for(result, canonical_removal(exclusions, known@, crate::store::rows::optional_text(*canonical))),
{
    match canonical {
        Some(path) => should_remove(exclusions, known, path.as_str(), false),
        None => Ok(false),
    }
}

fn should_remove_link<E: Exclusions>(exclusions: &E, known: &Resolutions, row: &LinkedRow) -> (result: Result<
    bool,
    StoreError,
>)
    ensures
        stands_for(result, link_removal(exclusions, known@, row@)),
{
    match should_remove(exclusions, known, row.primary.as_str(), false) {
        Ok(false) => match should_remove(exclusions, known, row.linked.as_str(), false) {
            Ok(false) => should_remove_canonical(exclusions, known, &row.canonical_primary),
            other => other,
        },
        other => other,
    }
}

fn should_remove_failure<E: Exclusions>(exclusions: &E, known: &Resolutions, row: &FailureRow) -> (result: Result<
    bool,
    StoreError,
>)
    ensures
        stands_for(result, failure_removal(exclusions, known@, row@)),
{
    match should_remove(exclusions, known, row.primary.as_str(), false) {
        Ok(false) => should_remove_canonical(exclusions, known, &row.canonical_primary),
        other => other,
    }
}

fn find_fault<T: View>(
    rows: &Vec<T>,
    check: impl Fn(&T) -> Result<bool, StoreError>,
    Ghost(f): Ghost<spec_fn(T::V) -> Result<bool, StoreFault>>,
) -> (found: Option<StoreError>)
    requires
        forall|row: &T| #[trigger] check.requires((row,)),
        forall|row: &T, result: Result<bool, StoreError>| #[trigger]
            check.ensures((row,), result) ==> stands_for(result, f(row@)),
    ensures
        match first_fault(rows_view(rows@), f) {
            Some(fault) => found matches Some(error) && error@ == fault,
            None => found is None,
        },
{
    let ghost all = rows_view(rows@);
    let mut i: usize = 0;
    assert(all.skip(0) =~= all);
    while i < rows.len()
        invariant
            i <= rows.len(),
            all == rows_view(rows@),
            first_fault(all, f) == first_fault(all.skip(i as int), f),
            forall|row: &T| #[trigger] check.requires((row,)),
            forall|row: &T, result: Result<bool, StoreError>| #[trigger]
                check.ensures((row,), result) ==> stands_for(result, f(row@)),
        decreases rows.len() - i,
    {
        assert(all.skip(i as int)[0] == rows@[i as int]@);
        assert(all.skip(i as int).drop_first() =~= all.skip(i + 1));
        match check(&rows[i]) {
            Err(error) => return Some(error),
            Ok(_) => {},
        }
        i += 1;
    }
    None
}

fn is_true(result: Result<bool, StoreError>) -> (is: bool)
    ensures
        is == (result == Ok::<bool, StoreError>(true)),
{
    match result {
        Ok(value) => value,
        Err(_) => false,
    }
}

impl Store {
    /// Removes what is excluded: projects, associations and failures.
    pub fn reconcile_excluded_discovery_state<E: Exclusions>(&mut self, exclusions: &E, known: &Resolutions) -> (result:
        Result<(), StoreError>)
        ensures
            match without_excluded(old(self)@, exclusions, known@) {
                Ok(store) => result is Ok && final(self)@ == store,
                Err(fault) => result matches Err(error) && error@ == fault && final(self)@ == old(self)@,
            },
            consistent(old(self)@) ==> consistent(final(self)@),
    {
        let ghost of_project = |row: ProjectModel| project_removal(exclusions, known@, row);
        let ghost of_link = |row: LinkedModel| link_removal(exclusions, known@, row);
        let ghost of_failure = |row: FailureModel| failure_removal(exclusions, known@, row);
        let check_project = |row: &ProjectRow| -> (result: Result<bool, StoreError>)
            ensures
                stands_for(result, project_removal(exclusions, known@, row@)),
        {
            should_remove_cached_path(exclusions, known, row)
        };
        let check_link = |row: &LinkedRow| -> (result: Result<bool, StoreError>)
            ensures
                stands_for(result, link_removal(exclusions, known@, row@)),
        {
            should_remove_link(exclusions, known, row)
        };
        let check_failure = |row: &FailureRow| -> (result: Result<bool, StoreError>)
            ensures
                stands_for(result, failure_removal(exclusions, known@, row@)),
        {
            should_remove_failure(exclusions, known, row)
        };
        match find_fault(&self.projects, check_project, Ghost(of_project)) {
            Some(error) => return Err(error),
            None => {},
        }
        match find_fault(&self.linked_worktrees, check_link, Ghost(of_link)) {
            Some(error) => return Err(error),
            None => {},
        }
        match find_fault(&self.worktree_discovery_failures, check_failure, Ghost(of_failure)) {
            Some(error) => return Err(error),
            None => {},
        }
        let keep_project = |row: &ProjectRow| -> (is: bool)
            ensures
                is == (project_removal(exclusions, known@, row@) != Ok::<bool, StoreFault>(true)),
        {
            !is_true(should_remove_cached_path(exclusions, known, row))
        };
        let keep_link = |row: &LinkedRow| -> (is: bool)
            ensures
                is == (link_removal(exclusions, known@, row@) != Ok::<bool, StoreFault>(true)),
        {
            !is_true(should_remove_link(exclusions, known, row))
        };
        let keep_failure = |row: &FailureRow| -> (is: bool)
            ensures
                is == (failure_removal(exclusions, known@, row@) != Ok::<bool, StoreFault>(true)),
        {
            !is_true(should_remove_failure(exclusions, known, row))
        };
        retain_rows(
            &mut self.projects,
            keep_project,
            Ghost(|row: ProjectModel| of_project(row) != Ok::<bool, StoreFault>(true)),
        );
        retain_rows(
            &mut self.linked_worktrees,
            keep_link,
            Ghost(|row: LinkedModel| of_link(row) != Ok::<bool, StoreFault>(true)),
        );
        retain_rows(
            &mut self.worktree_discovery_failures,
            keep_failure,
            Ghost(|row: FailureModel| of_failure(row) != Ok::<bool, StoreFault>(true)),
        );
        Ok(())
    }
}

// ---------------------------------------------------------------------- laws

/// Whether a path is one of a list of paths.
pub open spec fn is_blocked(paths: Seq<Seq<u8>>, path: Seq<u8>) -> bool {
    exists|i: int| 0 <= i < paths.len() && same_path(#[trigger] paths[i], path)
}

proof fn lemma_listed_is_blocked(list: Seq<Seq<char>>, text: Seq<char>)
    requires
        list.contains(text),
    ensures
        is_blocked(paths_of(list), encode_utf8(text)),
{
    let i = choose|i: int| 0 <= i < list.len() && list[i] == text;
    assert(same_path(paths_of(list)[i], encode_utf8(text)));
}

proof fn lemma_sorted_blocks(paths: Seq<Seq<u8>>, path: Seq<u8>)
    requires
        is_blocked(paths, path),
    ensures
        is_blocked(sorted_distinct(paths, |p: Seq<u8>| path_rank(p)), path),
{
    let rank = |p: Seq<u8>| path_rank(p);
    let sorted = sorted_distinct(paths, rank);
    sorted_distinct_holds(paths, rank);
    let i = choose|i: int| 0 <= i < paths.len() && same_path(#[trigger] paths[i], path);
    assert(rank(paths[i]) == path_rank(paths[i]));
    let j = choose|j: int| 0 <= j < sorted.len() && rank(#[trigger] sorted[j]) == rank(paths[i]);
    path_rank_is_path_equality(sorted[j], paths[i]);
    assert(same_path(sorted[j], path));
}

/// What takes part in a failure is blocked where every failure closes.
pub proof fn lemma_closed_covers(store: StoreModel, text: Seq<char>)
    requires
        active_texts(store).contains(text) || trusted_texts(store).contains(text),
    ensures
        is_blocked(fail_closed_paths(store), encode_utf8(text)),
{
    let active = paths_of(text_set(active_texts(store)));
    let trusted = paths_of(text_set(trusted_texts(store)));
    let projects = paths_of(projects_by_path(store.projects).map_values(|row: ProjectModel| row.path));
    let all = active + trusted + projects;
    let path = encode_utf8(text);
    if active_texts(store).contains(text) {
        text_set_holds(active_texts(store), text);
        lemma_listed_is_blocked(text_set(active_texts(store)), text);
        let i = choose|i: int| 0 <= i < active.len() && same_path(#[trigger] active[i], path);
        assert(all[i] == active[i]);
    } else {
        text_set_holds(trusted_texts(store), text);
        lemma_listed_is_blocked(text_set(trusted_texts(store)), text);
        let i = choose|i: int| 0 <= i < trusted.len() && same_path(#[trigger] trusted[i], path);
        assert(all[active.len() + i] == trusted[i]);
    }
    assert(is_blocked(all, path));
    lemma_sorted_blocks(all, path);
}

/// As long as a checkout's discovery stands as failed, the checkout is blocked,
/// and so is every worktree of it that is known.
pub proof fn failures_block_their_checkouts(store: StoreModel, known: Map<Seq<u8>, Resolved>)
    requires
        blocked_paths(store, known) is Known,
    ensures
        forall|i: int|
            0 <= i < store.worktree_discovery_failures.len() ==> {
                let failure = #[trigger] store.worktree_discovery_failures[i];
                is_blocked(
                    blocked_paths(store, known)->Known_0,
                    encode_utf8(
                        match failure.canonical_primary {
                            Some(canonical) => canonical,
                            None => failure.primary,
                        },
                    ),
                )
            },
        forall|i: int|
            0 <= i < store.linked_worktrees.len() && link_failed(
                store.worktree_discovery_failures,
                #[trigger] store.linked_worktrees[i],
            ) ==> is_blocked(
                blocked_paths(store, known)->Known_0,
                encode_utf8(store.linked_worktrees[i].linked),
            ),
{
    let failures = store.worktree_discovery_failures;
    let links = store.linked_worktrees;
    let blocked = blocked_paths(store, known)->Known_0;
    let canonical_of = |row: FailureModel| row.canonical_primary;
    let primary_of = |row: FailureModel| Some(row.primary);
    let linked_of = |row: LinkedModel|
        if link_failed(failures, row) {
            Some(row.linked)
        } else {
            None::<Seq<char>>
        };
    picked_are_of_rows(failures, canonical_of);
    picked_are_of_rows(failures, primary_of);
    picked_are_of_rows(links, linked_of);
    assert forall|i: int| 0 <= i < failures.len() implies {
        let failure = #[trigger] failures[i];
        is_blocked(
            blocked,
            encode_utf8(
                match failure.canonical_primary {
                    Some(canonical) => canonical,
                    None => failure.primary,
                },
            ),
        )
    } by {
        let failure = failures[i];
        match failure.canonical_primary {
            Some(canonical) => {
                assert(canonical_of(failures[i]) == Some(canonical));
                let part = picked(failures, canonical_of);
                assert(part.contains(canonical));
                let k = choose|k: int| 0 <= k < part.len() && part[k] == canonical;
                assert(trusted_texts(store)[k] == canonical);
                lemma_trusted_is_blocked(store, known, canonical);
            },
            None => {
                assert(has_untrusted_failure(failures)) by {
                    let p = |row: FailureModel| row.canonical_primary is None;
                    assert(p(failures[i]));
                }
                assert(primary_of(failures[i]) == Some(failure.primary));
                let part = picked(failures, primary_of);
                assert(part.contains(failure.primary));
                let k = choose|k: int| 0 <= k < part.len() && part[k] == failure.primary;
                assert(active_texts(store)[k] == failure.primary);
                lemma_closed_covers(store, failure.primary);
            },
        }
    }
    assert forall|i: int| 0 <= i < links.len() && link_failed(failures, #[trigger] links[i]) implies is_blocked(
        blocked,
        encode_utf8(links[i].linked),
    ) by {
        assert(linked_of(links[i]) == Some(links[i].linked));
        let part = failed_links(store);
        assert(part.contains(links[i].linked));
        let k = choose|k: int| 0 <= k < part.len() && part[k] == links[i].linked;
        let before = picked(failures, canonical_of);
        assert(trusted_texts(store)[before.len() + k] == links[i].linked);
        lemma_trusted_is_blocked(store, known, links[i].linked);
    }
}

proof fn lemma_trusted_is_blocked(store: StoreModel, known: Map<Seq<u8>, Resolved>, text: Seq<char>)
    requires
        blocked_paths(store, known) is Known,
        trusted_texts(store).contains(text),
    ensures
        is_blocked(blocked_paths(store, known)->Known_0, encode_utf8(text)),
{
    text_set_holds(trusted_texts(store), text);
    lemma_listed_is_blocked(text_set(trusted_texts(store)), text);
    lemma_closed_covers(store, text);
}

/// No path is listed twice among those that failures block.
pub proof fn blocked_paths_are_listed_once(store: StoreModel, known: Map<Seq<u8>, Resolved>)
    requires
        blocked_paths(store, known) is Known,
    ensures
        blocked_paths(store, known)->Known_0.no_duplicates(),
{
    let list = text_set(trusted_texts(store));
    let text_key = |text: Seq<char>| text_rank(text);
    sorted_distinct_exists(trusted_texts(store), text_key);
    let trusted = paths_of(list);
    assert forall|i: int, j: int| 0 <= i < j < trusted.len() implies trusted[i] != trusted[j] by {
        assert(lex_less(text_key(list[i]), text_key(list[j])));
        lex_irreflexive(text_key(list[i]));
        if trusted[i] == trusted[j] {
            encode_utf8_decode_utf8(list[i]);
            encode_utf8_decode_utf8(list[j]);
        }
    }
    let path_key = |path: Seq<u8>| path_rank(path);
    let all = paths_of(text_set(active_texts(store))) + trusted + paths_of(
        projects_by_path(store.projects).map_values(|row: ProjectModel| row.path),
    );
    sorted_distinct_exists(all, path_key);
    let closed = fail_closed_paths(store);
    assert(closed == sorted_distinct(all, path_key));
    assert forall|i: int, j: int| 0 <= i < j < closed.len() implies closed[i] != closed[j] by {
        assert(lex_less(path_key(closed[i]), path_key(closed[j])));
        lex_irreflexive(path_key(closed[i]));
    }
}

} // verus!
