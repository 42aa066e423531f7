//! What is known of linked worktrees: which worktrees belong to which primary
//! checkout, and which primary checkouts could not be asked for theirs.

use crate::order::{sorted_distinct, sorted_distinct_holds, text_rank, text_rank_is_text_equality};
use crate::path::{path_views, PathBuf};
use crate::policy::scope::sort_texts;
use crate::resolve::{physical_path, Answer, Finding, Resolved, Resolutions};
use crate::store::projects::{drop_project, project_renamed, rename_project, without_project};
use crate::store::rows::{
    copy_text, optional_text, text_is, texts_match, FailureModel, FailureRow, LinkedModel, LinkedRow, ProjectModel, ProjectRow,
};
use crate::store::table::{
    any_row, first_index_of, first_row, pick_rows, picked, picked_are_of_rows, push_row, retain_rows, rows_view, some_row, upsert_row, upserted,
};
use crate::store::{epoch_of, path_to_string, to_epoch, Store, StoreError, StoreFault, StoreModel};
use crate::text::{text_equal, texts};
use crate::time::SystemTime;
use crate::store::keys::consistent;
use vstd::prelude::*;
use vstd::utf8::*;

verus! {

/// The texts of a list in order, each once.
pub open spec fn text_set(list: Seq<Seq<char>>) -> Seq<Seq<char>> {
    sorted_distinct(list, |text: Seq<char>| text_rank(text))
}

/// The ordered texts hold exactly the texts of the list.
pub proof fn text_set_holds(list: Seq<Seq<char>>, text: Seq<char>)
    ensures
        text_set(list).contains(text) <==> list.contains(text),
{
    let rank = |t: Seq<char>| text_rank(t);
    let set = text_set(list);
    sorted_distinct_holds(list, rank);
    if list.contains(text) {
        let i = choose|i: int| 0 <= i < list.len() && list[i] == text;
        assert(rank(list[i]) == text_rank(text));
        let j = choose|j: int| 0 <= j < set.len() && rank(#[trigger] set[j]) == rank(list[i]);
        text_rank_is_text_equality(set[j], text);
        assert(set[j] == text);
    }
    if set.contains(text) {
        let j = choose|j: int| 0 <= j < set.len() && set[j] == text;
        assert(list.contains(set[j]));
    }
}

/// Whether a text stands in a list.
pub fn has_text(list: &Vec<String>, text: &str) -> (found: bool)
    ensures
        found == texts(list@).contains(text@),
{
    let mut i: usize = 0;
    while i < list.len()
        invariant
            i <= list.len(),
            forall|k: int| 0 <= k < i ==> (#[trigger] list@[k])@ != text@,
        decreases list.len() - i,
    {
        if text_equal(list[i].as_str(), text) {
            assert(texts(list@)[i as int] == text@);
            return true;
        }
        i += 1;
    }
    false
}

proof fn lemma_rows_of_texts(list: Seq<String>)
    ensures
        rows_view(list) == texts(list),
{
    assert(rows_view(list) =~= texts(list));
}

// ----------------------------------------------------------------- renaming

/// A text, or the new one in place of the old one.
pub open spec fn moved_text(text: Seq<char>, old_path: Seq<char>, new_path: Seq<char>) -> Seq<char> {
    if text == old_path {
        new_path
    } else {
        text
    }
}

/// Whether an association names a path.
pub open spec fn link_names(row: LinkedModel, path: Seq<char>) -> bool {
    row.primary == path || row.linked == path
}

/// An association with a new path in place of an old one.
pub open spec fn moved_link(row: LinkedModel, old_path: Seq<char>, new_path: Seq<char>) -> LinkedModel {
    LinkedModel {
        primary: moved_text(row.primary, old_path, new_path),
        linked: moved_text(row.linked, old_path, new_path),
        canonical_primary: row.canonical_primary,
    }
}

/// Whether two associations have one key.
pub open spec fn same_link(a: LinkedModel, b: LinkedModel) -> bool {
    a.primary == b.primary && a.linked == b.linked
}

/// What two rows say of a primary's physical path, if they agree.
pub open spec fn agreed(a: Option<Seq<char>>, b: Option<Seq<char>>) -> Option<Seq<char>> {
    if a == b {
        a
    } else {
        None
    }
}

/// The associations after one has been added, which keeps its physical primary
/// only where the one that was there agrees.
pub open spec fn link_merged(rows: Seq<LinkedModel>, new: LinkedModel) -> Seq<LinkedModel> {
    upserted(
        rows,
        |row: LinkedModel| same_link(row, new),
        |row: LinkedModel|
            LinkedModel { canonical_primary: agreed(row.canonical_primary, new.canonical_primary), ..row },
        new,
    )
}

/// The associations after several have been added one by one.
pub open spec fn links_merged(rows: Seq<LinkedModel>, new: Seq<LinkedModel>) -> Seq<LinkedModel>
    decreases new.len(),
{
    if new.len() == 0 {
        rows
    } else {
        link_merged(links_merged(rows, new.drop_last()), new.last())
    }
}

/// What becomes of an association that names the old path: nothing, where the
/// primary and the worktree would be one.
pub open spec fn link_to_move(row: LinkedModel, old_path: Seq<char>, new_path: Seq<char>) -> Option<LinkedModel> {
    let moved = moved_link(row, old_path, new_path);
    if link_names(row, old_path) && moved.primary != moved.linked {
        Some(moved)
    } else {
        None
    }
}

/// The associations after a path has been replaced by another.
pub open spec fn links_renamed(rows: Seq<LinkedModel>, old_path: Seq<char>, new_path: Seq<char>) -> Seq<LinkedModel> {
    links_merged(
        rows,
        picked(rows, |row: LinkedModel| link_to_move(row, old_path, new_path)),
    ).filter(|row: LinkedModel| !link_names(row, old_path))
}

/// A failure merged with another of the same primary: the later one counts.
pub open spec fn failure_merged(row: FailureModel, other: FailureModel) -> FailureModel {
    FailureModel {
        primary: row.primary,
        failed_at: if row.failed_at >= other.failed_at {
            row.failed_at
        } else {
            other.failed_at
        },
        message: if other.failed_at >= row.failed_at {
            other.message
        } else {
            row.message
        },
        canonical_primary: agreed(row.canonical_primary, other.canonical_primary),
    }
}

/// The failures after a primary has got another path.
pub open spec fn failures_renamed(rows: Seq<FailureModel>, old_path: Seq<char>, new_path: Seq<char>) -> Seq<
    FailureModel,
> {
    (match first_row(rows, |row: FailureModel| row.primary == old_path) {
        Some(moved) => upserted(
            rows,
            |row: FailureModel| row.primary == new_path,
            |row: FailureModel| failure_merged(row, moved),
            FailureModel { primary: new_path, ..moved },
        ),
        None => rows,
    }).filter(|row: FailureModel| row.primary != old_path)
}

/// The store after a path has been replaced by another wherever it stands.
pub open spec fn path_replaced(store: StoreModel, old_path: Seq<char>, new_path: Seq<char>) -> StoreModel {
    StoreModel {
        projects: project_renamed(store.projects, old_path, new_path),
        linked_worktrees: links_renamed(store.linked_worktrees, old_path, new_path),
        worktree_discovery_failures: failures_renamed(store.worktree_discovery_failures, old_path, new_path),
        ..store
    }
}

fn agreed_text(a: &Option<String>, b: &Option<String>) -> (text: Option<String>)
    ensures
        optional_text(text) == agreed(optional_text(*a), optional_text(*b)),
{
    if texts_match(a, b) {
        copy_text(a)
    } else {
        None
    }
}

fn copy_link(row: &LinkedRow) -> (copy: LinkedRow)
    ensures
        copy == *row,
{
    LinkedRow {
        primary: row.primary.clone(),
        linked: row.linked.clone(),
        canonical_primary: copy_text(&row.canonical_primary),
    }
}

fn merge_link(rows: &mut Vec<LinkedRow>, new: &LinkedRow)
    ensures
        rows_view(final(rows)@) == link_merged(rows_view(old(rows)@), new@),
{
    let same = |row: &LinkedRow| -> (is: bool)
        ensures
            is == same_link(row@, new@),
    {
        row.primary == new.primary && row.linked == new.linked
    };
    let merge = |row: &LinkedRow| -> (merged: LinkedRow)
        ensures
            merged@ == (LinkedModel {
                canonical_primary: agreed(row@.canonical_primary, new@.canonical_primary),
                ..row@
            }),
    {
        LinkedRow {
            primary: row.primary.clone(),
            linked: row.linked.clone(),
            canonical_primary: agreed_text(&row.canonical_primary, &new.canonical_primary),
        }
    };
    upsert_row(
        rows,
        same,
        merge,
        copy_link(new),
        Ghost(|row: LinkedModel| same_link(row, new@)),
        Ghost(
            |row: LinkedModel|
                LinkedModel { canonical_primary: agreed(row.canonical_primary, new@.canonical_primary), ..row },
        ),
    );
}

fn moved_string(text: &String, old_path: &str, new_path: &str) -> (moved: String)
    ensures
        moved@ == moved_text(text@, old_path@, new_path@),
{
    if text_equal(text.as_str(), old_path) {
        new_path.to_owned()
    } else {
        text.clone()
    }
}

fn names_path(row: &LinkedRow, path: &str) -> (names: bool)
    ensures
        names == link_names(row@, path@),
{
    text_equal(row.primary.as_str(), path) || text_equal(row.linked.as_str(), path)
}

fn rename_links(rows: &mut Vec<LinkedRow>, old_path: &str, new_path: &str)
    ensures
        rows_view(final(rows)@) == links_renamed(rows_view(old(rows)@), old_path@, new_path@),
{
    let ghost before = rows_view(rows@);
    let pick = |row: &LinkedRow| -> (found: Option<LinkedRow>)
        ensures
            match found {
                Some(value) => link_to_move(row@, old_path@, new_path@) == Some(value@),
                None => link_to_move(row@, old_path@, new_path@) is None,
            },
    {
        let primary = moved_string(&row.primary, old_path, new_path);
        let linked = moved_string(&row.linked, old_path, new_path);
        if names_path(row, old_path) && !(primary == linked) {
            Some(LinkedRow { primary, linked, canonical_primary: copy_text(&row.canonical_primary) })
        } else {
            None
        }
    };
    let mut moved: Vec<LinkedRow> = Vec::new();
    pick_rows(rows, pick, &mut moved, Ghost(|row: LinkedModel| link_to_move(row, old_path@, new_path@)));
    let ghost all = rows_view(moved@);
    assert(all =~= picked(before, |row: LinkedModel| link_to_move(row, old_path@, new_path@)));
    let mut i: usize = 0;
    assert(all.take(0) =~= Seq::empty());
    while i < moved.len()
        invariant
            i <= moved.len(),
            all == rows_view(moved@),
            rows_view(rows@) == links_merged(before, all.take(i as int)),
        decreases moved.len() - i,
    {
        merge_link(rows, &moved[i]);
        assert(all.take(i + 1).drop_last() =~= all.take(i as int));
        assert(all.take(i + 1).last() == moved@[i as int]@);
        i += 1;
    }
    assert(all.take(i as int) =~= all);
    let keep = |row: &LinkedRow| -> (is: bool)
        ensures
            is == !link_names(row@, old_path@),
    {
        !names_path(row, old_path)
    };
    retain_rows(rows, keep, Ghost(|row: LinkedModel| !link_names(row, old_path@)));
}

fn rename_failures(rows: &mut Vec<FailureRow>, old_path: &str, new_path: &str)
    ensures
        rows_view(final(rows)@) == failures_renamed(rows_view(old(rows)@), old_path@, new_path@),
{
    let is_old = |row: &FailureRow| -> (is: bool)
        ensures
            is == (row@.primary == old_path@),
    {
        text_equal(row.primary.as_str(), old_path)
    };
    let found = first_index_of(rows, is_old, Ghost(|row: FailureModel| row.primary == old_path@));
    match found {
        Some(i) => {
            let moved = FailureRow {
                primary: new_path.to_owned(),
                failed_at: rows[i].failed_at,
                message: rows[i].message.clone(),
                canonical_primary: copy_text(&rows[i].canonical_primary),
            };
            let other = FailureRow {
                primary: rows[i].primary.clone(),
                failed_at: rows[i].failed_at,
                message: rows[i].message.clone(),
                canonical_primary: copy_text(&rows[i].canonical_primary),
            };
            let same = |row: &FailureRow| -> (is: bool)
                ensures
                    is == (row@.primary == new_path@),
            {
                text_equal(row.primary.as_str(), new_path)
            };
            let merge = |row: &FailureRow| -> (merged: FailureRow)
                ensures
                    merged@ == failure_merged(row@, other@),
            {
                FailureRow {
                    primary: row.primary.clone(),
                    failed_at: if row.failed_at >= other.failed_at {
                        row.failed_at
                    } else {
                        other.failed_at
                    },
                    message: if other.failed_at >= row.failed_at {
                        other.message.clone()
                    } else {
                        row.message.clone()
                    },
                    canonical_primary: agreed_text(&row.canonical_primary, &other.canonical_primary),
                }
            };
            upsert_row(
                rows,
                same,
                merge,
                moved,
                Ghost(|row: FailureModel| row.primary == new_path@),
                Ghost(|row: FailureModel| failure_merged(row, other@)),
            );
        },
        None => {},
    }
    let keep = |row: &FailureRow| -> (is: bool)
        ensures
            is == (row@.primary != old_path@),
    {
        !text_equal(row.primary.as_str(), old_path)
    };
    retain_rows(rows, keep, Ghost(|row: FailureModel| row.primary != old_path@));
}

/// Replaces a path by another wherever it stands.
pub(crate) fn replace_path(store: &mut Store, old_path: &str, new_path: &str)
    ensures
        final(store)@ == path_replaced(old(store)@, old_path@, new_path@),
{
    rename_project(&mut store.projects, old_path, new_path);
    rename_links(&mut store.linked_worktrees, old_path, new_path);
    rename_failures(&mut store.worktree_discovery_failures, old_path, new_path);
}

impl Store {
    /// Replaces a path by another wherever it stands.
    pub fn replace_project_path(&mut self, old_path: &PathBuf, new_path: &PathBuf) -> (result: Result<(), StoreError>)
        ensures
            if !valid_utf8(old_path@) {
                result matches Err(StoreError::NotText(p)) && p@ == old_path@ && final(self)@ == old(self)@
            } else if !valid_utf8(new_path@) {
                result matches Err(StoreError::NotText(p)) && p@ == new_path@ && final(self)@ == old(self)@
            } else {
                result is Ok && final(self)@ == (if decode_utf8(old_path@) == decode_utf8(new_path@) {
                    old(self)@
                } else {
                    path_replaced(old(self)@, decode_utf8(old_path@), decode_utf8(new_path@))
                })
            },
            consistent(old(self)@) ==> consistent(final(self)@),
    {
        let old_text = match path_to_string(old_path) {
            Ok(text) => text,
            Err(error) => return Err(error),
        };
        let new_text = match path_to_string(new_path) {
            Ok(text) => text,
            Err(error) => return Err(error),
        };
        if old_text == new_text {
            return Ok(());
        }
        replace_path(self, old_text.as_str(), new_text.as_str());
        Ok(())
    }
}

// ------------------------------------------------------------------ success

/// The linked worktrees of one primary, as they are to be stored.
pub struct SuccessModel {
    pub primary: Seq<char>,
    pub canonical_primary: Option<Seq<char>>,
    pub linked: Seq<Seq<char>>,
    pub excluded: Seq<Seq<char>>,
    pub out_of_scope: Seq<Seq<char>>,
}

/// A failure to ask a primary for its worktrees, as it is to be stored.
pub struct NewFailureModel {
    pub primary: Seq<char>,
    pub canonical_primary: Option<Seq<char>>,
    pub failed_at: i64,
    pub message: Seq<char>,
}

/// A checked success.
pub struct PreparedSuccess {
    pub primary: String,
    pub canonical_primary: Option<String>,
    pub linked: Vec<String>,
    pub excluded: Vec<String>,
    pub out_of_scope: Vec<String>,
}

/// A checked failure.
pub struct PreparedFailure {
    pub primary: String,
    pub canonical_primary: Option<String>,
    pub failed_at: i64,
    pub message: String,
}

impl PreparedSuccess {
    pub open spec fn model(&self) -> SuccessModel {
        SuccessModel {
            primary: self.primary@,
            canonical_primary: optional_text(self.canonical_primary),
            linked: texts(self.linked@),
            excluded: texts(self.excluded@),
            out_of_scope: texts(self.out_of_scope@),
        }
    }
}

impl PreparedFailure {
    pub open spec fn model(&self) -> NewFailureModel {
        NewFailureModel {
            primary: self.primary@,
            canonical_primary: optional_text(self.canonical_primary),
            failed_at: self.failed_at,
            message: self.message@,
        }
    }
}

/// The first of some paths that is no text.
pub open spec fn first_not_text(paths: Seq<Seq<u8>>) -> Option<Seq<u8>>
    decreases paths.len(),
{
    if paths.len() == 0 {
        None
    } else if !valid_utf8(paths[0]) {
        Some(paths[0])
    } else {
        first_not_text(paths.drop_first())
    }
}

/// The texts of some paths in order, each once.
pub open spec fn path_text_set(paths: Seq<Seq<u8>>) -> Seq<Seq<char>> {
    text_set(paths.map_values(|path: Seq<u8>| decode_utf8(path)))
}

/// The texts of some paths in order, each once, or the first path that is none.
pub(crate) fn sorted_path_texts(paths: &Vec<PathBuf>) -> (result: Result<Vec<String>, StoreError>)
    ensures
        match first_not_text(path_views(paths@)) {
            Some(path) => result matches Err(error) && error@ == StoreFault::NotText(path),
            None => result matches Ok(list) && texts(list@) == path_text_set(path_views(paths@)),
        },
{
    let ghost all = path_views(paths@);
    let mut list: Vec<String> = Vec::new();
    let mut i: usize = 0;
    assert(all.skip(0) =~= all);
    assert(texts(list@) =~= all.take(0).map_values(|path: Seq<u8>| decode_utf8(path)));
    while i < paths.len()
        invariant
            i <= paths.len(),
            all == path_views(paths@),
            first_not_text(all) == first_not_text(all.skip(i as int)),
            texts(list@) == all.take(i as int).map_values(|path: Seq<u8>| decode_utf8(path)),
        decreases paths.len() - i,
    {
        assert(all.skip(i as int)[0] == paths@[i as int]@);
        assert(all.skip(i as int).drop_first() =~= all.skip(i + 1));
        match path_to_string(&paths[i]) {
            Ok(text) => {
                let ghost before = list@;
                list.push(text);
                proof {
                    let f = |path: Seq<u8>| decode_utf8(path);
                    assert(all.take(i + 1) =~= all.take(i as int).push(all[i as int]));
                    assert(all.take(i + 1).map_values(f) =~= all.take(i as int).map_values(f).push(f(all[i as int])));
                    assert(texts(list@) =~= texts(before).push(text@));
                }
            },
            Err(error) => return Err(error),
        }
        i += 1;
    }
    assert(all.take(i as int) =~= all);
    sort_texts(&mut list);
    Ok(list)
}

/// The text of the physical path of a path, if it has one.
pub open spec fn physical_text(known: Map<Seq<u8>, Resolved>, path: Seq<u8>) -> Result<Option<Seq<char>>, StoreFault> {
    match physical_path(known, path) {
        Finding::Unresolved(p) => Err(StoreFault::Unresolved(p)),
        Finding::Known(None) => Ok(None),
        Finding::Known(Some(physical)) => if valid_utf8(physical) {
            Ok(Some(decode_utf8(physical)))
        } else {
            Err(StoreFault::NotText(physical))
        },
    }
}

pub(crate) fn physical_string(known: &Resolutions, path: &PathBuf) -> (result: Result<Option<String>, StoreError>)
    ensures
        match physical_text(known@, path@) {
            Ok(text) => result matches Ok(found) && optional_text(found) == text,
            Err(fault) => result matches Err(error) && error@ == fault,
        },
{
    match known.physical(path) {
        Answer::Unresolved(p) => Err(StoreError::Unresolved(p)),
        Answer::Known(None) => Ok(None),
        Answer::Known(Some(physical)) => match path_to_string(&physical) {
            Ok(text) => Ok(Some(text)),
            Err(error) => Err(error),
        },
    }
}

/// What is stored of a success, or why nothing is.
pub open spec fn success_of(
    known: Map<Seq<u8>, Resolved>,
    primary: Seq<u8>,
    linked: Seq<Seq<u8>>,
    excluded: Seq<Seq<u8>>,
    out_of_scope: Seq<Seq<u8>>,
) -> Result<SuccessModel, StoreFault> {
    if !valid_utf8(primary) {
        Err(StoreFault::NotText(primary))
    } else {
        match physical_text(known, primary) {
            Err(fault) => Err(fault),
            Ok(canonical) => match first_not_text(linked) {
                Some(path) => Err(StoreFault::NotText(path)),
                None => match first_not_text(excluded) {
                    Some(path) => Err(StoreFault::NotText(path)),
                    None => match first_not_text(out_of_scope) {
                        Some(path) => Err(StoreFault::NotText(path)),
                        None => Ok(
                            SuccessModel {
                                primary: match canonical {
                                    Some(text) => text,
                                    None => decode_utf8(primary),
                                },
                                canonical_primary: canonical,
                                linked: path_text_set(linked),
                                excluded: path_text_set(excluded),
                                out_of_scope: path_text_set(out_of_scope),
                            },
                        ),
                    },
                },
            },
        }
    }
}

/// What is stored of a failure, or why nothing is.
pub open spec fn failure_of(
    known: Map<Seq<u8>, Resolved>,
    primary: Seq<u8>,
    now: int,
    message: Seq<char>,
) -> Result<NewFailureModel, StoreFault> {
    if !valid_utf8(primary) {
        Err(StoreFault::NotText(primary))
    } else {
        match physical_text(known, primary) {
            Err(fault) => Err(fault),
            Ok(canonical) => match epoch_of(now) {
                None => Err(StoreFault::BeforeEpoch),
                Some(secs) => Ok(
                    NewFailureModel {
                        primary: decode_utf8(primary),
                        canonical_primary: canonical,
                        failed_at: secs,
                        message,
                    },
                ),
            },
        }
    }
}

pub(crate) fn prepare_worktree_success(
    primary: &PathBuf,
    linked: &Vec<PathBuf>,
    excluded: &Vec<PathBuf>,
    out_of_scope: &Vec<PathBuf>,
    known: &Resolutions,
) -> (result: Result<PreparedSuccess, StoreError>)
    ensures
        match success_of(known@, primary@, path_views(linked@), path_views(excluded@), path_views(out_of_scope@)) {
            Ok(success) => result matches Ok(prepared) && prepared.model() == success,
            Err(fault) => result matches Err(error) && error@ == fault,
        },
{
    let persisted = match path_to_string(primary) {
        Ok(text) => text,
        Err(error) => return Err(error),
    };
    let canonical_primary = match physical_string(known, primary) {
        Ok(text) => text,
        Err(error) => return Err(error),
    };
    let linked = match sorted_path_texts(linked) {
        Ok(list) => list,
        Err(error) => return Err(error),
    };
    let excluded = match sorted_path_texts(excluded) {
        Ok(list) => list,
        Err(error) => return Err(error),
    };
    let out_of_scope = match sorted_path_texts(out_of_scope) {
        Ok(list) => list,
        Err(error) => return Err(error),
    };
    let primary = match &canonical_primary {
        Some(text) => text.clone(),
        None => persisted,
    };
    Ok(PreparedSuccess { primary, canonical_primary, linked, excluded, out_of_scope })
}

pub(crate) fn prepare_worktree_failure(primary: &PathBuf, now: SystemTime, message: &str, known: &Resolutions) -> (result:
    Result<PreparedFailure, StoreError>)
    ensures
        match failure_of(known@, primary@, now@, message@) {
            Ok(failure) => result matches Ok(prepared) && prepared.model() == failure,
            Err(fault) => result matches Err(error) && error@ == fault,
        },
{
    let persisted = match path_to_string(primary) {
        Ok(text) => text,
        Err(error) => return Err(error),
    };
    let canonical_primary = match physical_string(known, primary) {
        Ok(text) => text,
        Err(error) => return Err(error),
    };
    let failed_at: i64 = match to_epoch(now) {
        Ok(secs) => secs,
        Err(error) => return Err(error),
    };
    Ok(PreparedFailure { primary: persisted, canonical_primary, failed_at, message: message.to_owned() })
}

/// The associations after one has been added, unless it is there.
pub open spec fn link_added(rows: Seq<LinkedModel>, new: LinkedModel) -> Seq<LinkedModel> {
    if some_row(rows, |row: LinkedModel| same_link(row, new)) {
        rows
    } else {
        rows.push(new)
    }
}

/// The associations after several have been added, unless they are there.
pub open spec fn links_added(rows: Seq<LinkedModel>, new: Seq<LinkedModel>) -> Seq<LinkedModel>
    decreases new.len(),
{
    if new.len() == 0 {
        rows
    } else {
        link_added(links_added(rows, new.drop_last()), new.last())
    }
}

fn add_links(rows: &mut Vec<LinkedRow>, new: &Vec<LinkedRow>)
    ensures
        rows_view(final(rows)@) == links_added(rows_view(old(rows)@), rows_view(new@)),
{
    let ghost before = rows_view(rows@);
    let ghost all = rows_view(new@);
    let mut i: usize = 0;
    assert(all.take(0) =~= Seq::empty());
    while i < new.len()
        invariant
            i <= new.len(),
            all == rows_view(new@),
            rows_view(rows@) == links_added(before, all.take(i as int)),
        decreases new.len() - i,
    {
        let one = &new[i];
        let same = |row: &LinkedRow| -> (is: bool)
            ensures
                is == same_link(row@, one@),
        {
            row.primary == one.primary && row.linked == one.linked
        };
        assert(all.take(i + 1).drop_last() =~= all.take(i as int));
        assert(all.take(i + 1).last() == one@);
        if !any_row(rows, same, Ghost(|row: LinkedModel| same_link(row, one@))) {
            push_row(rows, copy_link(one));
        }
        i += 1;
    }
    assert(all.take(i as int) =~= all);
}

/// Whether an association belongs to an alias of a physical primary.
pub open spec fn is_alias_link(row: LinkedModel, alias: Seq<char>, canonical: Seq<char>) -> bool {
    row.primary == alias && row.canonical_primary == Some(canonical)
}

/// The associations after those of an alias have been given to the physical
/// primary.
pub open spec fn links_rekeyed(rows: Seq<LinkedModel>, alias: Seq<char>, canonical: Seq<char>) -> Seq<LinkedModel> {
    links_added(
        rows,
        picked(
            rows,
            |row: LinkedModel|
                if is_alias_link(row, alias, canonical) && row.linked != canonical {
                    Some(LinkedModel { primary: canonical, ..row })
                } else {
                    None
                },
        ),
    ).filter(|row: LinkedModel| !is_alias_link(row, alias, canonical))
}

fn is_alias(row: &LinkedRow, alias: &str, canonical: &str) -> (is: bool)
    ensures
        is == is_alias_link(row@, alias@, canonical@),
{
    text_equal(row.primary.as_str(), alias) && text_is(&row.canonical_primary, canonical)
}

fn rekey_links(rows: &mut Vec<LinkedRow>, alias: &str, canonical: &str)
    ensures
        rows_view(final(rows)@) == links_rekeyed(rows_view(old(rows)@), alias@, canonical@),
{
    let ghost g = |row: LinkedModel|
        if is_alias_link(row, alias@, canonical@) && row.linked != canonical@ {
            Some(LinkedModel { primary: canonical@, ..row })
        } else {
            None::<LinkedModel>
        };
    let pick = |row: &LinkedRow| -> (found: Option<LinkedRow>)
        ensures
            match found {
                Some(value) => is_alias_link(row@, alias@, canonical@) && row@.linked != canonical@ && value@ == (
                LinkedModel { primary: canonical@, ..row@ }),
                None => !(is_alias_link(row@, alias@, canonical@) && row@.linked != canonical@),
            },
    {
        if is_alias(row, alias, canonical) && !text_equal(row.linked.as_str(), canonical) {
            Some(
                LinkedRow {
                    primary: canonical.to_owned(),
                    linked: row.linked.clone(),
                    canonical_primary: copy_text(&row.canonical_primary),
                },
            )
        } else {
            None
        }
    };
    let mut moved: Vec<LinkedRow> = Vec::new();
    pick_rows(rows, pick, &mut moved, Ghost(g));
    assert(rows_view(moved@) =~= picked(rows_view(rows@), g));
    add_links(rows, &moved);
    let keep = |row: &LinkedRow| -> (is: bool)
        ensures
            is == !is_alias_link(row@, alias@, canonical@),
    {
        !is_alias(row, alias, canonical)
    };
    retain_rows(rows, keep, Ghost(|row: LinkedModel| !is_alias_link(row, alias@, canonical@)));
}

/// The primaries under which a failure of the physical primary is recorded, other
/// than itself.
pub open spec fn failed_aliases(rows: Seq<FailureModel>, canonical: Seq<char>) -> Seq<Seq<char>> {
    text_set(
        picked(
            rows,
            |row: FailureModel|
                if row.canonical_primary == Some(canonical) && row.primary != canonical {
                    Some(row.primary)
                } else {
                    None
                },
        ),
    )
}

/// The primaries under which worktrees of the physical primary are recorded,
/// other than itself.
pub open spec fn linked_aliases(rows: Seq<LinkedModel>, canonical: Seq<char>) -> Seq<Seq<char>> {
    text_set(
        picked(
            rows,
            |row: LinkedModel|
                if row.canonical_primary == Some(canonical) && row.primary != canonical {
                    Some(row.primary)
                } else {
                    None
                },
        ),
    )
}

/// The store after a failed alias has been merged into the physical primary.
pub open spec fn failed_alias_rekeyed(store: StoreModel, alias: Seq<char>, canonical: Seq<char>) -> StoreModel {
    StoreModel {
        linked_worktrees: links_rekeyed(store.linked_worktrees, alias, canonical),
        worktree_discovery_failures: failures_renamed(store.worktree_discovery_failures, alias, canonical),
        projects: without_project(store.projects, alias),
        ..store
    }
}

/// The store after the worktrees of an alias have been given to the physical
/// primary.
pub open spec fn linked_alias_rekeyed(store: StoreModel, alias: Seq<char>, canonical: Seq<char>) -> StoreModel {
    StoreModel {
        linked_worktrees: links_rekeyed(store.linked_worktrees, alias, canonical),
        projects: without_project(store.projects, alias),
        ..store
    }
}

/// The store after several failed aliases have been merged one by one.
pub open spec fn failed_aliases_rekeyed(store: StoreModel, aliases: Seq<Seq<char>>, canonical: Seq<char>) -> StoreModel
    decreases aliases.len(),
{
    if aliases.len() == 0 {
        store
    } else {
        failed_alias_rekeyed(
            failed_aliases_rekeyed(store, aliases.drop_last(), canonical),
            aliases.last(),
            canonical,
        )
    }
}

/// The store after the worktrees of several aliases have been given away one by
/// one.
pub open spec fn linked_aliases_rekeyed(store: StoreModel, aliases: Seq<Seq<char>>, canonical: Seq<char>) -> StoreModel
    decreases aliases.len(),
{
    if aliases.len() == 0 {
        store
    } else {
        linked_alias_rekeyed(
            linked_aliases_rekeyed(store, aliases.drop_last(), canonical),
            aliases.last(),
            canonical,
        )
    }
}

/// The store after everything recorded under an alias of a physical primary has
/// been put under the primary itself.
pub open spec fn aliases_merged(store: StoreModel, canonical: Seq<char>) -> StoreModel {
    let merged = failed_aliases_rekeyed(
        store,
        failed_aliases(store.worktree_discovery_failures, canonical),
        canonical,
    );
    linked_aliases_rekeyed(merged, linked_aliases(merged.linked_worktrees, canonical), canonical)
}

fn merge_failed_aliases(store: &mut Store, canonical: &str)
    ensures
        final(store)@ == failed_aliases_rekeyed(
            old(store)@,
            failed_aliases(old(store)@.worktree_discovery_failures, canonical@),
            canonical@,
        ),
{
    let ghost before = store@;
    let ghost g = |row: FailureModel|
        if row.canonical_primary == Some(canonical@) && row.primary != canonical@ {
            Some(row.primary)
        } else {
            None::<Seq<char>>
        };
    let pick = |row: &FailureRow| -> (found: Option<String>)
        ensures
            match found {
                Some(value) => row@.canonical_primary == Some(canonical@) && row@.primary != canonical@ && value@
                    == row@.primary,
                None => !(row@.canonical_primary == Some(canonical@) && row@.primary != canonical@),
            },
    {
        if text_is(&row.canonical_primary, canonical) && !text_equal(row.primary.as_str(), canonical) {
            Some(row.primary.clone())
        } else {
            None
        }
    };
    let mut aliases: Vec<String> = Vec::new();
    pick_rows(&store.worktree_discovery_failures, pick, &mut aliases, Ghost(g));
    proof {
        lemma_rows_of_texts(aliases@);
        assert(texts(aliases@) =~= picked(before.worktree_discovery_failures, g));
    }
    sort_texts(&mut aliases);
    let ghost all = texts(aliases@);
    assert(all == failed_aliases(before.worktree_discovery_failures, canonical@));
    let mut i: usize = 0;
    assert(all.take(0) =~= Seq::empty());
    while i < aliases.len()
        invariant
            i <= aliases.len(),
            all == texts(aliases@),
            store@ == failed_aliases_rekeyed(before, all.take(i as int), canonical@),
        decreases aliases.len() - i,
    {
        let alias = aliases[i].as_str();
        assert(all.take(i + 1).drop_last() =~= all.take(i as int));
        assert(all.take(i + 1).last() == alias@);
        rekey_links(&mut store.linked_worktrees, alias, canonical);
        rename_failures(&mut store.worktree_discovery_failures, alias, canonical);
        drop_project(&mut store.projects, alias);
        i += 1;
    }
    assert(all.take(i as int) =~= all);
}

fn merge_linked_aliases(store: &mut Store, canonical: &str)
    ensures
        final(store)@ == linked_aliases_rekeyed(
            old(store)@,
            linked_aliases(old(store)@.linked_worktrees, canonical@),
            canonical@,
        ),
{
    let ghost before = store@;
    let ghost g = |row: LinkedModel|
        if row.canonical_primary == Some(canonical@) && row.primary != canonical@ {
            Some(row.primary)
        } else {
            None::<Seq<char>>
        };
    let pick = |row: &LinkedRow| -> (found: Option<String>)
        ensures
            match found {
                Some(value) => row@.canonical_primary == Some(canonical@) && row@.primary != canonical@ && value@
                    == row@.primary,
                None => !(row@.canonical_primary == Some(canonical@) && row@.primary != canonical@),
            },
    {
        if text_is(&row.canonical_primary, canonical) && !text_equal(row.primary.as_str(), canonical) {
            Some(row.primary.clone())
        } else {
            None
        }
    };
    let mut aliases: Vec<String> = Vec::new();
    pick_rows(&store.linked_worktrees, pick, &mut aliases, Ghost(g));
    proof {
        lemma_rows_of_texts(aliases@);
        assert(texts(aliases@) =~= picked(before.linked_worktrees, g));
    }
    sort_texts(&mut aliases);
    let ghost all = texts(aliases@);
    assert(all == linked_aliases(before.linked_worktrees, canonical@));
    let mut i: usize = 0;
    assert(all.take(0) =~= Seq::empty());
    while i < aliases.len()
        invariant
            i <= aliases.len(),
            all == texts(aliases@),
            store@ == linked_aliases_rekeyed(before, all.take(i as int), canonical@),
        decreases aliases.len() - i,
    {
        let alias = aliases[i].as_str();
        assert(all.take(i + 1).drop_last() =~= all.take(i as int));
        assert(all.take(i + 1).last() == alias@);
        rekey_links(&mut store.linked_worktrees, alias, canonical);
        drop_project(&mut store.projects, alias);
        i += 1;
    }
    assert(all.take(i as int) =~= all);
}

/// Whether a failure is recorded whose physical primary is not known.
pub open spec fn has_untrusted_failure(rows: Seq<FailureModel>) -> bool {
    some_row(rows, |row: FailureModel| row.canonical_primary is None)
}

pub(crate) fn some_untrusted_failure(rows: &Vec<FailureRow>) -> (found: bool)
    ensures
        found == has_untrusted_failure(rows_view(rows@)),
{
    let untrusted = |row: &FailureRow| -> (is: bool)
        ensures
            is == row@.canonical_primary is None,
    {
        row.canonical_primary.is_none()
    };
    any_row(rows, untrusted, Ghost(|row: FailureModel| row.canonical_primary is None))
}

/// Whether a project goes when the worktrees of a primary are known again: it was
/// one of them and is no more, or it is excluded or out of scope.
pub open spec fn project_gone(links: Seq<LinkedModel>, success: SuccessModel, path: Seq<char>) -> bool {
    ||| some_row(
        links,
        |row: LinkedModel| row.canonical_primary == Some(success.primary) && row.linked == path,
    ) && !success.linked.contains(path)
    ||| success.excluded.contains(path)
    ||| success.out_of_scope.contains(path)
}

/// The store with the worktrees of a primary in place of those it had, unless some
/// failure cannot be attributed.
pub open spec fn worktrees_replaced(store: StoreModel, success: SuccessModel) -> StoreModel {
    if has_untrusted_failure(store.worktree_discovery_failures) {
        store
    } else {
        StoreModel {
            linked_worktrees: links_added(
                store.linked_worktrees.filter(
                    |row: LinkedModel| row.canonical_primary != Some(success.primary),
                ),
                success.linked.map_values(
                    |linked: Seq<char>|
                        LinkedModel {
                            primary: success.primary,
                            linked,
                            canonical_primary: success.canonical_primary,
                        },
                ),
            ),
            projects: store.projects.filter(
                |row: ProjectModel| !project_gone(store.linked_worktrees, success, row.path),
            ),
            worktree_discovery_failures: store.worktree_discovery_failures.filter(
                |row: FailureModel|
                    !(row.primary == success.primary && row.canonical_primary == Some(success.primary)),
            ),
            ..store
        }
    }
}

/// The store after a primary has been asked for its worktrees with success.
pub open spec fn with_worktrees(store: StoreModel, success: SuccessModel) -> StoreModel {
    worktrees_replaced(
        if success.canonical_primary is Some {
            aliases_merged(store, success.primary)
        } else {
            store
        },
        success,
    )
}

/// The store after a primary could not be asked for its worktrees.
pub open spec fn with_failure(store: StoreModel, failure: NewFailureModel) -> StoreModel {
    StoreModel {
        worktree_discovery_failures: upserted(
            store.worktree_discovery_failures,
            |row: FailureModel| row.primary == failure.primary,
            |row: FailureModel| FailureModel { failed_at: failure.failed_at, message: failure.message, ..row },
            FailureModel {
                primary: failure.primary,
                failed_at: failure.failed_at,
                message: failure.message,
                canonical_primary: failure.canonical_primary,
            },
        ),
        ..store
    }
}

fn is_gone(links: &Vec<LinkedRow>, success: &PreparedSuccess, path: &str) -> (gone: bool)
    ensures
        gone == project_gone(rows_view(links@), success.model(), path@),
{
    let was_linked = |row: &LinkedRow| -> (is: bool)
        ensures
            is == (row@.canonical_primary == Some(success.primary@) && row@.linked == path@),
    {
        text_is(&row.canonical_primary, success.primary.as_str()) && text_equal(row.linked.as_str(), path)
    };
    (any_row(
        links,
        was_linked,
        Ghost(|row: LinkedModel| row.canonical_primary == Some(success.primary@) && row.linked == path@),
    ) && !has_text(&success.linked, path)) || has_text(&success.excluded, path) || has_text(
        &success.out_of_scope,
        path,
    )
}

pub(crate) fn replace_linked_worktrees_in(store: &mut Store, success: &PreparedSuccess)
    ensures
        final(store)@ == with_worktrees(old(store)@, success.model()),
{
    if success.canonical_primary.is_some() {
        merge_failed_aliases(store, success.primary.as_str());
        merge_linked_aliases(store, success.primary.as_str());
    }
    if some_untrusted_failure(&store.worktree_discovery_failures) {
        return;
    }
    let ghost merged = store@;
    let links = &store.linked_worktrees;
    let keep_project = |row: &ProjectRow| -> (is: bool)
        ensures
            is == !project_gone(rows_view(links@), success.model(), row@.path),
    {
        !is_gone(links, success, row.path.as_str())
    };
    retain_rows(
        &mut store.projects,
        keep_project,
        Ghost(|row: ProjectModel| !project_gone(merged.linked_worktrees, success.model(), row.path)),
    );
    let keep_link = |row: &LinkedRow| -> (is: bool)
        ensures
            is == (row@.canonical_primary != Some(success.primary@)),
    {
        !text_is(&row.canonical_primary, success.primary.as_str())
    };
    retain_rows(
        &mut store.linked_worktrees,
        keep_link,
        Ghost(|row: LinkedModel| row.canonical_primary != Some(success.primary@)),
    );
    let mut new: Vec<LinkedRow> = Vec::new();
    let ghost link = |linked: Seq<char>|
        LinkedModel {
            primary: success.primary@,
            linked,
            canonical_primary: optional_text(success.canonical_primary),
        };
    let mut i: usize = 0;
    while i < success.linked.len()
        invariant
            i <= success.linked.len(),
            link == (|linked: Seq<char>|
                LinkedModel {
                    primary: success.primary@,
                    linked,
                    canonical_primary: optional_text(success.canonical_primary),
                }),
            rows_view(new@) == texts(success.linked@).take(i as int).map_values(link),
        decreases success.linked.len() - i,
    {
        push_row(
            &mut new,
            LinkedRow {
                primary: success.primary.clone(),
                linked: success.linked[i].clone(),
                canonical_primary: copy_text(&success.canonical_primary),
            },
        );
        i += 1;
        assert(rows_view(new@) =~= texts(success.linked@).take(i as int).map_values(link));
    }
    assert(texts(success.linked@).take(i as int) =~= texts(success.linked@));
    add_links(&mut store.linked_worktrees, &new);
    let keep_failure = |row: &FailureRow| -> (is: bool)
        ensures
            is == !(row@.primary == success.primary@ && row@.canonical_primary == Some(success.primary@)),
    {
        !(row.primary == success.primary && text_is(&row.canonical_primary, success.primary.as_str()))
    };
    retain_rows(
        &mut store.worktree_discovery_failures,
        keep_failure,
        Ghost(
            |row: FailureModel| !(row.primary == success.primary@ && row.canonical_primary == Some(success.primary@)),
        ),
    );
}

pub(crate) fn mark_worktree_discovery_failed_in(store: &mut Store, failure: &PreparedFailure)
    ensures
        final(store)@ == with_failure(old(store)@, failure.model()),
{
    let same = |row: &FailureRow| -> (is: bool)
        ensures
            is == (row@.primary == failure.primary@),
    {
        row.primary == failure.primary
    };
    let merge = |row: &FailureRow| -> (merged: FailureRow)
        ensures
            merged@ == (FailureModel { failed_at: failure.failed_at, message: failure.message@, ..row@ }),
    {
        FailureRow {
            primary: row.primary.clone(),
            failed_at: failure.failed_at,
            message: failure.message.clone(),
            canonical_primary: copy_text(&row.canonical_primary),
        }
    };
    upsert_row(
        &mut store.worktree_discovery_failures,
        same,
        merge,
        FailureRow {
            primary: failure.primary.clone(),
            failed_at: failure.failed_at,
            message: failure.message.clone(),
            canonical_primary: copy_text(&failure.canonical_primary),
        },
        Ghost(|row: FailureModel| row.primary == failure.primary@),
        Ghost(
            |row: FailureModel|
                FailureModel { failed_at: failure.failed_at, message: failure.message@, ..row },
        ),
    );
}

impl Store {
    /// Stores the linked worktrees of a primary.
    pub fn replace_linked_worktrees(&mut self, primary: &PathBuf, linked: &Vec<PathBuf>, known: &Resolutions) -> (result:
        Result<(), StoreError>)
        ensures
            match success_of(known@, primary@, path_views(linked@), Seq::empty(), Seq::empty()) {
                Ok(success) => result is Ok && final(self)@ == with_worktrees(old(self)@, success),
                Err(fault) => result matches Err(error) && error@ == fault && final(self)@ == old(self)@,
            },
            consistent(old(self)@) ==> consistent(final(self)@),
    {
        let none: Vec<PathBuf> = Vec::new();
        assert(path_views(none@) =~= Seq::empty());
        self.replace_linked_worktrees_with_reconciliation(primary, linked, &none, &none, known)
    }

    /// Stores the linked worktrees of a primary, some of which are excluded.
    pub fn replace_linked_worktrees_with_exclusions(
        &mut self,
        primary: &PathBuf,
        linked: &Vec<PathBuf>,
        excluded: &Vec<PathBuf>,
        known: &Resolutions,
    ) -> (result: Result<(), StoreError>)
        ensures
            match success_of(known@, primary@, path_views(linked@), path_views(excluded@), Seq::empty()) {
                Ok(success) => result is Ok && final(self)@ == with_worktrees(old(self)@, success),
                Err(fault) => result matches Err(error) && error@ == fault && final(self)@ == old(self)@,
            },
            consistent(old(self)@) ==> consistent(final(self)@),
    {
        let none: Vec<PathBuf> = Vec::new();
        assert(path_views(none@) =~= Seq::empty());
        self.replace_linked_worktrees_with_reconciliation(primary, linked, excluded, &none, known)
    }

    /// Stores the linked worktrees of a primary, some of which are excluded or out
    /// of scope.
    pub fn replace_linked_worktrees_with_reconciliation(
        &mut self,
        primary: &PathBuf,
        linked: &Vec<PathBuf>,
        excluded: &Vec<PathBuf>,
        out_of_scope: &Vec<PathBuf>,
        known: &Resolutions,
    ) -> (result: Result<(), StoreError>)
        ensures
            match success_of(
                known@,
                primary@,
                path_views(linked@),
                path_views(excluded@),
                path_views(out_of_scope@),
            ) {
                Ok(success) => result is Ok && final(self)@ == with_worktrees(old(self)@, success),
                Err(fault) => result matches Err(error) && error@ == fault && final(self)@ == old(self)@,
            },
            consistent(old(self)@) ==> consistent(final(self)@),
    {
        proof {
            if consistent(self@) {
                worktrees_leave_records(
                    self@,
                    success_of(
                        known@,
                        primary@,
                        path_views(linked@),
                        path_views(excluded@),
                        path_views(out_of_scope@),
                    )->Ok_0,
                );
            }
        }
        match prepare_worktree_success(primary, linked, excluded, out_of_scope, known) {
            Ok(prepared) => {
                replace_linked_worktrees_in(self, &prepared);
                Ok(())
            },
            Err(error) => Err(error),
        }
    }

    /// Records that a primary could not be asked for its worktrees.
    pub fn mark_worktree_discovery_failed(
        &mut self,
        primary: &PathBuf,
        now: SystemTime,
        message: &str,
        known: &Resolutions,
    ) -> (result: Result<(), StoreError>)
        ensures
            match failure_of(known@, primary@, now@, message@) {
                Ok(failure) => result is Ok && final(self)@ == with_failure(old(self)@, failure),
                Err(fault) => result matches Err(error) && error@ == fault && final(self)@ == old(self)@,
            },
            consistent(old(self)@) ==> consistent(final(self)@),
    {
        match prepare_worktree_failure(primary, now, message, known) {
            Ok(prepared) => {
                mark_worktree_discovery_failed_in(self, &prepared);
                Ok(())
            },
            Err(error) => Err(error),
        }
    }
}

// ---------------------------------------------------------------------- laws

/// Whether a failure of a physical primary is recorded under another path.
pub open spec fn is_failed_alias(row: FailureModel, canonical: Seq<char>) -> bool {
    row.canonical_primary == Some(canonical) && row.primary != canonical
}

/// Renaming a failed alias to its physical primary leaves failed aliases only
/// where there were some before, and none under that alias.
proof fn lemma_alias_renamed(rows: Seq<FailureModel>, alias: Seq<char>, canonical: Seq<char>)
    requires
        alias != canonical,
    ensures
        forall|row: FailureModel|
            failures_renamed(rows, alias, canonical).contains(row) && is_failed_alias(row, canonical) ==> row.primary
                != alias && rows.contains(row),
{
    let p = |row: FailureModel| row.primary == alias;
    let same = |row: FailureModel| row.primary == canonical;
    let keep = |row: FailureModel| row.primary != alias;
    let after = failures_renamed(rows, alias, canonical);
    assert forall|row: FailureModel| after.contains(row) && is_failed_alias(row, canonical) implies row.primary != alias
        && rows.contains(row) by {
        match first_row(rows, p) {
            Some(moved) => {
                let merge = |r: FailureModel| failure_merged(r, moved);
                let new = FailureModel { primary: canonical, ..moved };
                let merged = upserted(rows, same, merge, new);
                assert(after == merged.filter(keep));
                merged.lemma_filter_contains_rev(keep, row);
                let k = choose|k: int| 0 <= k < after.len() && after[k] == row;
                merged.lemma_filter_pred(keep, k);
                let i = choose|i: int| 0 <= i < merged.len() && merged[i] == row;
                if some_row(rows, same) {
                    if same(rows[i]) {
                        assert(row == merge(rows[i]));
                        assert(false);
                    }
                    assert(rows[i] == row);
                } else {
                    assert(merged == rows.push(new));
                    assert(i < rows.len());
                    assert(rows[i] == row);
                }
            },
            None => {
                rows.lemma_filter_contains_rev(keep, row);
                let k = choose|k: int| 0 <= k < after.len() && after[k] == row;
                rows.lemma_filter_pred(keep, k);
            },
        }
    }
}

proof fn lemma_aliases_left(store: StoreModel, aliases: Seq<Seq<char>>, canonical: Seq<char>)
    requires
        !aliases.contains(canonical),
    ensures
        forall|row: FailureModel|
            failed_aliases_rekeyed(store, aliases, canonical).worktree_discovery_failures.contains(row)
                && is_failed_alias(row, canonical) ==> store.worktree_discovery_failures.contains(row)
                && !aliases.contains(row.primary),
    decreases aliases.len(),
{
    if aliases.len() > 0 {
        let rest = aliases.drop_last();
        assert forall|i: int| 0 <= i < rest.len() implies rest[i] != canonical by {
            assert(aliases[i] == rest[i]);
        }
        lemma_aliases_left(store, rest, canonical);
        let before = failed_aliases_rekeyed(store, rest, canonical).worktree_discovery_failures;
        assert(aliases[aliases.len() - 1] != canonical);
        lemma_alias_renamed(before, aliases.last(), canonical);
        let after = failed_aliases_rekeyed(store, aliases, canonical).worktree_discovery_failures;
        assert forall|row: FailureModel|
            after.contains(row) && is_failed_alias(row, canonical) implies store.worktree_discovery_failures.contains(
            row,
        ) && !aliases.contains(row.primary) by {
            assert(before.contains(row));
            if aliases.contains(row.primary) {
                let k = choose|k: int| 0 <= k < aliases.len() && aliases[k] == row.primary;
                if k < rest.len() {
                    assert(rest[k] == row.primary);
                }
            }
        }
    }
}

proof fn lemma_linked_aliases_keep_failures(store: StoreModel, aliases: Seq<Seq<char>>, canonical: Seq<char>)
    ensures
        linked_aliases_rekeyed(store, aliases, canonical).worktree_discovery_failures
            == store.worktree_discovery_failures,
    decreases aliases.len(),
{
    if aliases.len() > 0 {
        lemma_linked_aliases_keep_failures(store, aliases.drop_last(), canonical);
    }
}

/// Once a checkout has been asked for its worktrees with success, and no failure
/// is left that cannot be attributed, no failure of it is recorded any more,
/// under whichever path it was.
pub proof fn success_lifts_failures(store: StoreModel, success: SuccessModel)
    requires
        success.canonical_primary == Some(success.primary),
        !has_untrusted_failure(aliases_merged(store, success.primary).worktree_discovery_failures),
    ensures
        forall|i: int|
            0 <= i < with_worktrees(store, success).worktree_discovery_failures.len() ==> (
            #[trigger] with_worktrees(store, success).worktree_discovery_failures[i]).canonical_primary != Some(
                success.primary,
            ),
{
    let canonical = success.primary;
    let failures = store.worktree_discovery_failures;
    let aliases = failed_aliases(failures, canonical);
    let pick = |row: FailureModel|
        if row.canonical_primary == Some(canonical) && row.primary != canonical {
            Some(row.primary)
        } else {
            None::<Seq<char>>
        };
    let list = picked(failures, pick);
    picked_are_of_rows(failures, pick);
    assert(!aliases.contains(canonical)) by {
        text_set_holds(list, canonical);
        if list.contains(canonical) {
            let k = choose|k: int| 0 <= k < list.len() && list[k] == canonical;
            let i = choose|i: int| 0 <= i < failures.len() && pick(#[trigger] failures[i]) == Some(list[k]);
            assert(failures[i].primary == canonical);
        }
    }
    lemma_aliases_left(store, aliases, canonical);
    let merged = failed_aliases_rekeyed(store, aliases, canonical);
    lemma_linked_aliases_keep_failures(merged, linked_aliases(merged.linked_worktrees, canonical), canonical);
    let rows = aliases_merged(store, canonical).worktree_discovery_failures;
    let keep = |row: FailureModel| !(row.primary == canonical && row.canonical_primary == Some(canonical));
    let after = with_worktrees(store, success).worktree_discovery_failures;
    assert(after == rows.filter(keep));
    assert forall|i: int| 0 <= i < after.len() implies (#[trigger] after[i]).canonical_primary != Some(canonical) by {
        rows.lemma_filter_pred(keep, i);
        rows.lemma_filter_contains_rev(keep, after[i]);
        let row = after[i];
        if row.canonical_primary == Some(canonical) {
            assert(is_failed_alias(row, canonical));
            assert(failures.contains(row) && !aliases.contains(row.primary));
            let k = choose|k: int| 0 <= k < failures.len() && failures[k] == row;
            assert(pick(failures[k]) == Some(row.primary));
            text_set_holds(list, row.primary);
        }
    }
}

proof fn lemma_failed_aliases_leave(store: StoreModel, aliases: Seq<Seq<char>>, canonical: Seq<char>)
    ensures
        crate::store::publication::same_discovery(failed_aliases_rekeyed(store, aliases, canonical), store),
        crate::store::keys::same_records(failed_aliases_rekeyed(store, aliases, canonical), store),
    decreases aliases.len(),
{
    if aliases.len() > 0 {
        lemma_failed_aliases_leave(store, aliases.drop_last(), canonical);
    }
}

proof fn lemma_linked_aliases_leave(store: StoreModel, aliases: Seq<Seq<char>>, canonical: Seq<char>)
    ensures
        crate::store::publication::same_discovery(linked_aliases_rekeyed(store, aliases, canonical), store),
        crate::store::keys::same_records(linked_aliases_rekeyed(store, aliases, canonical), store),
    decreases aliases.len(),
{
    if aliases.len() > 0 {
        lemma_linked_aliases_leave(store, aliases.drop_last(), canonical);
    }
}

/// What is known of worktrees does not touch what a discovery authorized.
pub proof fn worktrees_leave_discovery(store: StoreModel, success: SuccessModel)
    ensures
        crate::store::publication::same_discovery(with_worktrees(store, success), store),
{
    let canonical = success.primary;
    let aliases = failed_aliases(store.worktree_discovery_failures, canonical);
    let merged = failed_aliases_rekeyed(store, aliases, canonical);
    lemma_failed_aliases_leave(store, aliases, canonical);
    lemma_linked_aliases_leave(merged, linked_aliases(merged.linked_worktrees, canonical), canonical);
}

/// What is known of worktrees does not touch the numbered rows.
pub proof fn worktrees_leave_records(store: StoreModel, success: SuccessModel)
    ensures
        crate::store::keys::same_records(with_worktrees(store, success), store),
{
    let canonical = success.primary;
    let aliases = failed_aliases(store.worktree_discovery_failures, canonical);
    let merged = failed_aliases_rekeyed(store, aliases, canonical);
    lemma_failed_aliases_leave(store, aliases, canonical);
    lemma_linked_aliases_leave(merged, linked_aliases(merged.linked_worktrees, canonical), canonical);
}

/// Adding associations leaves those that were there, and one for each that was added.
pub proof fn lemma_links_added(rows: Seq<LinkedModel>, new: Seq<LinkedModel>)
    ensures
        rows.is_prefix_of(links_added(rows, new)),
        forall|k: int|
            0 <= k < new.len() ==> some_row(links_added(rows, new), |row: LinkedModel| same_link(row, #[trigger] new[k])),
        forall|j: int|
            rows.len() <= j < links_added(rows, new).len() ==> new.contains(#[trigger] links_added(rows, new)[j]),
    decreases new.len(),
{
    let all = links_added(rows, new);
    if new.len() > 0 {
        let shorter = new.drop_last();
        let last = new.last();
        let before = links_added(rows, shorter);
        lemma_links_added(rows, shorter);
        assert(before.is_prefix_of(all));
        assert(rows =~= all.take(rows.len() as int));
        assert forall|k: int| 0 <= k < new.len() implies some_row(
            all,
            |row: LinkedModel| same_link(row, #[trigger] new[k]),
        ) by {
            let p = |row: LinkedModel| same_link(row, new[k]);
            if k < shorter.len() {
                assert(shorter[k] == new[k]);
                let q = |row: LinkedModel| same_link(row, shorter[k]);
                assert(some_row(before, q));
                let j = choose|j: int| 0 <= j < before.len() && q(#[trigger] before[j]);
                assert(all[j] == before[j]);
                assert(p(all[j]));
            } else {
                let q = |row: LinkedModel| same_link(row, last);
                if some_row(before, q) {
                    let j = choose|j: int| 0 <= j < before.len() && q(#[trigger] before[j]);
                    assert(p(all[j]));
                } else {
                    assert(p(all[before.len() as int]));
                }
            }
        }
        assert forall|j: int| rows.len() <= j < all.len() implies new.contains(#[trigger] all[j]) by {
            if j < before.len() {
                assert(all[j] == before[j]);
                let k = choose|k: int| 0 <= k < shorter.len() && shorter[k] == before[j];
                assert(new[k] == before[j]);
            } else {
                assert(new[new.len() - 1] == all[j]);
            }
        }
    }
}

} // verus!
