//! The known projects.

use crate::order::{sort_and_deduplicate, sorted_distinct, sorted_views, text_rank, Ranked};
use crate::path::PathBuf;
use crate::store::rows::{Project, ProjectModel, ProjectRow};
use crate::store::table::{
    first_index_of, first_row, push_row, retain_rows, rows_view, update_rows, upsert_row, upserted,
};
use crate::store::{epoch_of, from_epoch, from_optional_epoch, path_to_string, time_of, to_epoch, Store, StoreError, StoreFault, StoreModel};
use crate::text::text_equal;
use crate::time::SystemTime;
use crate::store::keys::consistent;
use vstd::prelude::*;
use vstd::utf8::*;

verus! {

/// The lesser of two numbers.
pub open spec fn lesser(a: i64, b: i64) -> i64 {
    if a <= b {
        a
    } else {
        b
    }
}

/// The greater of two numbers.
pub open spec fn greater(a: i64, b: i64) -> i64 {
    if a >= b {
        a
    } else {
        b
    }
}

/// The greater of two numbers, of which either may be missing.
pub open spec fn greater_known(a: Option<i64>, b: Option<i64>) -> Option<i64> {
    match (a, b) {
        (None, x) => x,
        (x, None) => x,
        (Some(x), Some(y)) => Some(greater(x, y)),
    }
}

/// A project that has not been known before.
pub open spec fn new_project(path: Seq<char>, now: i64) -> ProjectModel {
    ProjectModel { path, discovered_at: now, last_seen_at: now, last_cleaned_at: None }
}

/// The projects after one has been seen: it is added, or its last sighting is set.
pub open spec fn project_seen(projects: Seq<ProjectModel>, path: Seq<char>, now: i64) -> Seq<ProjectModel> {
    upserted(
        projects,
        |row: ProjectModel| row.path == path,
        |row: ProjectModel| ProjectModel { last_seen_at: now, ..row },
        new_project(path, now),
    )
}

/// The projects after one has been observed: it is added, or its last sighting is
/// moved forward.
pub open spec fn project_observed(projects: Seq<ProjectModel>, path: Seq<char>, now: i64) -> Seq<ProjectModel> {
    upserted(
        projects,
        |row: ProjectModel| row.path == path,
        |row: ProjectModel| ProjectModel { last_seen_at: greater(row.last_seen_at, now), ..row },
        new_project(path, now),
    )
}

/// The projects other than one.
pub open spec fn without_project(projects: Seq<ProjectModel>, path: Seq<char>) -> Seq<ProjectModel> {
    projects.filter(|row: ProjectModel| row.path != path)
}

/// One project made of two that turn out to be the same.
pub open spec fn merged_project(row: ProjectModel, other: ProjectModel) -> ProjectModel {
    ProjectModel {
        path: row.path,
        discovered_at: lesser(row.discovered_at, other.discovered_at),
        last_seen_at: greater(row.last_seen_at, other.last_seen_at),
        last_cleaned_at: greater_known(row.last_cleaned_at, other.last_cleaned_at),
    }
}

/// The projects after one has been given another path, where it is merged with
/// the project that has that path already.
pub open spec fn project_renamed(projects: Seq<ProjectModel>, old_path: Seq<char>, new_path: Seq<char>) -> Seq<
    ProjectModel,
> {
    without_project(
        match first_row(projects, |row: ProjectModel| row.path == old_path) {
            Some(moved) => upserted(
                projects,
                |row: ProjectModel| row.path == new_path,
                |row: ProjectModel| merged_project(row, moved),
                ProjectModel { path: new_path, ..moved },
            ),
            None => projects,
        },
        old_path,
    )
}

/// Adds a project, or sets its last sighting.
pub(crate) fn see_project(projects: &mut Vec<ProjectRow>, path: &str, now: i64)
    ensures
        rows_view(final(projects)@) == project_seen(rows_view(old(projects)@), path@, now),
{
    let same = |row: &ProjectRow| -> (is: bool)
        ensures
            is == (row@.path == path@),
    {
        text_equal(row.path.as_str(), path)
    };
    let merge = |row: &ProjectRow| -> (merged: ProjectRow)
        ensures
            merged@ == (ProjectModel { last_seen_at: now, ..row@ }),
    {
        ProjectRow {
            path: row.path.clone(),
            discovered_at: row.discovered_at,
            last_seen_at: now,
            last_cleaned_at: row.last_cleaned_at,
        }
    };
    upsert_row(
        projects,
        same,
        merge,
        ProjectRow { path: path.to_owned(), discovered_at: now, last_seen_at: now, last_cleaned_at: None },
        Ghost(|row: ProjectModel| row.path == path@),
        Ghost(|row: ProjectModel| ProjectModel { last_seen_at: now, ..row }),
    );
}

/// Adds a project, or moves its last sighting forward.
pub(crate) fn observe_project(projects: &mut Vec<ProjectRow>, path: &str, now: i64)
    ensures
        rows_view(final(projects)@) == project_observed(rows_view(old(projects)@), path@, now),
{
    let same = |row: &ProjectRow| -> (is: bool)
        ensures
            is == (row@.path == path@),
    {
        text_equal(row.path.as_str(), path)
    };
    let merge = |row: &ProjectRow| -> (merged: ProjectRow)
        ensures
            merged@ == (ProjectModel { last_seen_at: greater(row@.last_seen_at, now), ..row@ }),
    {
        ProjectRow {
            path: row.path.clone(),
            discovered_at: row.discovered_at,
            last_seen_at: if row.last_seen_at >= now {
                row.last_seen_at
            } else {
                now
            },
            last_cleaned_at: row.last_cleaned_at,
        }
    };
    upsert_row(
        projects,
        same,
        merge,
        ProjectRow { path: path.to_owned(), discovered_at: now, last_seen_at: now, last_cleaned_at: None },
        Ghost(|row: ProjectModel| row.path == path@),
        Ghost(|row: ProjectModel| ProjectModel { last_seen_at: greater(row.last_seen_at, now), ..row }),
    );
}

/// Removes a project.
pub(crate) fn drop_project(projects: &mut Vec<ProjectRow>, path: &str)
    ensures
        rows_view(final(projects)@) == without_project(rows_view(old(projects)@), path@),
{
    let keep = |row: &ProjectRow| -> (is: bool)
        ensures
            is == (row@.path != path@),
    {
        !text_equal(row.path.as_str(), path)
    };
    retain_rows(projects, keep, Ghost(|row: ProjectModel| row.path != path@));
}

/// Gives a project another path.
pub(crate) fn rename_project(projects: &mut Vec<ProjectRow>, old_path: &str, new_path: &str)
    ensures
        rows_view(final(projects)@) == project_renamed(rows_view(old(projects)@), old_path@, new_path@),
{
    let is_old = |row: &ProjectRow| -> (is: bool)
        ensures
            is == (row@.path == old_path@),
    {
        text_equal(row.path.as_str(), old_path)
    };
    let found = first_index_of(projects, is_old, Ghost(|row: ProjectModel| row.path == old_path@));
    match found {
        Some(i) => {
            let moved = ProjectRow {
                path: new_path.to_owned(),
                discovered_at: projects[i].discovered_at,
                last_seen_at: projects[i].last_seen_at,
                last_cleaned_at: projects[i].last_cleaned_at,
            };
            let discovered_at: i64 = moved.discovered_at;
            let last_seen_at: i64 = moved.last_seen_at;
            let last_cleaned_at: Option<i64> = moved.last_cleaned_at;
            let ghost other = rows_view(projects@)[i as int];
            let same = |row: &ProjectRow| -> (is: bool)
                ensures
                    is == (row@.path == new_path@),
            {
                text_equal(row.path.as_str(), new_path)
            };
            let merge = |row: &ProjectRow| -> (merged: ProjectRow)
                ensures
                    merged@ == (ProjectModel {
                        path: row@.path,
                        discovered_at: lesser(row@.discovered_at, discovered_at),
                        last_seen_at: greater(row@.last_seen_at, last_seen_at),
                        last_cleaned_at: greater_known(row@.last_cleaned_at, last_cleaned_at),
                    }),
            {
                ProjectRow {
                    path: row.path.clone(),
                    discovered_at: if row.discovered_at <= discovered_at {
                        row.discovered_at
                    } else {
                        discovered_at
                    },
                    last_seen_at: if row.last_seen_at >= last_seen_at {
                        row.last_seen_at
                    } else {
                        last_seen_at
                    },
                    last_cleaned_at: match (row.last_cleaned_at, last_cleaned_at) {
                        (None, x) => x,
                        (x, None) => x,
                        (Some(x), Some(y)) => Some(if x >= y {
                            x
                        } else {
                            y
                        }),
                    },
                }
            };
            upsert_row(
                projects,
                same,
                merge,
                moved,
                Ghost(|row: ProjectModel| row.path == new_path@),
                Ghost(|row: ProjectModel| merged_project(row, other)),
            );
        },
        None => {},
    }
    drop_project(projects, old_path);
}

impl Ranked for ProjectRow {
    open spec fn rank(&self) -> Seq<i16> {
        text_rank(self.path@)
    }

    fn rank_key(&self) -> (key: Vec<i16>) {
        self.path.rank_key()
    }
}

/// Whether a project is the one that a row stands for.
pub open spec fn project_is(project: Project, row: ProjectModel) -> bool {
    &&& project.path@ == row.path
    &&& project.discovered_at@ == time_of(row.discovered_at)
    &&& project.last_seen_at@ == time_of(row.last_seen_at)
    &&& match row.last_cleaned_at {
        Some(secs) => project.last_cleaned_at matches Some(t) && t@ == time_of(secs),
        None => project.last_cleaned_at is None,
    }
}

/// The rows of all projects in the order of their paths.
pub open spec fn projects_by_path(projects: Seq<ProjectModel>) -> Seq<ProjectModel> {
    sorted_distinct(projects, |row: ProjectModel| text_rank(row.path))
}

impl Store {
    /// Adds a project, or sets its last sighting.
    pub fn upsert_project(&mut self, path: &PathBuf, now: SystemTime) -> (result: Result<(), StoreError>)
        ensures
            if !valid_utf8(path@) {
                result matches Err(StoreError::NotText(p)) && p@ == path@ && final(self)@ == old(self)@
            } else {
                match epoch_of(now@) {
                    None => result == Err::<(), StoreError>(StoreError::BeforeEpoch) && final(self)@ == old(self)@,
                    Some(secs) => result is Ok && final(self)@ == (StoreModel {
                        projects: project_seen(old(self)@.projects, decode_utf8(path@), secs),
                        ..old(self)@
                    }),
                }
            },
            consistent(old(self)@) ==> consistent(final(self)@),
    {
        let text = match path_to_string(path) {
            Ok(text) => text,
            Err(error) => return Err(error),
        };
        let secs: i64 = match to_epoch(now) {
            Ok(secs) => secs,
            Err(error) => return Err(error),
        };
        see_project(&mut self.projects, text.as_str(), secs);
        Ok(())
    }

    /// Removes a project.
    pub fn remove_project(&mut self, path: &PathBuf) -> (result: Result<(), StoreError>)
        ensures
            if valid_utf8(path@) {
                result is Ok && final(self)@ == (StoreModel {
                    projects: without_project(old(self)@.projects, decode_utf8(path@)),
                    ..old(self)@
                })
            } else {
                result matches Err(StoreError::NotText(p)) && p@ == path@ && final(self)@ == old(self)@
            },
            consistent(old(self)@) ==> consistent(final(self)@),
    {
        let text = match path_to_string(path) {
            Ok(text) => text,
            Err(error) => return Err(error),
        };
        drop_project(&mut self.projects, text.as_str());
        Ok(())
    }

    /// Gives a project another path, without touching what is known of worktrees.
    pub fn replace_cached_project_path(&mut self, old_path: &PathBuf, new_path: &PathBuf) -> (result: Result<
        (),
        StoreError,
    >)
        ensures
            if !valid_utf8(old_path@) {
                result matches Err(StoreError::NotText(p)) && p@ == old_path@ && final(self)@ == old(self)@
            } else if !valid_utf8(new_path@) {
                result matches Err(StoreError::NotText(p)) && p@ == new_path@ && final(self)@ == old(self)@
            } else {
                result is Ok && final(self)@ == (StoreModel {
                    projects: if decode_utf8(old_path@) == decode_utf8(new_path@) {
                        old(self)@.projects
                    } else {
                        project_renamed(old(self)@.projects, decode_utf8(old_path@), decode_utf8(new_path@))
                    },
                    ..old(self)@
                })
            },
            consistent(old(self)@) ==> consistent(final(self)@),
    {
        let old_text = match path_to_string(old_path) {
            Ok(text) => text,
            Err(error) => return Err(error),
        };
        let new_text = match path_to_string(new_path) {
            Ok(text) => text,
            Err(error) => return Err(error),
        };
        if old_text == new_text {
            return Ok(());
        }
        rename_project(&mut self.projects, old_text.as_str(), new_text.as_str());
        Ok(())
    }

    /// Records when a project was cleaned last.
    pub fn mark_project_cleaned(&mut self, path: &PathBuf, when: SystemTime) -> (result: Result<(), StoreError>)
        ensures
            match project_marked(old(self)@, path@, when@) {
                Ok(store) => result is Ok && final(self)@ == store,
                Err(fault) => result matches Err(error) && error@ == fault && final(self)@ == old(self)@,
            },
            consistent(old(self)@) ==> consistent(final(self)@),
    {
        let secs: i64 = match to_epoch(when) {
            Ok(secs) => secs,
            Err(error) => return Err(error),
        };
        let text = match path_to_string(path) {
            Ok(text) => text,
            Err(error) => return Err(error),
        };
        let change = |row: &ProjectRow| -> (changed: Option<ProjectRow>)
            ensures
                match changed {
                    Some(new) => row@.path == text@ && new@ == (ProjectModel { last_cleaned_at: Some(secs), ..row@ }),
                    None => row@.path != text@,
                },
        {
            if text_equal(row.path.as_str(), text.as_str()) {
                Some(
                    ProjectRow {
                        path: row.path.clone(),
                        discovered_at: row.discovered_at,
                        last_seen_at: row.last_seen_at,
                        last_cleaned_at: Some(secs),
                    },
                )
            } else {
                None
            }
        };
        update_rows(
            &mut self.projects,
            change,
            Ghost(
                |row: ProjectModel|
                    if row.path == text@ {
                        ProjectModel { last_cleaned_at: Some(secs), ..row }
                    } else {
                        row
                    },
            ),
        );
        Ok(())
    }

    /// All projects in the order of their paths.
    pub fn all_projects(&self) -> (projects: Vec<Project>)
        ensures
            projects@.len() == projects_by_path(self@.projects).len(),
            forall|i: int|
                0 <= i < projects@.len() ==> project_is(
                    #[trigger] projects@[i],
                    projects_by_path(self@.projects)[i],
                ),
    {
        let mut rows: Vec<ProjectRow> = Vec::new();
        let mut i: usize = 0;
        while i < self.projects.len()
            invariant
                i <= self.projects.len(),
                rows_view(rows@) == rows_view(self.projects@).take(i as int),
            decreases self.projects.len() - i,
        {
            let row = &self.projects[i];
            let ghost before = rows_view(rows@);
            push_row(
                &mut rows,
                ProjectRow {
                    path: row.path.clone(),
                    discovered_at: row.discovered_at,
                    last_seen_at: row.last_seen_at,
                    last_cleaned_at: row.last_cleaned_at,
                },
            );
            i += 1;
            assert(rows_view(self.projects@).take(i as int) =~= rows_view(self.projects@).take(i - 1).push(
                rows_view(self.projects@)[i - 1],
            ));
        }
        assert(rows_view(self.projects@).take(i as int) =~= rows_view(self.projects@));
        let ghost unsorted = rows@;
        sort_and_deduplicate(&mut rows);
        proof {
            let view = |row: ProjectRow| row@;
            let rank = |row: ProjectModel| text_rank(row.path);
            sorted_views(unsorted, rows@, view, rank);
            assert(rows@.map_values(view) == projects_by_path(self@.projects));
        }
        let ghost sorted = projects_by_path(self@.projects);
        let mut projects: Vec<Project> = Vec::new();
        let mut j: usize = 0;
        while j < rows.len()
            invariant
                j <= rows.len(),
                projects@.len() == j,
                rows_view(rows@) == sorted,
                forall|k: int| 0 <= k < j ==> project_is(#[trigger] projects@[k], sorted[k]),
            decreases rows.len() - j,
        {
            let row = &rows[j];
            assert(sorted[j as int] == row@);
            projects.push(
                Project {
                    path: row.path.clone(),
                    discovered_at: from_epoch(row.discovered_at),
                    last_seen_at: from_epoch(row.last_seen_at),
                    last_cleaned_at: from_optional_epoch(row.last_cleaned_at),
                },
            );
            j += 1;
        }
        projects
    }

    /// How many projects are known.
    pub fn project_count(&self) -> (count: usize)
        ensures
            count == self@.projects.len(),
    {
        self.projects.len()
    }
}

/// The store after a project has been cleaned.
pub open spec fn project_marked(store: StoreModel, path: Seq<u8>, when: int) -> Result<StoreModel, StoreFault> {
    match epoch_of(when) {
        None => Err(StoreFault::BeforeEpoch),
        Some(secs) => if valid_utf8(path) {
            Ok(StoreModel { projects: project_cleaned(store.projects, decode_utf8(path), secs), ..store })
        } else {
            Err(StoreFault::NotText(path))
        },
    }
}

/// The projects after one has been cleaned.
pub open spec fn project_cleaned(projects: Seq<ProjectModel>, path: Seq<char>, when: i64) -> Seq<ProjectModel> {
    projects.map_values(
        |row: ProjectModel|
            if row.path == path {
                ProjectModel { last_cleaned_at: Some(when), ..row }
            } else {
                row
            },
    )
}

} // verus!
