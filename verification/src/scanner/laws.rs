//! What a scan visits, what it leaves out, and what it makes of what it finds.

use crate::path::{path_components, path_join, path_starts_with, same_path};
use crate::policy::{lexically_excluded, occurs_at, wanted_components};
use crate::resolve::{physical_path, Finding, Resolved};
use crate::scanner::exclusion::{
    any_ignores, covered, exclusion_covers, exclusion_of, exclusion_views, exclusions_of, file_ignores, gitignore_ignores,
    scan_patterns, written_below, ExclusionMatchers, IgnoreView,
};
use crate::scanner::linked::{
    linked_findings, project_findings, worktree_sorted, worktrees_sorted, ProjectFacts, WorktreeScope,
};
use crate::scanner::origin::{first_unread, origin_fault};
use crate::scanner::porcelain::{
    after, failure_text, fed, fed_all, field_added, without_primary, worktrees_of, GitWorktreeError, ParseState, RecordModel,
};
use crate::scanner::walk::{
    entry_task, existing_paths, first_tasks, ignores_below, listed_entries, scan_stepped, DirectoryEntry, ListedView, ProgressView,
    ScanStepView, TaskFacts, TaskView,
};
use crate::scanner::{DiscoveryView, ScanErrorKind, ScanErrorView};
use crate::text::{split_on, texts, trimmed};
use vstd::prelude::*;
use vstd::utf8::*;

verus! {

// -------------------------------------------------------------- ignore files

/// A path that is a directory followed by a separator and a name lies below it, as far
/// as the ignore file of that directory is concerned.
pub proof fn names_in_a_directory_are_below_it(root: Seq<char>, rest: Seq<char>)
    requires
        root.len() > 0,
        root[0] == '/',
        root.last() != '/',
        rest.len() > 0,
        rest[0] != '/',
    ensures
        written_below(root, root.push('/') + rest),
{
    let path = root.push('/') + rest;
    assert(root =~= path.subrange(0, root.len() as int));
    assert(path[root.len() as int] == '/');
    assert(path[root.len() as int + 1] == rest[0]);
}

/// The top task is a directory of which everything is known that lets it be descended
/// into.
pub open spec fn descends(
    matchers: &ExclusionMatchers,
    progress: ProgressView,
    facts: TaskFacts,
    path: Seq<u8>,
    above: Seq<IgnoreView>,
) -> bool {
    &&& progress.tasks.len() > 0
    &&& progress.tasks.last() == TaskView::Directory(path, above)
    &&& facts.directory.metadata == Some(Ok::<bool, String>(true))
    &&& !covered(exclusion_views(matchers.exclusions@), path)
    &&& if valid_utf8(path) {
        !any_ignores(above, decode_utf8(path))
    } else {
        facts.directory.ignored == Some(false)
    }
    &&& facts.directory.manifest == Some(false)
    &&& facts.directory.ignore_lines is Some
    &&& facts.directory.entries matches Some(Ok(_))
}

proof fn lemma_listed(directory: Seq<u8>, entries: Seq<DirectoryEntry>, k: int)
    requires
        0 <= k < entries.len(),
    ensures
        match entries[k] {
            DirectoryEntry::Directory(child) => listed_entries(directory, entries).contains(
                ListedView::Directory(child@),
            ),
            DirectoryEntry::Unreadable(message) => listed_entries(directory, entries).contains(
                ListedView::Problem(ScanErrorView { path: directory, message: message@, kind: ScanErrorKind::Scan }),
            ),
            DirectoryEntry::Untyped(path, message) => listed_entries(directory, entries).contains(
                ListedView::Problem(ScanErrorView { path: path@, message: message@, kind: ScanErrorKind::Scan }),
            ),
            DirectoryEntry::Other => true,
        },
    decreases entries.len(),
{
    let all = listed_entries(directory, entries);
    let before = listed_entries(directory, entries.drop_last());
    if k < entries.len() - 1 {
        assert(entries.drop_last()[k] == entries[k]);
        lemma_listed(directory, entries.drop_last(), k);
        let wanted = match entries[k] {
            DirectoryEntry::Directory(child) => ListedView::Directory(child@),
            DirectoryEntry::Unreadable(message) => ListedView::Problem(
                ScanErrorView { path: directory, message: message@, kind: ScanErrorKind::Scan },
            ),
            DirectoryEntry::Untyped(path, message) => ListedView::Problem(
                ScanErrorView { path: path@, message: message@, kind: ScanErrorKind::Scan },
            ),
            DirectoryEntry::Other => ListedView::Directory(directory),
        };
        if !(entries[k] is Other) {
            let j = choose|j: int| 0 <= j < before.len() && before[j] == wanted;
            assert(all[j] == wanted);
        }
    } else if !(entries[k] is Other) {
        assert(all[before.len() as int] == all.last());
    }
}

proof fn lemma_listed_from(directory: Seq<u8>, entries: Seq<DirectoryEntry>, j: int)
    requires
        0 <= j < listed_entries(directory, entries).len(),
    ensures
        listed_entries(directory, entries)[j] matches ListedView::Directory(path) ==> exists|k: int|
            0 <= k < entries.len() && (#[trigger] entries[k] matches DirectoryEntry::Directory(child) && child@ == path),
    decreases entries.len(),
{
    let before = listed_entries(directory, entries.drop_last());
    if j < before.len() {
        lemma_listed_from(directory, entries.drop_last(), j);
        if let ListedView::Directory(path) = before[j] {
            let front = entries.drop_last();
            let k = choose|k: int|
                0 <= k < front.len() && (#[trigger] front[k] matches DirectoryEntry::Directory(child) && child@ == path);
            assert(entries[k] == front[k]);
        }
    } else {
        assert(entries[entries.len() - 1] == entries.last());
    }
}

/// Descending into a directory leaves the other tasks as they were and puts one task
/// for each of its directories on top of them, and for each entry that could not be
/// read one that records it. If the directory has an ignore file, every one of those
/// directories carries it, rooted at the directory and with exactly its lines, behind
/// all that held above.
pub proof fn entries_carry_the_ignore_file(
    matchers: &ExclusionMatchers,
    progress: ProgressView,
    facts: TaskFacts,
    path: Seq<u8>,
    above: Seq<IgnoreView>,
)
    requires
        descends(matchers, progress, facts, path, above),
    ensures
        ({
            let (after, step) = scan_stepped(matchers, progress, facts);
            let h = progress.tasks.len() - 1;
            let entries = facts.directory.entries->0->Ok_0@;
            &&& step == ScanStepView::TaskDone
            &&& after.found == progress.found && after.errors == progress.errors && after.discoveries
                == progress.discoveries
            &&& after.tasks.len() >= h
            &&& forall|i: int| 0 <= i < h ==> after.tasks[i] == progress.tasks[i]
            &&& forall|i: int|
                h <= i < after.tasks.len() ==> match #[trigger] after.tasks[i] {
                    TaskView::Directory(child, ignores) => {
                        &&& exists|k: int|
                            0 <= k < entries.len() && (#[trigger] entries[k] matches DirectoryEntry::Directory(c) && c@
                                == child)
                        &&& valid_utf8(path) ==> (facts.directory.ignore_lines->0 matches Some(own) ==> ignores
                            == above.push(IgnoreView { root: decode_utf8(path), lines: texts(own@) }))
                        &&& facts.directory.ignore_lines->0 is None ==> ignores == above
                    },
                    TaskView::Problem(_) => true,
                    _ => false,
                }
            &&& forall|k: int|
                0 <= k < entries.len() ==> match #[trigger] entries[k] {
                    DirectoryEntry::Directory(child) => exists|i: int|
                        h <= i < after.tasks.len() && (#[trigger] after.tasks[i] matches TaskView::Directory(c, _) && c
                            == child@),
                    DirectoryEntry::Unreadable(message) => exists|i: int|
                        h <= i < after.tasks.len() && #[trigger] after.tasks[i] == TaskView::Problem(
                            ScanErrorView { path, message: message@, kind: ScanErrorKind::Scan },
                        ),
                    DirectoryEntry::Untyped(place, message) => exists|i: int|
                        h <= i < after.tasks.len() && #[trigger] after.tasks[i] == TaskView::Problem(
                            ScanErrorView { path: place@, message: message@, kind: ScanErrorKind::Scan },
                        ),
                    DirectoryEntry::Other => true,
                }
        }),
{
    let (after, step) = scan_stepped(matchers, progress, facts);
    let h = progress.tasks.len() - 1;
    let entries = facts.directory.entries->0->Ok_0@;
    let listed = listed_entries(path, entries);
    let n = listed.len() as int;
    assert(after.tasks.len() == h + n);
    assert forall|i: int| h <= i < after.tasks.len() implies match #[trigger] after.tasks[i] {
        TaskView::Directory(child, ignores) => {
            &&& exists|k: int|
                0 <= k < entries.len() && (#[trigger] entries[k] matches DirectoryEntry::Directory(c) && c@ == child)
            &&& valid_utf8(path) ==> (facts.directory.ignore_lines->0 matches Some(own) ==> ignores == above.push(
                IgnoreView { root: decode_utf8(path), lines: texts(own@) },
            ))
            &&& facts.directory.ignore_lines->0 is None ==> ignores == above
        },
        TaskView::Problem(_) => true,
        _ => false,
    } by {
        let j = n - 1 - (i - h);
        assert(listed.reverse()[i - h] == listed[j]);
        lemma_listed_from(path, entries, j);
    }
    assert forall|k: int| 0 <= k < entries.len() implies match #[trigger] entries[k] {
        DirectoryEntry::Directory(child) => exists|i: int|
            h <= i < after.tasks.len() && (#[trigger] after.tasks[i] matches TaskView::Directory(c, _) && c == child@),
        DirectoryEntry::Unreadable(message) => exists|i: int|
            h <= i < after.tasks.len() && #[trigger] after.tasks[i] == TaskView::Problem(
                ScanErrorView { path, message: message@, kind: ScanErrorKind::Scan },
            ),
        DirectoryEntry::Untyped(place, message) => exists|i: int|
            h <= i < after.tasks.len() && #[trigger] after.tasks[i] == TaskView::Problem(
                ScanErrorView { path: place@, message: message@, kind: ScanErrorKind::Scan },
            ),
        DirectoryEntry::Other => true,
    } by {
        lemma_listed(path, entries, k);
        let wanted = match entries[k] {
            DirectoryEntry::Directory(child) => ListedView::Directory(child@),
            DirectoryEntry::Unreadable(message) => ListedView::Problem(
                ScanErrorView { path, message: message@, kind: ScanErrorKind::Scan },
            ),
            DirectoryEntry::Untyped(place, message) => ListedView::Problem(
                ScanErrorView { path: place@, message: message@, kind: ScanErrorKind::Scan },
            ),
            DirectoryEntry::Other => ListedView::Directory(path),
        };
        if !(entries[k] is Other) {
            let j = choose|j: int| 0 <= j < listed.len() && listed[j] == wanted;
            let i = h + (n - 1 - j);
            assert(listed.reverse()[n - 1 - j] == listed[j]);
            let below = ignores_below(path, above, facts.directory.ignore_lines);
            assert(after.tasks[i] == entry_task(wanted, below));
        }
    }
}

/// Whether every task from a height on is below a directory with this ignore file: the
/// directories carry it, and no project among them is one that it ignores.
pub open spec fn heeds(progress: ProgressView, height: int, file: IgnoreView) -> bool {
    forall|i: int|
        height <= i < progress.tasks.len() ==> match #[trigger] progress.tasks[i] {
            TaskView::Directory(_, ignores) => ignores.contains(file),
            TaskView::Project(path) => valid_utf8(path) && written_below(file.root, decode_utf8(path))
                ==> !gitignore_ignores(file.root, file.lines, decode_utf8(path), true),
            TaskView::Problem(_) => true,
            TaskView::Named(_) => false,
        }
}

/// As long as a scan is still below a directory, its tasks there go on to heed the
/// directory's ignore file.
pub proof fn steps_heed_the_ignore_files_above(
    matchers: &ExclusionMatchers,
    progress: ProgressView,
    facts: TaskFacts,
    height: int,
    file: IgnoreView,
)
    requires
        0 <= height < progress.tasks.len(),
        heeds(progress, height, file),
    ensures
        heeds(scan_stepped(matchers, progress, facts).0, height, file),
        forall|i: int|
            0 <= i < height ==> scan_stepped(matchers, progress, facts).0.tasks[i] == #[trigger] progress.tasks[i],
{
    let after = scan_stepped(matchers, progress, facts).0;
    let top = progress.tasks.len() - 1;
    assert(progress.tasks[top] == progress.tasks.last());
    match progress.tasks.last() {
        TaskView::Directory(path, ignores) => {
            assert(ignores.contains(file));
            let at = choose|k: int| 0 <= k < ignores.len() && ignores[k] == file;
            if valid_utf8(path) && written_below(file.root, decode_utf8(path)) && gitignore_ignores(
                file.root,
                file.lines,
                decode_utf8(path),
                true,
            ) {
                assert(file_ignores(ignores[at], decode_utf8(path)));
                assert(any_ignores(ignores, decode_utf8(path)));
            }
            assert forall|i: int| height <= i < after.tasks.len() implies match #[trigger] after.tasks[i] {
                TaskView::Directory(_, more) => more.contains(file),
                TaskView::Project(p) => valid_utf8(p) && written_below(file.root, decode_utf8(p))
                    ==> !gitignore_ignores(file.root, file.lines, decode_utf8(p), true),
                TaskView::Problem(_) => true,
                TaskView::Named(_) => false,
            } by {
                if i < top {
                    assert(after.tasks[i] == progress.tasks[i]);
                } else if let TaskView::Directory(_, more) = after.tasks[i] {
                    assert(more[at] == file);
                }
            }
        },
        _ => {
            assert forall|i: int| height <= i < after.tasks.len() implies after.tasks[i] == #[trigger] progress.tasks[i] by {}
        },
    }
}

/// Whether each progress is what a step makes of the one before it.
pub open spec fn is_scan(matchers: &ExclusionMatchers, states: Seq<ProgressView>, facts: Seq<TaskFacts>) -> bool {
    &&& states.len() == facts.len() + 1
    &&& forall|i: int|
        0 <= i < facts.len() ==> states[i + 1] == scan_stepped(matchers, #[trigger] states[i], facts[i]).0
}

/// From the moment a scan descends into a directory with an ignore file until it has
/// left it again, no directory is taken for a project at a path that the lines of that
/// file match.
pub proof fn scans_find_nothing_that_is_ignored(
    matchers: &ExclusionMatchers,
    states: Seq<ProgressView>,
    facts: Seq<TaskFacts>,
    i: int,
    j: int,
    path: Seq<u8>,
    above: Seq<IgnoreView>,
    own: Vec<String>,
)
    requires
        is_scan(matchers, states, facts),
        0 <= i < j < states.len(),
        descends(matchers, states[i], facts[i], path, above),
        valid_utf8(path),
        facts[i].directory.ignore_lines == Some(Some(own)),
        forall|k: int| i < k < j ==> (#[trigger] states[k]).tasks.len() >= states[i].tasks.len(),
    ensures
        heeds(
            states[j],
            states[i].tasks.len() - 1,
            (IgnoreView { root: decode_utf8(path), lines: texts(own@) }),
        ),
    decreases j - i,
{
    let file = IgnoreView { root: decode_utf8(path), lines: texts(own@) };
    let height = states[i].tasks.len() - 1;
    if j == i + 1 {
        entries_carry_the_ignore_file(matchers, states[i], facts[i], path, above);
        let after = states[j];
        assert(after == scan_stepped(matchers, states[i], facts[i]).0);
        assert forall|k: int| height <= k < after.tasks.len() implies match #[trigger] after.tasks[k] {
            TaskView::Directory(_, more) => more.contains(file),
            TaskView::Project(p) => valid_utf8(p) && written_below(file.root, decode_utf8(p)) ==> !gitignore_ignores(
                file.root,
                file.lines,
                decode_utf8(p),
                true,
            ),
            TaskView::Problem(_) => true,
            TaskView::Named(_) => false,
        } by {
            if let TaskView::Directory(_, more) = after.tasks[k] {
                assert(more[above.len() as int] == file);
            }
        }
    } else {
        scans_find_nothing_that_is_ignored(matchers, states, facts, i, j - 1, path, above, own);
        assert(states[j - 1].tasks.len() >= states[i].tasks.len());
        steps_heed_the_ignore_files_above(matchers, states[j - 1], facts[j - 1], height, file);
        assert(states[j - 1 + 1] == scan_stepped(matchers, states[j - 1], facts[j - 1]).0);
    }
}

// ------------------------------------------------------------------- visiting

/// A directory that is excluded, ignored or no directory is passed over: nothing is
/// found, recorded or visited because of it.
pub proof fn left_out_directories_leave_no_trace(
    matchers: &ExclusionMatchers,
    progress: ProgressView,
    facts: TaskFacts,
    path: Seq<u8>,
    above: Seq<IgnoreView>,
    i: int,
)
    requires
        progress.tasks.len() > 0,
        progress.tasks.last() == TaskView::Directory(path, above),
        facts.directory.metadata matches Some(Ok(is_directory)) && (!is_directory || covered(
            exclusion_views(matchers.exclusions@),
            path,
        ) || (valid_utf8(path) && 0 <= i < above.len() && written_below(above[i].root, decode_utf8(path))
            && gitignore_ignores(above[i].root, above[i].lines, decode_utf8(path), true))),
    ensures
        scan_stepped(matchers, progress, facts) == (
            ProgressView { tasks: progress.tasks.drop_last(), ..progress },
            ScanStepView::TaskDone,
        ),
{
    if valid_utf8(path) && 0 <= i < above.len() && written_below(above[i].root, decode_utf8(path)) && gitignore_ignores(
        above[i].root,
        above[i].lines,
        decode_utf8(path),
        true,
    ) {
        assert(file_ignores(above[i], decode_utf8(path)));
        assert(any_ignores(above, decode_utf8(path)));
    }
}

/// A directory that is not left out and holds a manifest is a project and is not
/// descended into; one that cannot be read is recorded with its path and message.
pub proof fn manifests_end_the_descent(
    matchers: &ExclusionMatchers,
    progress: ProgressView,
    facts: TaskFacts,
    path: Seq<u8>,
    above: Seq<IgnoreView>,
)
    requires
        progress.tasks.len() > 0,
        progress.tasks.last() == TaskView::Directory(path, above),
    ensures
        facts.directory.metadata == Some(Ok::<bool, String>(true)) && !covered(exclusion_views(matchers.exclusions@), path)
            && valid_utf8(path) && !any_ignores(above, decode_utf8(path)) && facts.directory.manifest == Some(true)
            ==> scan_stepped(matchers, progress, facts).0 == (ProgressView {
            tasks: progress.tasks.drop_last().push(TaskView::Project(path)),
            ..progress
        }),
        facts.directory.metadata matches Some(Err(message)) ==> scan_stepped(matchers, progress, facts).0 == (ProgressView {
            tasks: progress.tasks.drop_last(),
            errors: progress.errors.push(ScanErrorView { path, message: message@, kind: ScanErrorKind::Scan }),
            ..progress
        }),
        facts.directory.metadata is None ==> scan_stepped(matchers, progress, facts).0 == progress,
{
}

/// No step forgets what was found, recorded or discovered before it.
pub proof fn steps_only_add(matchers: &ExclusionMatchers, progress: ProgressView, facts: TaskFacts)
    ensures
        progress.found.is_prefix_of(scan_stepped(matchers, progress, facts).0.found),
        progress.errors.is_prefix_of(scan_stepped(matchers, progress, facts).0.errors),
        progress.discoveries.is_prefix_of(scan_stepped(matchers, progress, facts).0.discoveries),
        scan_stepped(matchers, progress, facts).0.roots == progress.roots,
        scan_stepped(matchers, progress, facts).1 == ScanStepView::Finished <==> progress.tasks.len() == 0,
{
    let after = scan_stepped(matchers, progress, facts).0;
    assert(progress.found =~= after.found.subrange(0, progress.found.len() as int));
    assert(progress.errors =~= after.errors.subrange(0, progress.errors.len() as int));
    assert(progress.discoveries =~= after.discoveries.subrange(0, progress.discoveries.len() as int));
}

/// A scan starts with every root, by its physical path where it has one and with no
/// ignore file, before every project that is named itself.
pub proof fn scans_start_with_every_root(known: Map<Seq<u8>, Resolved>, roots: Seq<Seq<u8>>, projects: Seq<Seq<u8>>)
    ensures
        first_tasks(known, roots, projects).len() == roots.len() + projects.len(),
        forall|i: int|
            0 <= i < roots.len() ==> first_tasks(known, roots, projects)[first_tasks(known, roots, projects).len() - 1 - i]
                == TaskView::Directory(
                match physical_path(known, #[trigger] roots[i]) {
                    Finding::Known(Some(physical)) => physical,
                    _ => roots[i],
                },
                Seq::empty(),
            ),
        forall|i: int|
            0 <= i < projects.len() ==> first_tasks(known, roots, projects)[projects.len() - 1 - i] == TaskView::Named(
                #[trigger] projects[i],
            ),
{
    let tasks = first_tasks(known, roots, projects);
    assert forall|i: int| 0 <= i < roots.len() implies tasks[tasks.len() - 1 - i] == TaskView::Directory(
        match physical_path(known, #[trigger] roots[i]) {
            Finding::Known(Some(physical)) => physical,
            _ => roots[i],
        },
        Seq::empty(),
    ) by {
        assert(roots.reverse()[roots.len() - 1 - i] == roots[i]);
    }
    assert forall|i: int| 0 <= i < projects.len() implies tasks[projects.len() - 1 - i] == TaskView::Named(
        #[trigger] projects[i],
    ) by {
        assert(projects.reverse()[projects.len() - 1 - i] == projects[i]);
    }
}

// ------------------------------------------------------------------- projects

/// A directory whose physical path is text, not excluded and holds a manifest is found
/// by that path, whatever becomes of its worktrees; where its repository cannot be
/// asked, that is recorded as a failure of it with what was said. Without a manifest, or
/// excluded, nothing is found.
pub proof fn projects_are_found_by_their_physical_path(
    matchers: &ExclusionMatchers,
    roots: Seq<crate::path::PathBuf>,
    project: Seq<u8>,
    facts: ProjectFacts,
)
    requires
        facts.physical matches Some(Ok(_)),
        project_findings(matchers, roots, project, true, facts) is Ok,
        valid_utf8(facts.physical->0->Ok_0@),
    ensures
        ({
            let physical = facts.physical->0->Ok_0@;
            let findings = project_findings(matchers, roots, project, true, facts)->Ok_0;
            &&& covered(exclusion_views(matchers.exclusions@), physical) || facts.manifest == Some(false)
                ==> findings.projects.len() == 0 && findings.errors.len() == 0 && findings.discoveries.len() == 0
            &&& !covered(exclusion_views(matchers.exclusions@), physical) && facts.manifest == Some(true)
                ==> findings.projects.len() > 0 && findings.projects[0] == physical
            &&& !covered(exclusion_views(matchers.exclusions@), physical) && facts.manifest == Some(true) && facts.repository
                == Some(true) ==> findings.discoveries.len() == 1
            &&& !covered(exclusion_views(matchers.exclusions@), physical) && facts.manifest == Some(true) && facts.repository
                == Some(true) ==> (facts.worktrees matches Some(Err(error)) ==> findings.projects == seq![physical]
                && findings.discoveries[0] == (DiscoveryView::Failure { primary: physical, message: error.text() })
                && findings.errors == seq![
                ScanErrorView { path: physical, message: error.text(), kind: ScanErrorKind::WorktreeDiscovery },
            ])
        }),
{
}

/// A project adds all that it gave to what has been found, recorded and discovered.
pub proof fn findings_are_added(matchers: &ExclusionMatchers, progress: ProgressView, facts: TaskFacts, path: Seq<u8>)
    requires
        progress.tasks.len() > 0,
        progress.tasks.last() == TaskView::Project(path) || (progress.tasks.last() == TaskView::Named(path)
            && facts.named_manifest == Some(true)),
    ensures
        project_findings(matchers, progress.roots, path, true, facts.project) matches Ok(findings) ==> {
            let after = scan_stepped(matchers, progress, facts).0;
            &&& after.tasks == progress.tasks.drop_last()
            &&& after.found == progress.found + findings.projects
            &&& after.errors == progress.errors + findings.errors
            &&& after.discoveries == progress.discoveries + findings.discoveries
        },
        project_findings(matchers, progress.roots, path, true, facts.project) is Err ==> scan_stepped(
            matchers,
            progress,
            facts,
        ).0 == progress,
{
}

/// A project with a repository is found together with every worktree of it that belongs
/// to the scan.
pub proof fn worktrees_are_found_with_their_project(
    matchers: &ExclusionMatchers,
    roots: Seq<crate::path::PathBuf>,
    project: Seq<u8>,
    facts: ProjectFacts,
    candidates: Vec<crate::path::PathBuf>,
    i: int,
    physical: Seq<u8>,
)
    requires
        facts.physical matches Some(Ok(p)) && valid_utf8(p@) && !covered(exclusion_views(matchers.exclusions@), p@),
        facts.manifest == Some(true),
        facts.repository == Some(true),
        facts.worktrees == Some(Ok::<Vec<crate::path::PathBuf>, GitWorktreeError>(candidates)),
        forall|k: int| 0 <= k < candidates@.len() ==> valid_utf8((#[trigger] candidates@[k])@),
        project_findings(matchers, roots, project, true, facts) matches Ok(findings) && findings.errors.len() == 0,
        0 <= i < candidates@.len(),
        valid_utf8(physical),
        belongs(
            (WorktreeScope {
                primary: facts.physical->0->Ok_0@,
                roots,
                matchers,
                known: facts.known@,
                manifests: facts.manifests@,
            }),
            candidates@[i]@,
            physical,
        ),
    ensures
        project_findings(matchers, roots, project, true, facts)->Ok_0.projects.contains(physical),
        project_findings(matchers, roots, project, true, facts)->Ok_0.projects[0] == facts.physical->0->Ok_0@,
{
    let scope = WorktreeScope {
        primary: facts.physical->0->Ok_0@,
        roots,
        matchers,
        known: facts.known@,
        manifests: facts.manifests@,
    };
    let paths = crate::path::path_views(candidates@);
    let findings = project_findings(matchers, roots, project, true, facts)->Ok_0;
    let more = linked_findings(scope, paths)->Ok_0;
    assert(findings.errors == more.errors);
    assert(worktrees_sorted(scope, paths).state is Running);
    assert(paths[i] == candidates@[i]@);
    worktrees_of_a_scan(scope, paths);
    assert(belongs(scope, paths[i], physical));
    let k = choose|k: int| 0 <= k < more.projects.len() && more.projects[k] == physical;
    assert(findings.projects[k + 1] == physical);
}

/// A directory without a physical path, or with one that is no text, gives no project
/// and is recorded.
pub proof fn unreadable_projects_are_recorded(
    matchers: &ExclusionMatchers,
    roots: Seq<crate::path::PathBuf>,
    project: Seq<u8>,
    facts: ProjectFacts,
)
    requires
        project_findings(matchers, roots, project, true, facts) is Ok,
        facts.physical matches Some(Ok(physical)) ==> !valid_utf8(physical@),
    ensures
        project_findings(matchers, roots, project, true, facts)->Ok_0.projects.len() == 0,
        project_findings(matchers, roots, project, true, facts)->Ok_0.errors.len() == 1,
        facts.physical matches Some(Err(message)) ==> project_findings(matchers, roots, project, true, facts)->Ok_0.errors[0]
            == (ScanErrorView { path: project, message: message@, kind: ScanErrorKind::Scan }),
        facts.physical matches Some(Ok(physical)) ==> project_findings(matchers, roots, project, true, facts)->Ok_0.errors[0].path
            == physical@,
{
}

/// Whether a worktree belongs to a scan: it exists, is not the primary checkout, lies
/// below a root, is not excluded and holds a manifest.
pub open spec fn belongs(scope: WorktreeScope<'_>, candidate: Seq<u8>, physical: Seq<u8>) -> bool {
    &&& physical_path(scope.known, candidate) == Finding::<Option<Seq<u8>>>::Known(Some(physical))
    &&& !same_path(physical, scope.primary)
    &&& exists|r: int| 0 <= r < scope.roots.len() && path_starts_with(physical, (#[trigger] scope.roots[r])@)
    &&& !covered(exclusion_views(scope.matchers.exclusions@), physical)
    &&& scope.manifests.dom().contains(physical) && scope.manifests[physical]
}

proof fn lemma_sorted_in(scope: WorktreeScope<'_>, candidates: Seq<Seq<u8>>, i: int)
    requires
        0 <= i < candidates.len(),
        worktrees_sorted(scope, candidates).state is Running,
    ensures
        forall|physical: Seq<u8>| #[trigger]
            belongs(scope, candidates[i], physical) && valid_utf8(physical) ==> worktrees_sorted(
                scope,
                candidates,
            ).linked.contains(physical),
        physical_path(scope.known, candidates[i]) matches Finding::Known(Some(physical)) && valid_utf8(physical)
            && !same_path(physical, scope.primary) && (forall|r: int|
            0 <= r < scope.roots.len() ==> !path_starts_with(physical, (#[trigger] scope.roots[r])@)) ==> worktrees_sorted(
            scope,
            candidates,
        ).out_of_scope.contains(physical_path(scope.known, candidates[i])->Known_0->0),
    decreases candidates.len(),
{
    let front = candidates.drop_last();
    let before = worktrees_sorted(scope, front);
    let all = worktrees_sorted(scope, candidates);
    assert(all == worktree_sorted(scope, before, candidates.last()));
    assert(before.state is Running);
    if i < front.len() {
        assert(front[i] == candidates[i]);
        lemma_sorted_in(scope, front, i);
        assert forall|physical: Seq<u8>| #[trigger]
            belongs(scope, candidates[i], physical) && valid_utf8(physical) implies all.linked.contains(physical) by {
            assert(belongs(scope, front[i], physical));
            let k = choose|k: int| 0 <= k < before.linked.len() && before.linked[k] == physical;
            assert(all.linked[k] == physical);
        }
        if let Finding::Known(Some(physical)) = physical_path(scope.known, candidates[i]) {
            if before.out_of_scope.contains(physical) {
                let k = choose|k: int| 0 <= k < before.out_of_scope.len() && before.out_of_scope[k] == physical;
                assert(all.out_of_scope[k] == physical);
            }
        }
    } else {
        assert forall|physical: Seq<u8>| #[trigger]
            belongs(scope, candidates[i], physical) && valid_utf8(physical) implies all.linked.contains(physical) by {
            assert(crate::policy::below_any(physical, scope.roots));
            assert(all.linked[before.linked.len() as int] == physical);
        }
        if let Finding::Known(Some(physical)) = physical_path(scope.known, candidates[i]) {
            if valid_utf8(physical) && !same_path(physical, scope.primary) && (forall|r: int|
                0 <= r < scope.roots.len() ==> !path_starts_with(physical, (#[trigger] scope.roots[r])@)) {
                assert(!crate::policy::below_any(physical, scope.roots));
                assert(all.out_of_scope[before.out_of_scope.len() as int] == physical);
            }
        }
    }
}

proof fn lemma_sorted_from(scope: WorktreeScope<'_>, candidates: Seq<Seq<u8>>, k: int)
    requires
        0 <= k < worktrees_sorted(scope, candidates).linked.len(),
    ensures
        exists|i: int|
            0 <= i < candidates.len() && belongs(
                scope,
                #[trigger] candidates[i],
                worktrees_sorted(scope, candidates).linked[k],
            ),
    decreases candidates.len(),
{
    let front = candidates.drop_last();
    let before = worktrees_sorted(scope, front);
    let all = worktrees_sorted(scope, candidates);
    assert(all == worktree_sorted(scope, before, candidates.last()));
    if k < before.linked.len() {
        lemma_sorted_from(scope, front, k);
        let i = choose|i: int| 0 <= i < front.len() && belongs(scope, #[trigger] front[i], before.linked[k]);
        assert(candidates[i] == front[i]);
    } else {
        assert(belongs(scope, candidates[candidates.len() - 1], all.linked[k]));
    }
}

/// The worktrees that a repository adds to a scan are exactly those of it that exist,
/// are not the primary checkout, lie below a root, are not excluded and hold a manifest;
/// and one that lies below no root is reported as out of scope.
pub proof fn worktrees_of_a_scan(scope: WorktreeScope<'_>, candidates: Seq<Seq<u8>>)
    requires
        worktrees_sorted(scope, candidates).state is Running,
    ensures
        forall|i: int, physical: Seq<u8>| #![trigger belongs(scope, candidates[i], physical)]
            0 <= i < candidates.len() && belongs(scope, candidates[i], physical) && valid_utf8(physical)
                ==> worktrees_sorted(scope, candidates).linked.contains(physical),
        forall|k: int|
            0 <= k < worktrees_sorted(scope, candidates).linked.len() ==> exists|i: int|
                0 <= i < candidates.len() && belongs(
                    scope,
                    #[trigger] candidates[i],
                    #[trigger] worktrees_sorted(scope, candidates).linked[k],
                ),
        forall|i: int|
            0 <= i < candidates.len() && (physical_path(scope.known, #[trigger] candidates[i]) matches Finding::Known(
                Some(physical),
            ) && valid_utf8(physical) && !same_path(physical, scope.primary) && (forall|r: int|
                0 <= r < scope.roots.len() ==> !path_starts_with(physical, (#[trigger] scope.roots[r])@)))
                ==> worktrees_sorted(scope, candidates).out_of_scope.contains(
                physical_path(scope.known, candidates[i])->Known_0->0,
            ),
{
    let all = worktrees_sorted(scope, candidates);
    assert forall|i: int, physical: Seq<u8>| #![trigger belongs(scope, candidates[i], physical)]
        0 <= i < candidates.len() && belongs(scope, candidates[i], physical) && valid_utf8(physical) implies all.linked.contains(
        physical,
    ) by {
        lemma_sorted_in(scope, candidates, i);
    }
    assert forall|k: int| 0 <= k < all.linked.len() implies exists|i: int|
        0 <= i < candidates.len() && belongs(scope, #[trigger] candidates[i], #[trigger] all.linked[k]) by {
        lemma_sorted_from(scope, candidates, k);
    }
    assert forall|i: int|
        0 <= i < candidates.len() && (physical_path(scope.known, #[trigger] candidates[i]) matches Finding::Known(
            Some(physical),
        ) && valid_utf8(physical) && !same_path(physical, scope.primary) && (forall|r: int|
            0 <= r < scope.roots.len() ==> !path_starts_with(physical, (#[trigger] scope.roots[r])@))) implies all.out_of_scope.contains(
        physical_path(scope.known, candidates[i])->Known_0->0,
    ) by {
        lemma_sorted_in(scope, candidates, i);
    }
}

/// A repository with a worktree whose path is no text adds no worktree at all, and is
/// recorded as one that could not be asked.
pub proof fn worktrees_that_are_no_text_fail(scope: WorktreeScope<'_>, candidates: Seq<Seq<u8>>, i: int)
    requires
        0 <= i < candidates.len(),
        !valid_utf8(candidates[i]),
    ensures
        linked_findings(scope, candidates) matches Ok(findings) && findings.projects.len() == 0 && findings.errors.len() == 1
            && findings.discoveries.len() == 1 && findings.discoveries[0] is Failure,
{
}

// ------------------------------------------------------------------ exclusions

/// A scan excludes build output: every path with a component `target`, whatever else is
/// configured.
pub proof fn scans_exclude_build_output(
    known: Map<Seq<u8>, Resolved>,
    excludes: Seq<Seq<char>>,
    path: Seq<u8>,
    i: int,
)
    requires
        exclusions_of(known, scan_patterns(excludes)) is Known,
        0 <= i < path_components(path).len(),
        path_components(path)[i] == encode_utf8("target"@),
    ensures
        covered(exclusions_of(known, scan_patterns(excludes))->Known_0, path),
{
    let patterns = scan_patterns(excludes);
    lemma_exclusions(known, patterns, 0);
    let list = exclusions_of(known, patterns)->Known_0;
    let name = encode_utf8("target"@);
    reveal_strlit("target");
    is_ascii_chars_encode_utf8("target"@);
    assert(name.len() == 6);
    assert(!name.contains(crate::path::SLASH)) by {
        assert forall|k: int| 0 <= k < name.len() implies name[k] != crate::path::SLASH by {
            assert(name[k] == "target"@[k] as u8);
        }
    }
    assert(name[0] == 't' as u8);
    excluded_names_exclude_their_paths(path, name, i);
    assert(patterns[0] == "target"@);
    assert(exclusion_covers(list[0], path));
}

proof fn lemma_exclusions(known: Map<Seq<u8>, Resolved>, patterns: Seq<Seq<char>>, i: int)
    requires
        exclusions_of(known, patterns) is Known,
        0 <= i < patterns.len(),
    ensures
        exclusions_of(known, patterns)->Known_0.len() == patterns.len(),
        exclusions_of(known, patterns)->Known_0[i].pattern == encode_utf8(patterns[i]),
        exclusion_of(known, encode_utf8(patterns[i])) == Finding::Known(exclusions_of(known, patterns)->Known_0[i]),
    decreases patterns.len(),
{
    let front = patterns.drop_last();
    if i < front.len() {
        lemma_exclusions(known, front, i);
        assert(front[i] == patterns[i]);
    } else if front.len() > 0 {
        lemma_exclusions(known, front, 0);
    }
}

/// Every pattern of a scan excludes something of its own: an absolute one what lies
/// below it, any other every path in which it stands as a name.
pub proof fn scans_exclude_what_is_configured(
    known: Map<Seq<u8>, Resolved>,
    excludes: Seq<Seq<char>>,
    path: Seq<u8>,
    e: int,
)
    requires
        exclusions_of(known, scan_patterns(excludes)) is Known,
        0 <= e < excludes.len(),
        lexically_excluded(path, encode_utf8(excludes[e])),
    ensures
        covered(exclusions_of(known, scan_patterns(excludes))->Known_0, path),
{
    let patterns = scan_patterns(excludes);
    lemma_exclusions(known, patterns, e + 1);
    assert(patterns[e + 1] == excludes[e]);
    assert(exclusion_covers(exclusions_of(known, patterns)->Known_0[e + 1], path));
}

/// An absolute exclusion of a scan also excludes what lies at or below the place where it
/// really is; and what no exclusion covers in either way is not excluded.
pub proof fn scans_exclude_physical_places(
    known: Map<Seq<u8>, Resolved>,
    excludes: Seq<Seq<char>>,
    path: Seq<u8>,
    e: int,
    physical: Seq<u8>,
)
    requires
        exclusions_of(known, scan_patterns(excludes)) is Known,
        0 <= e < excludes.len(),
        crate::path::is_absolute_path(encode_utf8(excludes[e])),
        physical_path(known, encode_utf8(excludes[e])) == Finding::Known(Some(physical)),
        path_starts_with(path, physical),
    ensures
        covered(exclusions_of(known, scan_patterns(excludes))->Known_0, path),
{
    let patterns = scan_patterns(excludes);
    lemma_exclusions(known, patterns, e + 1);
    assert(patterns[e + 1] == excludes[e]);
    crate::resolve::laws::existing_paths_are_physical(known, encode_utf8(excludes[e]), physical);
    assert(exclusion_covers(exclusions_of(known, patterns)->Known_0[e + 1], path));
}

/// A scan excludes nothing but build output and what its exclusions cover, as they are
/// written or where they really are.
pub proof fn scans_exclude_nothing_else(known: Map<Seq<u8>, Resolved>, excludes: Seq<Seq<char>>, path: Seq<u8>)
    requires
        exclusions_of(known, scan_patterns(excludes)) is Known,
        covered(exclusions_of(known, scan_patterns(excludes))->Known_0, path),
    ensures
        lexically_excluded(path, encode_utf8("target"@)) || exists|e: int|
            0 <= e < excludes.len() && (lexically_excluded(path, encode_utf8(#[trigger] excludes[e])) || (
            crate::path::is_absolute_path(encode_utf8(excludes[e])) && (crate::resolve::longest_resolved(
                known,
                encode_utf8(excludes[e]),
                path_components(encode_utf8(excludes[e])),
                seq![],
            ) matches Finding::Known(Some(place)) && path_starts_with(path, place)))),
{
    let patterns = scan_patterns(excludes);
    let list = exclusions_of(known, patterns)->Known_0;
    lemma_exclusions(known, patterns, 0);
    let i = choose|i: int| 0 <= i < list.len() && exclusion_covers(#[trigger] list[i], path);
    lemma_exclusions(known, patterns, i);
    if i == 0 {
        assert(patterns[0] == "target"@);
        reveal_strlit("target");
        is_ascii_chars_encode_utf8("target"@);
        assert(!crate::path::is_absolute_path(encode_utf8("target"@)));
    } else {
        assert(patterns[i] == excludes[i - 1]);
    }
}

/// A name excludes every path that has it among its components, and no other.
pub proof fn excluded_names_exclude_their_paths(path: Seq<u8>, name: Seq<u8>, i: int)
    requires
        name.len() > 0,
        !name.contains(crate::path::SLASH),
        name != crate::path::cur_dir(),
    ensures
        0 <= i < path_components(path).len() && path_components(path)[i] == name ==> lexically_excluded(path, name),
        lexically_excluded(path, name) ==> path_components(path).contains(name),
{
    assert(name[0] != crate::path::SLASH);
    crate::path::laws::names_are_the_last_component(Seq::empty(), name);
    assert(path_join(Seq::empty(), name) =~= name);
    crate::path::laws::undivided_texts_are_one_piece(Seq::<u8>::empty(), crate::path::SLASH);
    assert(path_components(Seq::<u8>::empty()) =~= Seq::empty()) by {
        let nothing = seq![Seq::<u8>::empty()];
        reveal_with_fuel(Seq::filter, 2);
        assert(nothing.drop_last() =~= Seq::empty());
    }
    let wanted = wanted_components(name);
    assert(path_components(name) =~= seq![name]);
    assert(wanted == seq![name]);
    let parts = path_components(path);
    if 0 <= i < parts.len() && parts[i] == name {
        assert(parts.subrange(i, i + 1) =~= seq![name]);
        assert(occurs_at(parts, wanted, i));
    }
    if lexically_excluded(path, name) {
        let k = choose|k: int| #[trigger] occurs_at(parts, wanted, k);
        assert(parts.subrange(k, k + 1)[0] == parts[k]);
        assert(parts[k] == name);
    }
}

/// An absolute exclusion excludes exactly what lies at or below it.
pub proof fn absolute_exclusions_exclude_what_is_below(path: Seq<u8>, exclusion: Seq<u8>)
    requires
        crate::path::is_absolute_path(exclusion),
    ensures
        lexically_excluded(path, exclusion) <==> path_starts_with(path, exclusion),
{
}

// -------------------------------------------------------------------- origins

/// An origin is complete exactly if it is there and the scan of it met nothing that it
/// could not read; what is said of one that is not is what was said first.
pub proof fn origins_are_complete_if_all_was_read(there: bool, errors: Seq<ScanErrorView>)
    ensures
        origin_fault(there, errors) is None <==> there && forall|i: int|
            0 <= i < errors.len() ==> (#[trigger] errors[i]).kind != ScanErrorKind::Scan,
        forall|i: int|
            0 <= i < errors.len() && (#[trigger] errors[i]).kind == ScanErrorKind::Scan && (forall|k: int|
                0 <= k < i ==> (#[trigger] errors[k]).kind != ScanErrorKind::Scan) ==> origin_fault(there, errors) == Some(
                errors[i].message,
            ),
{
    if exists|i: int| 0 <= i < errors.len() && (#[trigger] errors[i]).kind == ScanErrorKind::Scan {
        let any = choose|i: int| 0 <= i < errors.len() && (#[trigger] errors[i]).kind == ScanErrorKind::Scan;
        lemma_some_unread(errors, any);
    } else {
        lemma_none_unread(errors);
    }
    assert forall|i: int|
        0 <= i < errors.len() && (#[trigger] errors[i]).kind == ScanErrorKind::Scan && (forall|k: int|
            0 <= k < i ==> (#[trigger] errors[k]).kind != ScanErrorKind::Scan) implies origin_fault(there, errors) == Some(
        errors[i].message,
    ) by {
        lemma_first_unread(errors, i);
    }
}

proof fn lemma_first_unread(errors: Seq<ScanErrorView>, i: int)
    requires
        0 <= i < errors.len(),
        errors[i].kind == ScanErrorKind::Scan,
        forall|k: int| 0 <= k < i ==> (#[trigger] errors[k]).kind != ScanErrorKind::Scan,
    ensures
        first_unread(errors) == Some(errors[i].message),
    decreases i,
{
    if i > 0 {
        assert(errors[0].kind != ScanErrorKind::Scan);
        let rest = errors.skip(1);
        assert forall|k: int| 0 <= k < i - 1 implies (#[trigger] rest[k]).kind != ScanErrorKind::Scan by {
            assert(errors[k + 1].kind != ScanErrorKind::Scan);
        }
        lemma_first_unread(rest, i - 1);
    }
}

proof fn lemma_some_unread(errors: Seq<ScanErrorView>, i: int)
    requires
        0 <= i < errors.len(),
        errors[i].kind == ScanErrorKind::Scan,
    ensures
        first_unread(errors) is Some,
    decreases i,
{
    if i > 0 {
        assert(errors.skip(1)[i - 1] == errors[i]);
        lemma_some_unread(errors.skip(1), i - 1);
    }
}

proof fn lemma_none_unread(errors: Seq<ScanErrorView>)
    requires
        forall|i: int| 0 <= i < errors.len() ==> (#[trigger] errors[i]).kind != ScanErrorKind::Scan,
    ensures
        first_unread(errors) is None,
    decreases errors.len(),
{
    if errors.len() > 0 {
        assert(errors[0].kind != ScanErrorKind::Scan);
        let rest = errors.skip(1);
        assert forall|i: int| 0 <= i < rest.len() implies (#[trigger] rest[i]).kind != ScanErrorKind::Scan by {
            assert(rest[i] == errors[i + 1]);
        }
        lemma_none_unread(rest);
    }
}

// --------------------------------------------------------------------- reports

/// A commit is named by forty or sixty-four hexadecimal digits, and by nothing else.
pub proof fn commits_are_named_by_digits(record: RecordModel, field: Seq<u8>, id: Seq<u8>)
    requires
        after(field, "HEAD "@) == Some(id),
    ensures
        field_added(record, field) is Ok <==> !record.head && !record.branch && !record.detached && !record.bare
            && !record.locked && !record.prunable && (id.len() == 40 || id.len() == 64) && forall|i: int|
            0 <= i < id.len() ==> 48 <= (#[trigger] id[i]) <= 57 || 97 <= id[i] <= 102 || 65 <= id[i] <= 70,
        field_added(record, field) matches Ok(more) ==> more == (RecordModel { head: true, ..record }),
{
}

/// What git says is refused if it does not end where a field ends, if a record ends before
/// it is complete or stands empty, and if a record starts with anything but an absolute
/// path.
pub proof fn broken_reports_are_refused(primary: Seq<u8>, output: Seq<u8>, state: ParseState, field: Seq<u8>)
    ensures
        output.len() == 0 || output.last() != 0 ==> worktrees_of(primary, output) is Err,
        state.record is None && field.len() == 0 ==> fed(state, field) is Err,
        state.record matches Some(record) ==> (field.len() == 0 && !(record.bare || (record.head && (record.branch
            || record.detached))) ==> fed(state, field) is Err),
        state.record is None && after(field, "worktree "@) is None ==> fed(state, field) is Err,
        state.record is None ==> (after(field, "worktree "@) matches Some(path) ==> (fed(state, field) is Ok ==> path.len() > 0
            && path[0] == 47)),
{
}

/// Of git that failed it is told what it wrote, without the blanks around it, and where
/// it wrote nothing else how it ended.
pub proof fn failures_of_git_are_told(stderr: Seq<char>, status: Seq<char>)
    ensures
        trimmed(stderr).len() > 0 ==> trimmed(stderr).is_suffix_of(failure_text(stderr, status)) && "git worktree list failed: "@.is_prefix_of(
            failure_text(stderr, status),
        ),
        trimmed(stderr).len() == 0 ==> status.is_suffix_of(failure_text(stderr, status)) && "git worktree list failed with status "@.is_prefix_of(
            failure_text(stderr, status),
        ),
{
    let text = failure_text(stderr, status);
    let head = if trimmed(stderr).len() > 0 {
        "git worktree list failed: "@
    } else {
        "git worktree list failed with status "@
    };
    assert(head =~= text.subrange(0, head.len() as int));
    assert(text.subrange(head.len() as int, text.len() as int) =~= if trimmed(stderr).len() > 0 {
        trimmed(stderr)
    } else {
        status
    });
}

/// Where nothing that git lists is the repository that was asked, what it says is refused.
pub proof fn reports_name_who_was_asked(primary: Seq<u8>, output: Seq<u8>)
    requires
        worktrees_of(primary, output) is Ok,
    ensures
        ({
            let fields = split_on(output.drop_last(), 0u8);
            let start = ParseState { record: None, seen: Seq::empty() };
            &&& fed_all(start, fields) is Ok
            &&& exists|i: int|
                0 <= i < fed_all(start, fields)->Ok_0.seen.len() && same_path(
                    #[trigger] fed_all(start, fields)->Ok_0.seen[i],
                    primary,
                )
        }),
{
    let start = ParseState { record: None, seen: Seq::empty() };
    let fields = split_on(output.drop_last(), 0u8);
    let seen = fed_all(start, fields)->Ok_0.seen;
    if forall|i: int| 0 <= i < seen.len() ==> !same_path(#[trigger] seen[i], primary) {
        lemma_all_others(seen, primary);
    }
}

proof fn lemma_all_others(seen: Seq<Seq<u8>>, primary: Seq<u8>)
    requires
        forall|i: int| 0 <= i < seen.len() ==> !same_path(#[trigger] seen[i], primary),
    ensures
        without_primary(seen, primary) == seen,
    decreases seen.len(),
{
    let p = |path: Seq<u8>| !same_path(path, primary);
    reveal(Seq::filter);
    if seen.len() > 0 {
        let front = seen.drop_last();
        assert forall|i: int| 0 <= i < front.len() implies !same_path(#[trigger] front[i], primary) by {
            assert(front[i] == seen[i]);
        }
        lemma_all_others(front, primary);
        assert(!same_path(seen[seen.len() - 1], primary));
        assert(seen.filter(p) =~= front.push(seen.last()));
        assert(front.push(seen.last()) =~= seen);
    } else {
        assert(seen.filter(p) =~= seen);
    }
}

/// The paths that exist are those with a physical path, each given by it, in their order.
pub proof fn existing_paths_are_given_by_their_place(known: Map<Seq<u8>, Resolved>, paths: Seq<Seq<u8>>)
    requires
        existing_paths(known, paths) is Known,
    ensures
        forall|i: int|
            0 <= i < paths.len() ==> (physical_path(known, #[trigger] paths[i]) matches Finding::Known(Some(physical))
                ==> existing_paths(known, paths)->Known_0.contains(physical)),
        forall|k: int|
            0 <= k < existing_paths(known, paths)->Known_0.len() ==> exists|i: int|
                0 <= i < paths.len() && physical_path(known, #[trigger] paths[i]) == Finding::Known(
                    Some(#[trigger] existing_paths(known, paths)->Known_0[k]),
                ),
    decreases paths.len(),
{
    let all = existing_paths(known, paths)->Known_0;
    if paths.len() > 0 {
        let front = paths.drop_last();
        let before = existing_paths(known, front)->Known_0;
        existing_paths_are_given_by_their_place(known, front);
        assert forall|i: int| 0 <= i < paths.len() implies (physical_path(known, #[trigger] paths[i]) matches Finding::Known(
            Some(physical),
        ) ==> all.contains(physical)) by {
            if let Finding::Known(Some(physical)) = physical_path(known, paths[i]) {
                if i < front.len() {
                    assert(front[i] == paths[i]);
                    let k = choose|k: int| 0 <= k < before.len() && before[k] == physical;
                    assert(all[k] == physical);
                } else {
                    assert(all[before.len() as int] == physical);
                }
            }
        }
        assert forall|k: int| 0 <= k < all.len() implies exists|i: int|
            0 <= i < paths.len() && physical_path(known, #[trigger] paths[i]) == Finding::Known(Some(#[trigger] all[k])) by {
            if k < before.len() {
                assert(all[k] == before[k]);
                let i = choose|i: int|
                    0 <= i < front.len() && physical_path(known, #[trigger] front[i]) == Finding::Known(Some(before[k]));
                assert(paths[i] == front[i]);
            } else {
                let last = paths.len() - 1;
                assert(physical_path(known, paths[last]) == Finding::Known(Some(all[k])));
            }
        }
    }
}

} // verus!
