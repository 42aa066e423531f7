//! The walk over the scan roots, one directory at a time. Each step names what it
//! has to know of the file system next, until nothing is left to visit.

use crate::path::{path_views, PathBuf};
use crate::policy::scope::sort_paths;
use crate::resolve::{physical_path, Answer, Finding, Resolutions, Resolved};
use crate::scanner::exclusion::{
    any_ignores, covered, exclusion_views, exclusions_of, ignore_views, is_ignored, scan_patterns, ExclusionMatchers,
    IgnoreFile, IgnoreView,
};
use crate::scanner::linked::{
    add_cargo_project, linked_projects_are_in_scope, path_set, project_findings, FindingsView, ProbeView, ProjectFacts,
    ProjectProbe, ProjectStep, WorktreeScope,
};
use crate::scanner::{
    DiscoveryView, ScanError, ScanErrorKind, ScanErrorView, ScanReport, ScannerOptions, WorktreeDiscovery,
};
use crate::store::table::{push_row, rows_view};
use crate::text::texts;
use vstd::prelude::*;
use vstd::utf8::*;

verus! {

/// What has to be found out next about a directory.
#[derive(Debug, Clone, Copy, PartialEq, Eq, Structural)]
pub enum DirectoryProbe {
    /// Whether it is a directory.
    Metadata,
    /// Whether an ignore file ignores it; asked only where its path is no text.
    Ignored,
    /// Whether it holds a manifest.
    Manifest,
    /// The lines of its ignore file, if it has one.
    IgnoreLines,
    /// Its entries.
    Entries,
}

/// An entry of a directory.
#[derive(Debug, PartialEq, Eq)]
pub enum DirectoryEntry {
    /// The entry could not be read.
    Unreadable(String),
    /// The kind of the entry could not be read.
    Untyped(PathBuf, String),
    /// A directory that is no link.
    Directory(PathBuf),
    /// Anything else.
    Other,
}

/// What has been found out about a directory.
#[derive(Debug)]
pub struct DirectoryFacts {
    pub metadata: Option<Result<bool, String>>,
    pub ignored: Option<bool>,
    pub manifest: Option<bool>,
    pub ignore_lines: Option<Option<Vec<String>>>,
    pub entries: Option<Result<Vec<DirectoryEntry>, String>>,
}

impl DirectoryFacts {
    /// Nothing found out.
    pub fn new() -> (facts: DirectoryFacts)
        ensures
            facts.metadata is None,
            facts.ignored is None,
            facts.manifest is None,
            facts.ignore_lines is None,
            facts.entries is None,
    {
        DirectoryFacts { metadata: None, ignored: None, manifest: None, ignore_lines: None, entries: None }
    }
}

/// What becomes of a directory.
#[derive(Debug, PartialEq, Eq)]
pub enum DirectoryStep {
    Probe(DirectoryProbe),
    /// It could not be read.
    Failed(String),
    /// It is left out.
    Skipped,
    /// It holds a project.
    Project,
    /// What stands in it is gone through in this order.
    Descend(Vec<Listed>),
}

/// What is done about an entry of a directory.
#[derive(Debug, PartialEq, Eq)]
pub enum Listed {
    /// A directory to visit.
    Directory(PathBuf),
    /// An entry that could not be read.
    Problem(ScanError),
}

/// The contents of what is done about an entry.
pub enum ListedView {
    Directory(Seq<u8>),
    Problem(ScanErrorView),
}

impl View for Listed {
    type V = ListedView;

    open spec fn view(&self) -> ListedView {
        match self {
            Listed::Directory(path) => ListedView::Directory(path@),
            Listed::Problem(error) => ListedView::Problem(error@),
        }
    }
}

/// The contents of a step.
pub enum DirectoryStepView {
    Probe(DirectoryProbe),
    Failed(Seq<char>),
    Skipped,
    Project,
    Descend(Seq<ListedView>),
}

impl View for DirectoryStep {
    type V = DirectoryStepView;

    open spec fn view(&self) -> DirectoryStepView {
        match self {
            DirectoryStep::Probe(probe) => DirectoryStepView::Probe(*probe),
            DirectoryStep::Failed(message) => DirectoryStepView::Failed(message@),
            DirectoryStep::Skipped => DirectoryStepView::Skipped,
            DirectoryStep::Project => DirectoryStepView::Project,
            DirectoryStep::Descend(listed) => DirectoryStepView::Descend(rows_view(listed@)),
        }
    }
}

/// The error of a scan.
pub open spec fn scan_error(path: Seq<u8>, message: Seq<char>) -> ScanErrorView {
    ScanErrorView { path, message, kind: ScanErrorKind::Scan }
}

/// What is done about the entries of a directory, in their order: directories are visited,
/// and what could not be read is an error.
pub open spec fn listed_entries(directory: Seq<u8>, entries: Seq<DirectoryEntry>) -> Seq<ListedView>
    decreases entries.len(),
{
    if entries.len() == 0 {
        Seq::empty()
    } else {
        let before = listed_entries(directory, entries.drop_last());
        match entries.last() {
            DirectoryEntry::Unreadable(message) => before.push(ListedView::Problem(scan_error(directory, message@))),
            DirectoryEntry::Untyped(path, message) => before.push(ListedView::Problem(scan_error(path@, message@))),
            DirectoryEntry::Directory(path) => before.push(ListedView::Directory(path@)),
            DirectoryEntry::Other => before,
        }
    }
}

/// What becomes of a directory; `ignored` says whether ignore files name it, if
/// that is known.
pub open spec fn directory_step(
    matchers: &ExclusionMatchers,
    directory: Seq<u8>,
    ignored: Option<bool>,
    facts: DirectoryFacts,
) -> DirectoryStepView {
    match facts.metadata {
        None => DirectoryStepView::Probe(DirectoryProbe::Metadata),
        Some(Err(message)) => DirectoryStepView::Failed(message@),
        Some(Ok(is_directory)) => if !is_directory || covered(exclusion_views(matchers.exclusions@), directory) {
            DirectoryStepView::Skipped
        } else {
            match (ignored, facts.manifest) {
                (None, _) => DirectoryStepView::Probe(DirectoryProbe::Ignored),
                (Some(true), _) => DirectoryStepView::Skipped,
                (Some(false), None) => DirectoryStepView::Probe(DirectoryProbe::Manifest),
                (Some(false), Some(true)) => DirectoryStepView::Project,
                (Some(false), Some(false)) => match (facts.ignore_lines, facts.entries) {
                    (None, _) => DirectoryStepView::Probe(DirectoryProbe::IgnoreLines),
                    (Some(_), None) => DirectoryStepView::Probe(DirectoryProbe::Entries),
                    (Some(_), Some(Err(message))) => DirectoryStepView::Failed(message@),
                    (Some(_), Some(Ok(entries))) => DirectoryStepView::Descend(
                        listed_entries(directory, entries@),
                    ),
                },
            }
        },
    }
}

fn new_error(path: &PathBuf, message: &String) -> (error: ScanError)
    ensures
        error@ == scan_error(path@, message@),
{
    ScanError { path: path.clone(), message: message.clone(), kind: ScanErrorKind::Scan }
}

fn list_entries(directory: &PathBuf, entries: &Vec<DirectoryEntry>) -> (listed: Vec<Listed>)
    ensures
        rows_view(listed@) == listed_entries(directory@, entries@),
{
    let ghost all = entries@;
    let mut listed: Vec<Listed> = Vec::new();
    let mut i: usize = 0;
    assert(all.take(0) =~= Seq::empty());
    assert(rows_view(listed@) =~= Seq::empty());
    while i < entries.len()
        invariant
            i <= entries.len(),
            all == entries@,
            rows_view(listed@) == listed_entries(directory@, all.take(i as int)),
        decreases entries.len() - i,
    {
        proof {
            assert(all.take(i + 1).drop_last() =~= all.take(i as int));
            assert(all.take(i + 1).last() == all[i as int]);
        }
        match &entries[i] {
            DirectoryEntry::Unreadable(message) => push_row(
                &mut listed,
                Listed::Problem(new_error(directory, message)),
            ),
            DirectoryEntry::Untyped(path, message) => push_row(&mut listed, Listed::Problem(new_error(path, message))),
            DirectoryEntry::Directory(path) => push_row(&mut listed, Listed::Directory(path.clone())),
            DirectoryEntry::Other => {},
        }
        i += 1;
    }
    assert(all.take(i as int) =~= all);
    listed
}

/// What becomes of a directory.
pub fn visit_directory(
    matchers: &ExclusionMatchers,
    directory: &PathBuf,
    ignored: Option<bool>,
    facts: &DirectoryFacts,
) -> (step: DirectoryStep)
    ensures
        step@ == directory_step(matchers, directory@, ignored, *facts),
{
    match &facts.metadata {
        None => return DirectoryStep::Probe(DirectoryProbe::Metadata),
        Some(Err(message)) => return DirectoryStep::Failed(message.clone()),
        Some(Ok(is_directory)) => {
            if !*is_directory || matchers.matches(directory) {
                return DirectoryStep::Skipped;
            }
        },
    }
    match ignored {
        None => return DirectoryStep::Probe(DirectoryProbe::Ignored),
        Some(true) => return DirectoryStep::Skipped,
        Some(false) => {},
    }
    match facts.manifest {
        None => return DirectoryStep::Probe(DirectoryProbe::Manifest),
        Some(true) => return DirectoryStep::Project,
        Some(false) => {},
    }
    if facts.ignore_lines.is_none() {
        return DirectoryStep::Probe(DirectoryProbe::IgnoreLines);
    }
    match &facts.entries {
        None => DirectoryStep::Probe(DirectoryProbe::Entries),
        Some(Err(message)) => DirectoryStep::Failed(message.clone()),
        Some(Ok(entries)) => DirectoryStep::Descend(list_entries(directory, entries)),
    }
}

// -------------------------------------------------------------------- scanner

/// Scans for projects.
#[derive(Debug)]
pub struct Scanner {
    pub opts: ScannerOptions,
    pub matchers: ExclusionMatchers,
}

/// Something that is still to be visited.
#[derive(Debug)]
pub enum ScanTask {
    /// A directory below a scan root, with the ignore files above it.
    Directory(PathBuf, Vec<IgnoreFile>),
    /// A directory that holds a manifest.
    Project(PathBuf),
    /// A project that is named itself.
    Named(PathBuf),
    /// An error that is recorded when its turn comes.
    Problem(ScanError),
}

/// The contents of a task.
pub enum TaskView {
    Directory(Seq<u8>, Seq<IgnoreView>),
    Project(Seq<u8>),
    Named(Seq<u8>),
    Problem(ScanErrorView),
}

impl View for ScanTask {
    type V = TaskView;

    open spec fn view(&self) -> TaskView {
        match self {
            ScanTask::Directory(path, ignores) => TaskView::Directory(path@, ignore_views(ignores@)),
            ScanTask::Project(path) => TaskView::Project(path@),
            ScanTask::Named(path) => TaskView::Named(path@),
            ScanTask::Problem(error) => TaskView::Problem(error@),
        }
    }
}

/// How far a scan has come. The task to do next stands last.
#[derive(Debug)]
pub struct ScanProgress {
    pub roots: Vec<PathBuf>,
    pub tasks: Vec<ScanTask>,
    pub found: Vec<PathBuf>,
    pub errors: Vec<ScanError>,
    pub discoveries: Vec<WorktreeDiscovery>,
}

/// The contents of a scan's progress.
pub struct ProgressView {
    pub roots: Seq<PathBuf>,
    pub tasks: Seq<TaskView>,
    pub found: Seq<Seq<u8>>,
    pub errors: Seq<ScanErrorView>,
    pub discoveries: Seq<DiscoveryView>,
}

impl View for ScanProgress {
    type V = ProgressView;

    open spec fn view(&self) -> ProgressView {
        ProgressView {
            roots: self.roots@,
            tasks: rows_view(self.tasks@),
            found: path_views(self.found@),
            errors: rows_view(self.errors@),
            discoveries: rows_view(self.discoveries@),
        }
    }
}

/// What has been found out for the task to do next.
#[derive(Debug)]
pub struct TaskFacts {
    pub directory: DirectoryFacts,
    /// Whether a project that is named itself holds a manifest.
    pub named_manifest: Option<bool>,
    pub project: ProjectFacts,
}

impl TaskFacts {
    /// Nothing found out.
    pub fn new() -> (facts: TaskFacts)
        ensures
            facts.directory.metadata is None,
            facts.directory.ignored is None,
            facts.directory.manifest is None,
            facts.directory.ignore_lines is None,
            facts.directory.entries is None,
            facts.named_manifest is None,
            facts.project.physical is None,
            facts.project.repository is None,
            facts.project.manifest is None,
            facts.project.worktrees is None,
    {
        TaskFacts { directory: DirectoryFacts::new(), named_manifest: None, project: ProjectFacts::new() }
    }
}

/// What a scan has to know next.
#[derive(Debug, PartialEq, Eq)]
pub enum ScanStep {
    /// This of the directory of the task to do next.
    Directory(DirectoryProbe),
    /// Whether the project that is named itself holds a manifest.
    NamedManifest,
    /// This of the project of the task to do next.
    Project(ProjectProbe),
    /// Nothing: the task is done, and what was found out for it is used up.
    TaskDone,
    /// Nothing: no task is left.
    Finished,
}

/// The contents of a step of a scan.
pub enum ScanStepView {
    Directory(DirectoryProbe),
    NamedManifest,
    Project(ProbeView),
    TaskDone,
    Finished,
}

impl View for ScanStep {
    type V = ScanStepView;

    open spec fn view(&self) -> ScanStepView {
        match self {
            ScanStep::Directory(probe) => ScanStepView::Directory(*probe),
            ScanStep::NamedManifest => ScanStepView::NamedManifest,
            ScanStep::Project(probe) => ScanStepView::Project(probe@),
            ScanStep::TaskDone => ScanStepView::TaskDone,
            ScanStep::Finished => ScanStepView::Finished,
        }
    }
}

/// The existing physical paths among paths.
pub open spec fn existing_paths(known: Map<Seq<u8>, Resolved>, paths: Seq<Seq<u8>>) -> Finding<Seq<Seq<u8>>>
    decreases paths.len(),
{
    if paths.len() == 0 {
        Finding::Known(Seq::empty())
    } else {
        match existing_paths(known, paths.drop_last()) {
            Finding::Unresolved(path) => Finding::Unresolved(path),
            Finding::Known(before) => match physical_path(known, paths.last()) {
                Finding::Unresolved(path) => Finding::Unresolved(path),
                Finding::Known(None) => Finding::Known(before),
                Finding::Known(Some(physical)) => Finding::Known(before.push(physical)),
            },
        }
    }
}

/// A root by its physical path, or as it is written where it has none.
pub open spec fn walked_root(known: Map<Seq<u8>, Resolved>, root: Seq<u8>) -> Seq<u8> {
    match physical_path(known, root) {
        Finding::Known(Some(physical)) => physical,
        _ => root,
    }
}

/// The tasks of a whole scan, the first one last: the roots, then the projects
/// that are named themselves.
pub open spec fn first_tasks(known: Map<Seq<u8>, Resolved>, roots: Seq<Seq<u8>>, projects: Seq<Seq<u8>>) -> Seq<TaskView> {
    projects.reverse().map_values(|path: Seq<u8>| TaskView::Named(path)) + roots.reverse().map_values(
        |path: Seq<u8>| TaskView::Directory(walked_root(known, path), Seq::empty()),
    )
}

/// The ignore files that hold below a directory: those above it and its own. One
/// that stands in a directory whose path is no text is not kept, for no path below
/// it is text either.
pub open spec fn ignores_below(directory: Seq<u8>, above: Seq<IgnoreView>, lines: Option<Option<Vec<String>>>) -> Seq<
    IgnoreView,
> {
    match lines {
        Some(Some(own)) => if valid_utf8(directory) {
            above.push(IgnoreView { root: decode_utf8(directory), lines: texts(own@) })
        } else {
            above
        },
        _ => above,
    }
}

/// Whether ignore files name a directory, as far as that is known.
pub open spec fn ignored_fact(directory: Seq<u8>, ignores: Seq<IgnoreView>, facts: DirectoryFacts) -> Option<bool> {
    if valid_utf8(directory) {
        Some(any_ignores(ignores, decode_utf8(directory)))
    } else {
        facts.ignored
    }
}

/// The task that an entry of a directory makes.
pub open spec fn entry_task(listed: ListedView, below: Seq<IgnoreView>) -> TaskView {
    match listed {
        ListedView::Directory(path) => TaskView::Directory(path, below),
        ListedView::Problem(error) => TaskView::Problem(error),
    }
}

/// The progress with findings added.
pub open spec fn with_findings(progress: ProgressView, findings: FindingsView) -> ProgressView {
    ProgressView {
        found: progress.found + findings.projects,
        errors: progress.errors + findings.errors,
        discoveries: progress.discoveries + findings.discoveries,
        ..progress
    }
}

/// The progress without the task that was to be done next.
pub open spec fn without_task(progress: ProgressView) -> ProgressView {
    ProgressView { tasks: progress.tasks.drop_last(), ..progress }
}

/// The progress after a step, and what it has to know next.
pub open spec fn scan_stepped(matchers: &ExclusionMatchers, progress: ProgressView, facts: TaskFacts) -> (
    ProgressView,
    ScanStepView,
) {
    if progress.tasks.len() == 0 {
        (progress, ScanStepView::Finished)
    } else {
        match progress.tasks.last() {
            TaskView::Directory(path, ignores) => {
                let ignored = ignored_fact(path, ignores, facts.directory);
                match directory_step(matchers, path, ignored, facts.directory) {
                    DirectoryStepView::Probe(probe) => (progress, ScanStepView::Directory(probe)),
                    DirectoryStepView::Failed(message) => (
                        ProgressView {
                            errors: progress.errors.push(scan_error(path, message)),
                            ..without_task(progress)
                        },
                        ScanStepView::TaskDone,
                    ),
                    DirectoryStepView::Skipped => (without_task(progress), ScanStepView::TaskDone),
                    DirectoryStepView::Project => (
                        ProgressView { tasks: progress.tasks.drop_last().push(TaskView::Project(path)), ..progress },
                        ScanStepView::TaskDone,
                    ),
                    DirectoryStepView::Descend(listed) => {
                        let below = ignores_below(path, ignores, facts.directory.ignore_lines);
                        (
                            ProgressView {
                                tasks: progress.tasks.drop_last() + listed.reverse().map_values(
                                    |entry: ListedView| entry_task(entry, below),
                                ),
                                ..progress
                            },
                            ScanStepView::TaskDone,
                        )
                    },
                }
            },
            TaskView::Problem(error) => (
                ProgressView { errors: progress.errors.push(error), ..without_task(progress) },
                ScanStepView::TaskDone,
            ),
            TaskView::Project(path) => project_stepped(matchers, progress, path, facts.project),
            TaskView::Named(path) => match facts.named_manifest {
                None => (progress, ScanStepView::NamedManifest),
                Some(false) => (without_task(progress), ScanStepView::TaskDone),
                Some(true) => project_stepped(matchers, progress, path, facts.project),
            },
        }
    }
}

/// The progress after a step with a project's directory.
pub open spec fn project_stepped(
    matchers: &ExclusionMatchers,
    progress: ProgressView,
    path: Seq<u8>,
    facts: ProjectFacts,
) -> (ProgressView, ScanStepView) {
    match project_findings(matchers, progress.roots, path, true, facts) {
        Err(probe) => (progress, ScanStepView::Project(probe)),
        Ok(findings) => (with_findings(without_task(progress), findings), ScanStepView::TaskDone),
    }
}

proof fn lemma_unresolved_early(known: Map<Seq<u8>, Resolved>, paths: Seq<Seq<u8>>, n: int)
    requires
        0 <= n <= paths.len(),
        existing_paths(known, paths.take(n)) is Unresolved,
    ensures
        existing_paths(known, paths) == existing_paths(known, paths.take(n)),
    decreases paths.len() - n,
{
    if n < paths.len() {
        assert(paths.take(n + 1).drop_last() =~= paths.take(n));
        lemma_unresolved_early(known, paths, n + 1);
    } else {
        assert(paths.take(n) =~= paths);
    }
}

proof fn lemma_existing_in_parts(known: Map<Seq<u8>, Resolved>, a: Seq<Seq<u8>>, b: Seq<Seq<u8>>)
    ensures
        existing_paths(known, a + b) == match existing_paths(known, a) {
            Finding::Unresolved(path) => Finding::Unresolved(path),
            Finding::Known(first) => match existing_paths(known, b) {
                Finding::Unresolved(path) => Finding::Unresolved(path),
                Finding::Known(second) => Finding::Known(first + second),
            },
        },
    decreases b.len(),
{
    if b.len() == 0 {
        assert(a + b =~= a);
        match existing_paths(known, a) {
            Finding::Known(first) => {
                assert(first + Seq::<Seq<u8>>::empty() =~= first);
            },
            Finding::Unresolved(_) => {},
        }
    } else {
        lemma_existing_in_parts(known, a, b.drop_last());
        assert((a + b).drop_last() =~= a + b.drop_last());
        assert((a + b).last() == b.last());
        match (existing_paths(known, a), existing_paths(known, b.drop_last()), physical_path(known, b.last())) {
            (Finding::Known(first), Finding::Known(second), Finding::Known(Some(physical))) => {
                assert((first + second).push(physical) =~= first + second.push(physical));
            },
            _ => {},
        }
    }
}

fn find_existing(known: &Resolutions, paths: &Vec<PathBuf>) -> (answer: Answer<Vec<PathBuf>>)
    ensures
        match existing_paths(known@, path_views(paths@)) {
            Finding::Known(list) => answer matches Answer::Known(found) && path_views(found@) == list,
            Finding::Unresolved(path) => answer matches Answer::Unresolved(p) && p@ == path,
        },
{
    let ghost all = path_views(paths@);
    let mut found: Vec<PathBuf> = Vec::new();
    let mut i: usize = 0;
    assert(all.take(0) =~= Seq::empty());
    assert(path_views(found@) =~= Seq::empty());
    while i < paths.len()
        invariant
            i <= paths.len(),
            all == path_views(paths@),
            existing_paths(known@, all.take(i as int)) == Finding::Known(path_views(found@)),
        decreases paths.len() - i,
    {
        proof {
            assert(all.take(i + 1).drop_last() =~= all.take(i as int));
            assert(all.take(i + 1).last() == paths@[i as int]@);
            if existing_paths(known@, all.take(i + 1)) is Unresolved {
                lemma_unresolved_early(known@, all, i + 1);
            }
        }
        match known.physical(&paths[i]) {
            Answer::Unresolved(path) => return Answer::Unresolved(path),
            Answer::Known(None) => {},
            Answer::Known(Some(physical)) => {
                let ghost before = path_views(found@);
                let ghost added = physical@;
                found.push(physical);
                assert(path_views(found@) =~= before.push(added));
            },
        }
        i += 1;
    }
    assert(all.take(i as int) =~= all);
    Answer::Known(found)
}

fn copy_ignores(files: &Vec<IgnoreFile>) -> (copy: Vec<IgnoreFile>)
    ensures
        ignore_views(copy@) == ignore_views(files@),
{
    let mut copy: Vec<IgnoreFile> = Vec::new();
    let mut i: usize = 0;
    while i < files.len()
        invariant
            i <= files.len(),
            copy@.len() == i,
            forall|k: int| 0 <= k < i ==> (#[trigger] copy@[k])@ == files@[k]@,
        decreases files.len() - i,
    {
        copy.push(
            IgnoreFile { root: files[i].root.clone(), lines: crate::config::copy_texts(&files[i].lines) },
        );
        i += 1;
    }
    assert(ignore_views(copy@) =~= ignore_views(files@));
    copy
}

/// The exclusions and options of a scan, ready to run.
pub open spec fn is_scanner(scanner: Scanner, opts: ScannerOptions, known: Map<Seq<u8>, Resolved>) -> bool {
    scanner.opts == opts && exclusions_of(known, scan_patterns(texts(opts.excludes@))) == Finding::Known(
        exclusion_views(scanner.matchers.exclusions@),
    )
}

impl Scanner {
    /// A scanner with these options; `Unresolved` names a path that has to be
    /// resolved first.
    pub fn new(opts: ScannerOptions, known: &Resolutions) -> (answer: Answer<Scanner>)
        ensures
            match exclusions_of(known@, scan_patterns(texts(opts.excludes@))) {
                Finding::Known(_) => answer matches Answer::Known(scanner) && is_scanner(scanner, opts, known@),
                Finding::Unresolved(path) => answer matches Answer::Unresolved(p) && p@ == path,
            },
    {
        let mut patterns: Vec<String> = Vec::new();
        patterns.push("target".to_owned());
        let mut rest = crate::config::copy_texts(&opts.excludes);
        let ghost named = texts(rest@);
        patterns.append(&mut rest);
        assert(texts(patterns@) =~= scan_patterns(texts(opts.excludes@)));
        match ExclusionMatchers::new(&patterns, known) {
            Answer::Known(matchers) => Answer::Known(Scanner { opts, matchers }),
            Answer::Unresolved(path) => Answer::Unresolved(path),
        }
    }

    /// Whether a path is excluded.
    pub fn is_excluded(&self, path: &PathBuf) -> (excluded: bool)
        ensures
            excluded == covered(exclusion_views(self.matchers.exclusions@), path@),
    {
        self.matchers.matches(path)
    }

    /// The start of a scan; `Unresolved` names a path that has to be resolved
    /// first.
    pub fn begin(&self, known: &Resolutions) -> (answer: Answer<ScanProgress>)
        ensures
            match existing_paths(known@, path_views(self.opts.roots@) + path_views(self.opts.project_dirs@)) {
                Finding::Unresolved(path) => answer matches Answer::Unresolved(p) && p@ == path,
                Finding::Known(existing) => answer matches Answer::Known(progress) && {
                    &&& path_views(progress.roots@) == path_set(existing)
                    &&& progress@.tasks == first_tasks(
                        known@,
                        path_views(self.opts.roots@),
                        path_views(self.opts.project_dirs@),
                    )
                    &&& progress@.found.len() == 0
                    &&& progress@.errors.len() == 0
                    &&& progress@.discoveries.len() == 0
                },
            },
    {
        proof {
            lemma_existing_in_parts(known@, path_views(self.opts.roots@), path_views(self.opts.project_dirs@));
        }
        let mut roots = match find_existing(known, &self.opts.roots) {
            Answer::Unresolved(path) => return Answer::Unresolved(path),
            Answer::Known(found) => found,
        };
        let mut more = match find_existing(known, &self.opts.project_dirs) {
            Answer::Unresolved(path) => return Answer::Unresolved(path),
            Answer::Known(found) => found,
        };
        let ghost first = path_views(roots@);
        let ghost second = path_views(more@);
        roots.append(&mut more);
        assert(path_views(roots@) =~= first + second);
        sort_paths(&mut roots);
        let mut tasks: Vec<ScanTask> = Vec::new();
        let ghost named = path_views(self.opts.project_dirs@).reverse().map_values(
            |path: Seq<u8>| TaskView::Named(path),
        );
        let ghost walked = path_views(self.opts.roots@).reverse().map_values(
            |path: Seq<u8>| TaskView::Directory(walked_root(known@, path), Seq::<IgnoreView>::empty()),
        );
        let n: usize = self.opts.project_dirs.len();
        let mut i: usize = 0;
        while i < n
            invariant
                i <= n == self.opts.project_dirs.len(),
                named == path_views(self.opts.project_dirs@).reverse().map_values(
                    |path: Seq<u8>| TaskView::Named(path),
                ),
                rows_view(tasks@) =~= named.take(i as int),
            decreases n - i,
        {
            push_row(&mut tasks, ScanTask::Named(self.opts.project_dirs[n - 1 - i].clone()));
            i += 1;
            assert(named.take(i as int) =~= named.take(i - 1).push(named[i - 1]));
        }
        assert(named.take(i as int) =~= named);
        let m: usize = self.opts.roots.len();
        let mut j: usize = 0;
        assert(rows_view(tasks@) =~= named + walked.take(0));
        while j < m
            invariant
                j <= m == self.opts.roots.len(),
                walked == path_views(self.opts.roots@).reverse().map_values(
                    |path: Seq<u8>| TaskView::Directory(walked_root(known@, path), Seq::<IgnoreView>::empty()),
                ),
                rows_view(tasks@) == named + walked.take(j as int),
            decreases m - j,
        {
            let root = &self.opts.roots[m - 1 - j];
            let physical = match known.physical(root) {
                Answer::Known(Some(physical)) => physical,
                _ => root.clone(),
            };
            let none: Vec<IgnoreFile> = Vec::new();
            assert(ignore_views(none@) =~= Seq::empty());
            let ghost before = rows_view(tasks@);
            push_row(&mut tasks, ScanTask::Directory(physical, none));
            j += 1;
            assert(walked.take(j as int) =~= walked.take(j - 1).push(walked[j - 1]));
            assert(rows_view(tasks@) =~= named + walked.take(j as int));
        }
        assert(walked.take(j as int) =~= walked);
        Answer::Known(
            ScanProgress { roots, tasks, found: Vec::new(), errors: Vec::new(), discoveries: Vec::new() },
        )
    }

    /// Goes on with the task to do next, as far as what has been found out for it
    /// allows.
    pub fn step(&self, progress: &mut ScanProgress, facts: &TaskFacts) -> (step: ScanStep)
        ensures
            (final(progress)@, step@) == scan_stepped(&self.matchers, old(progress)@, *facts),
    {
        let ghost before = progress@;
        if progress.tasks.len() == 0 {
            return ScanStep::Finished;
        }
        let last: usize = progress.tasks.len() - 1;
        let task = &progress.tasks[last];
        assert(before.tasks.last() == task@);
        match task {
            ScanTask::Directory(path, ignores) => {
                let ignored = match path.to_str() {
                    Some(text) => Some(is_ignored(ignores, text.as_str())),
                    None => facts.directory.ignored,
                };
                match visit_directory(&self.matchers, path, ignored, &facts.directory) {
                    DirectoryStep::Probe(probe) => ScanStep::Directory(probe),
                    DirectoryStep::Failed(message) => {
                        push_row(&mut progress.errors, new_error(path, &message));
                        pop_task(&mut progress.tasks);
                        ScanStep::TaskDone
                    },
                    DirectoryStep::Skipped => {
                        pop_task(&mut progress.tasks);
                        ScanStep::TaskDone
                    },
                    DirectoryStep::Project => {
                        let project = path.clone();
                        pop_task(&mut progress.tasks);
                        push_row(&mut progress.tasks, ScanTask::Project(project));
                        ScanStep::TaskDone
                    },
                    DirectoryStep::Descend(listed) => {
                        let below = own_ignores(path, ignores, &facts.directory.ignore_lines);
                        pop_task(&mut progress.tasks);
                        push_entries(&mut progress.tasks, &listed, &below);
                        ScanStep::TaskDone
                    },
                }
            },
            ScanTask::Problem(error) => {
                let recorded = copy_error(error);
                push_row(&mut progress.errors, recorded);
                pop_task(&mut progress.tasks);
                ScanStep::TaskDone
            },
            ScanTask::Project(path) => {
                let project = path.clone();
                self.step_project(progress, &project, &facts.project)
            },
            ScanTask::Named(path) => match facts.named_manifest {
                None => ScanStep::NamedManifest,
                Some(false) => {
                    pop_task(&mut progress.tasks);
                    ScanStep::TaskDone
                },
                Some(true) => {
                    let project = path.clone();
                    self.step_project(progress, &project, &facts.project)
                },
            },
        }
    }

    fn step_project(&self, progress: &mut ScanProgress, project: &PathBuf, facts: &ProjectFacts) -> (step: ScanStep)
        requires
            old(progress)@.tasks.len() > 0,
        ensures
            (final(progress)@, step@) == project_stepped(&self.matchers, old(progress)@, project@, *facts),
    {
        match add_cargo_project(&self.matchers, &progress.roots, project, true, facts) {
            ProjectStep::Probe(probe) => ScanStep::Project(probe),
            ProjectStep::Done(findings) => {
                let mut projects = findings.projects;
                let mut errors = findings.errors;
                let mut discoveries = findings.discoveries;
                let ghost a = path_views(progress.found@);
                let ghost b = path_views(projects@);
                progress.found.append(&mut projects);
                assert(path_views(progress.found@) =~= a + b);
                append_rows(&mut progress.errors, &mut errors);
                append_rows(&mut progress.discoveries, &mut discoveries);
                pop_task(&mut progress.tasks);
                ScanStep::TaskDone
            },
        }
    }

    /// What a scan found.
    pub fn finish(progress: ScanProgress) -> (report: ScanReport)
        ensures
            path_views(report.projects@) == path_set(progress@.found),
            rows_view(report.errors@) == progress@.errors,
            rows_view(report.worktree_discoveries@) == progress@.discoveries,
    {
        let mut projects = progress.found;
        sort_paths(&mut projects);
        ScanReport { projects, errors: progress.errors, worktree_discoveries: progress.discoveries }
    }
}

fn pop_task(tasks: &mut Vec<ScanTask>)
    requires
        old(tasks)@.len() > 0,
    ensures
        rows_view(final(tasks)@) == rows_view(old(tasks)@).drop_last(),
{
    let ghost before = rows_view(tasks@);
    tasks.pop();
    assert(rows_view(tasks@) =~= before.drop_last());
}

fn append_rows<T: View>(rows: &mut Vec<T>, more: &mut Vec<T>)
    ensures
        rows_view(final(rows)@) == rows_view(old(rows)@) + rows_view(old(more)@),
{
    let ghost a = rows_view(rows@);
    let ghost b = rows_view(more@);
    rows.append(more);
    assert(rows_view(rows@) =~= a + b);
}

fn own_ignores(directory: &PathBuf, above: &Vec<IgnoreFile>, lines: &Option<Option<Vec<String>>>) -> (below: Vec<IgnoreFile>)
    ensures
        ignore_views(below@) == ignores_below(directory@, ignore_views(above@), *lines),
{
    let mut below = copy_ignores(above);
    match lines {
        Some(Some(own)) => match directory.to_str() {
            Some(root) => {
                let ghost before = ignore_views(below@);
                let file = IgnoreFile { root, lines: crate::config::copy_texts(own) };
                let ghost added = file@;
                below.push(file);
                assert(ignore_views(below@) =~= before.push(added));
            },
            None => {},
        },
        _ => {},
    }
    below
}

fn copy_error(error: &ScanError) -> (copy: ScanError)
    ensures
        copy@ == error@,
{
    ScanError { path: error.path.clone(), message: error.message.clone(), kind: error.kind }
}

fn push_entries(tasks: &mut Vec<ScanTask>, listed: &Vec<Listed>, below: &Vec<IgnoreFile>)
    ensures
        rows_view(final(tasks)@) == rows_view(old(tasks)@) + rows_view(listed@).reverse().map_values(
            |entry: ListedView| entry_task(entry, ignore_views(below@)),
        ),
{
    let ghost start = rows_view(tasks@);
    let ghost new = rows_view(listed@).reverse().map_values(
        |entry: ListedView| entry_task(entry, ignore_views(below@)),
    );
    let n: usize = listed.len();
    let mut i: usize = 0;
    assert(rows_view(tasks@) =~= start + new.take(0));
    while i < n
        invariant
            i <= n == listed.len(),
            new == rows_view(listed@).reverse().map_values(
                |entry: ListedView| entry_task(entry, ignore_views(below@)),
            ),
            rows_view(tasks@) == start + new.take(i as int),
        decreases n - i,
    {
        let task = match &listed[n - 1 - i] {
            Listed::Directory(path) => ScanTask::Directory(path.clone(), copy_ignores(below)),
            Listed::Problem(error) => ScanTask::Problem(copy_error(error)),
        };
        assert(new[i as int] == task@);
        push_row(tasks, task);
        i += 1;
        assert(new.take(i as int) =~= new.take(i - 1).push(new[i - 1]));
        assert(rows_view(tasks@) =~= start + new.take(i as int));
    }
    assert(new.take(i as int) =~= new);
}

// ---------------------------------------------------------------------- laws

/// Whether every project that has been found is text and not excluded.
pub open spec fn finds_only_admitted(matchers: &ExclusionMatchers, found: Seq<Seq<u8>>) -> bool {
    forall|i: int|
        0 <= i < found.len() ==> valid_utf8(#[trigger] found[i]) && !covered(
            exclusion_views(matchers.exclusions@),
            found[i],
        )
}

/// No step of a scan finds an excluded project, or one whose path is no text.
pub proof fn scans_find_only_admitted(matchers: &ExclusionMatchers, progress: ProgressView, facts: TaskFacts)
    requires
        finds_only_admitted(matchers, progress.found),
    ensures
        finds_only_admitted(matchers, scan_stepped(matchers, progress, facts).0.found),
{
    if progress.tasks.len() > 0 {
        let path = match progress.tasks.last() {
            TaskView::Directory(path, _) => path,
            TaskView::Project(path) => path,
            TaskView::Named(path) => path,
            TaskView::Problem(error) => error.path,
        };
        match project_findings(matchers, progress.roots, path, true, facts.project) {
            Ok(findings) => {
                assert(finds_only_admitted(matchers, findings.projects)) by {
                    match (facts.project.physical, facts.project.worktrees) {
                        (Some(Ok(physical)), Some(Ok(candidates))) => {
                            let scope = WorktreeScope {
                                primary: physical@,
                                roots: progress.roots,
                                matchers,
                                known: facts.project.known@,
                                manifests: facts.project.manifests@,
                            };
                            linked_projects_are_in_scope(scope, path_views(candidates@));
                        },
                        _ => {},
                    }
                }
                let all = progress.found + findings.projects;
                assert forall|i: int| 0 <= i < all.len() implies valid_utf8(#[trigger] all[i]) && !covered(
                    exclusion_views(matchers.exclusions@),
                    all[i],
                ) by {
                    if i < progress.found.len() {
                        assert(all[i] == progress.found[i]);
                    } else {
                        assert(all[i] == findings.projects[i - progress.found.len()]);
                    }
                }
            },
            Err(_) => {},
        }
    }
}

} // verus!
