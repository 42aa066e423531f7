//! A directory that holds a project: whether it counts, and which linked
//! worktrees come with it.

use crate::order::{path_rank, sorted_distinct};
use crate::path::{copy_paths, path_views, paths_equal, same_path, PathBuf};
use crate::policy::scope::sort_paths;
use crate::policy::{below_any, is_below_any};
use crate::resolve::{physical_path, Answer, Finding, Resolutions, Resolved};
use crate::scanner::exclusion::{covered, exclusion_views, ExclusionMatchers};
use crate::scanner::porcelain::GitWorktreeError;
use crate::scanner::{DiscoveryView, ScanError, ScanErrorKind, ScanErrorView, WorktreeDiscovery};
use crate::store::table::{push_row, rows_view};
use vstd::prelude::*;
use vstd::utf8::*;

verus! {

/// Which directories are known to hold a manifest, and which not.
#[derive(Debug)]
pub struct Manifests {
    entries: Vec<(PathBuf, bool)>,
}

spec fn manifest_map(entries: Seq<(PathBuf, bool)>) -> Map<Seq<u8>, bool>
    decreases entries.len(),
{
    if entries.len() == 0 {
        Map::empty()
    } else {
        manifest_map(entries.drop_last()).insert(entries.last().0@, entries.last().1)
    }
}

impl View for Manifests {
    type V = Map<Seq<u8>, bool>;

    closed spec fn view(&self) -> Map<Seq<u8>, bool> {
        manifest_map(self.entries@)
    }
}

impl Manifests {
    /// Nothing known.
    pub fn new() -> (table: Self)
        ensures
            table@ == Map::<Seq<u8>, bool>::empty(),
    {
        Manifests { entries: Vec::new() }
    }

    /// Adds whether a directory holds a manifest.
    pub fn record(&mut self, directory: PathBuf, holds: bool)
        ensures
            final(self)@ == old(self)@.insert(directory@, holds),
    {
        let ghost before = self.entries@;
        self.entries.push((directory, holds));
        assert(self.entries@.drop_last() =~= before);
    }

    /// Whether a directory holds a manifest, if that is known.
    pub fn get(&self, directory: &PathBuf) -> (found: Option<bool>)
        ensures
            found is Some <==> self@.dom().contains(directory@),
            found matches Some(holds) ==> self@[directory@] == holds,
    {
        let mut n: usize = self.entries.len();
        assert(self.entries@.take(n as int) =~= self.entries@);
        while n > 0
            invariant
                n <= self.entries.len(),
                self@.dom().contains(directory@) == manifest_map(self.entries@.take(n as int)).dom().contains(
                    directory@,
                ),
                self@[directory@] == manifest_map(self.entries@.take(n as int))[directory@],
            decreases n,
        {
            proof {
                let part = self.entries@.take(n as int);
                assert(part.drop_last() =~= self.entries@.take(n - 1));
                assert(part.last() == self.entries@[n - 1]);
            }
            n -= 1;
            if self.entries[n].0.same_bytes(directory) {
                return Some(self.entries[n].1);
            }
        }
        assert(self.entries@.take(0) =~= Seq::empty());
        None
    }
}

/// What has to be found out next about a project's directory.
#[derive(Debug, PartialEq, Eq)]
pub enum ProjectProbe {
    /// The physical path of the directory.
    Physical,
    /// Whether the physical directory holds a repository of its own.
    Repository,
    /// Whether the physical directory holds a manifest.
    Manifest,
    /// What asking the repository for its worktrees gives.
    Worktrees,
    /// The physical path of this worktree.
    Resolve(PathBuf),
    /// Whether this directory holds a manifest.
    HasManifest(PathBuf),
}

/// The contents of a probe.
pub enum ProbeView {
    Physical,
    Repository,
    Manifest,
    Worktrees,
    Resolve(Seq<u8>),
    HasManifest(Seq<u8>),
}

impl View for ProjectProbe {
    type V = ProbeView;

    open spec fn view(&self) -> ProbeView {
        match self {
            ProjectProbe::Physical => ProbeView::Physical,
            ProjectProbe::Repository => ProbeView::Repository,
            ProjectProbe::Manifest => ProbeView::Manifest,
            ProjectProbe::Worktrees => ProbeView::Worktrees,
            ProjectProbe::Resolve(path) => ProbeView::Resolve(path@),
            ProjectProbe::HasManifest(path) => ProbeView::HasManifest(path@),
        }
    }
}

/// What has been found out about a project's directory.
#[derive(Debug)]
pub struct ProjectFacts {
    pub physical: Option<Result<PathBuf, String>>,
    pub repository: Option<bool>,
    pub manifest: Option<bool>,
    pub worktrees: Option<Result<Vec<PathBuf>, GitWorktreeError>>,
    pub known: Resolutions,
    pub manifests: Manifests,
}

impl ProjectFacts {
    /// Nothing found out.
    pub fn new() -> (facts: ProjectFacts)
        ensures
            facts.physical is None,
            facts.repository is None,
            facts.manifest is None,
            facts.worktrees is None,
            facts.known@ == Map::<Seq<u8>, Resolved>::empty(),
            facts.manifests@ == Map::<Seq<u8>, bool>::empty(),
    {
        ProjectFacts {
            physical: None,
            repository: None,
            manifest: None,
            worktrees: None,
            known: Resolutions::new(),
            manifests: Manifests::new(),
        }
    }
}

/// What a directory adds to a scan.
#[derive(Debug, PartialEq, Eq)]
pub struct Findings {
    pub projects: Vec<PathBuf>,
    pub discoveries: Vec<WorktreeDiscovery>,
    pub errors: Vec<ScanError>,
}

/// The contents of findings.
pub struct FindingsView {
    pub projects: Seq<Seq<u8>>,
    pub discoveries: Seq<DiscoveryView>,
    pub errors: Seq<ScanErrorView>,
}

impl View for Findings {
    type V = FindingsView;

    open spec fn view(&self) -> FindingsView {
        FindingsView {
            projects: path_views(self.projects@),
            discoveries: rows_view(self.discoveries@),
            errors: rows_view(self.errors@),
        }
    }
}

/// The next step with a project's directory.
#[derive(Debug, PartialEq, Eq)]
pub enum ProjectStep {
    Probe(ProjectProbe),
    Done(Findings),
}

/// Whether a step is the specified one.
pub open spec fn is_project_step(step: ProjectStep, specified: Result<FindingsView, ProbeView>) -> bool {
    match specified {
        Ok(findings) => step matches ProjectStep::Done(f) && f@ == findings,
        Err(probe) => step matches ProjectStep::Probe(p) && p@ == probe,
    }
}

/// Nothing found.
pub open spec fn no_findings() -> FindingsView {
    FindingsView { projects: Seq::empty(), discoveries: Seq::empty(), errors: Seq::empty() }
}

/// What is recorded where a repository could not be asked for its worktrees.
pub open spec fn discovery_failed(projects: Seq<Seq<u8>>, primary: Seq<u8>, message: Seq<char>) -> FindingsView {
    FindingsView {
        projects,
        discoveries: seq![DiscoveryView::Failure { primary, message }],
        errors: seq![ScanErrorView { path: primary, message, kind: ScanErrorKind::WorktreeDiscovery }],
    }
}

/// What is recorded where a directory could not be read.
pub open spec fn scan_failed(path: Seq<u8>, message: Seq<char>) -> FindingsView {
    FindingsView {
        projects: Seq::empty(),
        discoveries: Seq::empty(),
        errors: seq![ScanErrorView { path, message, kind: ScanErrorKind::Scan }],
    }
}

/// What is said of a worktree whose path is no text.
pub open spec fn non_utf8_discovery_text() -> Seq<char> {
    "git worktree discovery returned a non-UTF-8 path that cannot be persisted safely"@
}

/// What is said of a project whose path is no text.
pub open spec fn non_utf8_scan_text() -> Seq<char> {
    "project path is non-UTF-8 and cannot be persisted safely"@
}

// ----------------------------------------------------------------- worktrees

/// How far the worktrees have been sorted.
pub enum Sorting {
    Running,
    Failed,
    Waiting(ProbeView),
}

/// The worktrees that have been sorted.
pub struct Sorted {
    pub linked: Seq<Seq<u8>>,
    pub excluded: Seq<Seq<u8>>,
    pub out_of_scope: Seq<Seq<u8>>,
    pub state: Sorting,
}

/// What decides where a worktree belongs.
pub struct WorktreeScope<'a> {
    pub primary: Seq<u8>,
    pub roots: Seq<PathBuf>,
    pub matchers: &'a ExclusionMatchers,
    pub known: Map<Seq<u8>, Resolved>,
    pub manifests: Map<Seq<u8>, bool>,
}

/// One more worktree sorted: it does not count where it does not exist or is the
/// primary checkout; otherwise it is out of scope, excluded, or linked where it
/// holds a manifest.
pub open spec fn worktree_sorted(scope: WorktreeScope<'_>, sorted: Sorted, candidate: Seq<u8>) -> Sorted {
    if !(sorted.state is Running) {
        sorted
    } else {
        match physical_path(scope.known, candidate) {
            Finding::Unresolved(path) => Sorted { state: Sorting::Waiting(ProbeView::Resolve(path)), ..sorted },
            Finding::Known(None) => sorted,
            Finding::Known(Some(physical)) => if !valid_utf8(physical) {
                Sorted { state: Sorting::Failed, ..sorted }
            } else if same_path(physical, scope.primary) {
                sorted
            } else if !below_any(physical, scope.roots) {
                Sorted { out_of_scope: sorted.out_of_scope.push(physical), ..sorted }
            } else if covered(exclusion_views(scope.matchers.exclusions@), physical) {
                Sorted { excluded: sorted.excluded.push(physical), ..sorted }
            } else if !scope.manifests.dom().contains(physical) {
                Sorted { state: Sorting::Waiting(ProbeView::HasManifest(physical)), ..sorted }
            } else if scope.manifests[physical] {
                Sorted { linked: sorted.linked.push(physical), ..sorted }
            } else {
                sorted
            },
        }
    }
}

/// Several worktrees sorted.
pub open spec fn worktrees_sorted(scope: WorktreeScope<'_>, candidates: Seq<Seq<u8>>) -> Sorted
    decreases candidates.len(),
{
    if candidates.len() == 0 {
        Sorted {
            linked: Seq::empty(),
            excluded: Seq::empty(),
            out_of_scope: Seq::empty(),
            state: Sorting::Running,
        }
    } else {
        worktree_sorted(scope, worktrees_sorted(scope, candidates.drop_last()), candidates.last())
    }
}

/// The paths in order, each once.
pub open spec fn path_set(paths: Seq<Seq<u8>>) -> Seq<Seq<u8>> {
    sorted_distinct(paths, |path: Seq<u8>| path_rank(path))
}

/// Whether some path is no text.
pub open spec fn some_not_text(paths: Seq<Seq<u8>>) -> bool {
    exists|i: int| 0 <= i < paths.len() && !valid_utf8(#[trigger] paths[i])
}

/// What the worktrees of a repository add to a scan.
pub open spec fn linked_findings(scope: WorktreeScope<'_>, candidates: Seq<Seq<u8>>) -> Result<FindingsView, ProbeView> {
    if some_not_text(candidates) {
        Ok(discovery_failed(Seq::empty(), scope.primary, non_utf8_discovery_text()))
    } else {
        let sorted = worktrees_sorted(scope, candidates);
        match sorted.state {
            Sorting::Waiting(probe) => Err(probe),
            Sorting::Failed => Ok(discovery_failed(sorted.linked, scope.primary, non_utf8_discovery_text())),
            Sorting::Running => Ok(
                FindingsView {
                    projects: sorted.linked,
                    discoveries: seq![
                        DiscoveryView::Success {
                            primary: scope.primary,
                            linked: path_set(sorted.linked),
                            excluded: path_set(sorted.excluded),
                            out_of_scope: path_set(sorted.out_of_scope),
                        },
                    ],
                    errors: Seq::empty(),
                },
            ),
        }
    }
}

/// What a project's directory adds to a scan, or what has to be found out first.
pub open spec fn project_findings(
    matchers: &ExclusionMatchers,
    roots: Seq<PathBuf>,
    project: Seq<u8>,
    honor_excludes: bool,
    facts: ProjectFacts,
) -> Result<FindingsView, ProbeView> {
    match facts.physical {
        None => Err(ProbeView::Physical),
        Some(Err(message)) => Ok(scan_failed(project, message@)),
        Some(Ok(physical)) => if !valid_utf8(physical@) {
            match facts.repository {
                None => Err(ProbeView::Repository),
                Some(true) => Ok(discovery_failed(Seq::empty(), physical@, non_utf8_discovery_text())),
                Some(false) => Ok(scan_failed(physical@, non_utf8_scan_text())),
            }
        } else if honor_excludes && covered(exclusion_views(matchers.exclusions@), physical@) {
            Ok(no_findings())
        } else {
            match (facts.manifest, facts.repository) {
                (None, _) => Err(ProbeView::Manifest),
                (Some(false), _) => Ok(no_findings()),
                (Some(true), None) => Err(ProbeView::Repository),
                (Some(true), Some(false)) => Ok(FindingsView { projects: seq![physical@], ..no_findings() }),
                (Some(true), Some(true)) => match facts.worktrees {
                    None => Err(ProbeView::Worktrees),
                    Some(Err(error)) => Ok(discovery_failed(seq![physical@], physical@, error.text())),
                    Some(Ok(candidates)) => match linked_findings(
                        WorktreeScope {
                            primary: physical@,
                            roots,
                            matchers,
                            known: facts.known@,
                            manifests: facts.manifests@,
                        },
                        path_views(candidates@),
                    ) {
                        Err(probe) => Err(probe),
                        Ok(more) => Ok(FindingsView { projects: seq![physical@] + more.projects, ..more }),
                    },
                },
            }
        },
    }
}

fn failure_findings(projects: Vec<PathBuf>, primary: &PathBuf, message: &str) -> (findings: Findings)
    ensures
        findings@ == discovery_failed(path_views(projects@), primary@, message@),
{
    let mut discoveries: Vec<WorktreeDiscovery> = Vec::new();
    let mut errors: Vec<ScanError> = Vec::new();
    assert(rows_view(discoveries@) =~= Seq::empty());
    assert(rows_view(errors@) =~= Seq::empty());
    push_row(
        &mut discoveries,
        WorktreeDiscovery::Failure { primary: primary.clone(), message: message.to_owned() },
    );
    push_row(
        &mut errors,
        ScanError {
            path: primary.clone(),
            message: message.to_owned(),
            kind: ScanErrorKind::WorktreeDiscovery,
        },
    );
    let findings = Findings { projects, discoveries, errors };
    assert(findings@.discoveries =~= seq![
        DiscoveryView::Failure { primary: primary@, message: message@ },
    ]);
    assert(findings@.errors =~= seq![
        ScanErrorView { path: primary@, message: message@, kind: ScanErrorKind::WorktreeDiscovery },
    ]);
    findings
}

fn error_findings(path: &PathBuf, message: &str) -> (findings: Findings)
    ensures
        findings@ == scan_failed(path@, message@),
{
    let mut errors: Vec<ScanError> = Vec::new();
    assert(rows_view(errors@) =~= Seq::empty());
    push_row(
        &mut errors,
        ScanError { path: path.clone(), message: message.to_owned(), kind: ScanErrorKind::Scan },
    );
    let findings = Findings { projects: Vec::new(), discoveries: Vec::new(), errors };
    assert(findings@.projects =~= Seq::empty());
    assert(findings@.discoveries =~= Seq::empty());
    assert(findings@.errors =~= seq![
        ScanErrorView { path: path@, message: message@, kind: ScanErrorKind::Scan },
    ]);
    findings
}

fn empty_findings() -> (findings: Findings)
    ensures
        findings@ == no_findings(),
{
    let findings = Findings { projects: Vec::new(), discoveries: Vec::new(), errors: Vec::new() };
    assert(findings@.projects =~= Seq::empty());
    assert(findings@.discoveries =~= Seq::empty());
    assert(findings@.errors =~= Seq::empty());
    findings
}

fn has_non_text(paths: &Vec<PathBuf>) -> (found: bool)
    ensures
        found == some_not_text(path_views(paths@)),
{
    let mut i: usize = 0;
    while i < paths.len()
        invariant
            i <= paths.len(),
            forall|k: int| 0 <= k < i ==> valid_utf8(#[trigger] path_views(paths@)[k]),
        decreases paths.len() - i,
    {
        if paths[i].to_str().is_none() {
            assert(!valid_utf8(path_views(paths@)[i as int]));
            return true;
        }
        i += 1;
    }
    false
}

fn push_path(paths: &mut Vec<PathBuf>, path: &PathBuf)
    ensures
        path_views(final(paths)@) == path_views(old(paths)@).push(path@),
{
    let ghost before = path_views(paths@);
    paths.push(path.clone());
    assert(path_views(paths@) =~= before.push(path@));
}

proof fn lemma_sorting_stops(scope: WorktreeScope<'_>, candidates: Seq<Seq<u8>>, n: int)
    requires
        0 <= n <= candidates.len(),
        !(worktrees_sorted(scope, candidates.take(n)).state is Running),
    ensures
        worktrees_sorted(scope, candidates) == worktrees_sorted(scope, candidates.take(n)),
    decreases candidates.len() - n,
{
    if n < candidates.len() {
        assert(candidates.take(n + 1).drop_last() =~= candidates.take(n));
        lemma_sorting_stops(scope, candidates, n + 1);
    } else {
        assert(candidates.take(n) =~= candidates);
    }
}

fn discover_linked_worktrees(
    matchers: &ExclusionMatchers,
    roots: &Vec<PathBuf>,
    primary: &PathBuf,
    candidates: &Vec<PathBuf>,
    facts: &ProjectFacts,
) -> (step: ProjectStep)
    ensures
        is_project_step(
            step,
            linked_findings(
                (WorktreeScope {
                    primary: primary@,
                    roots: roots@,
                    matchers,
                    known: facts.known@,
                    manifests: facts.manifests@,
                }),
                path_views(candidates@),
            ),
        ),
{
    let ghost scope = WorktreeScope {
        primary: primary@,
        roots: roots@,
        matchers,
        known: facts.known@,
        manifests: facts.manifests@,
    };
    if has_non_text(candidates) {
        let none: Vec<PathBuf> = Vec::new();
        assert(path_views(none@) =~= Seq::empty());
        return ProjectStep::Done(
            failure_findings(
                none,
                primary,
                "git worktree discovery returned a non-UTF-8 path that cannot be persisted safely",
            ),
        );
    }
    let ghost all = path_views(candidates@);
    let mut linked: Vec<PathBuf> = Vec::new();
    let mut excluded: Vec<PathBuf> = Vec::new();
    let mut out_of_scope: Vec<PathBuf> = Vec::new();
    let mut i: usize = 0;
    assert(all.take(0) =~= Seq::empty());
    assert(path_views(linked@) =~= Seq::empty());
    assert(path_views(excluded@) =~= Seq::empty());
    assert(path_views(out_of_scope@) =~= Seq::empty());
    while i < candidates.len()
        invariant
            i <= candidates.len(),
            all == path_views(candidates@),
            !some_not_text(all),
            scope == (WorktreeScope {
                primary: primary@,
                roots: roots@,
                matchers,
                known: facts.known@,
                manifests: facts.manifests@,
            }),
            worktrees_sorted(scope, all.take(i as int)) == (Sorted {
                linked: path_views(linked@),
                excluded: path_views(excluded@),
                out_of_scope: path_views(out_of_scope@),
                state: Sorting::Running,
            }),
        decreases candidates.len() - i,
    {
        proof {
            assert(all.take(i + 1).drop_last() =~= all.take(i as int));
            assert(all.take(i + 1).last() == candidates@[i as int]@);
            if !(worktrees_sorted(scope, all.take(i + 1)).state is Running) {
                lemma_sorting_stops(scope, all, i + 1);
            }
        }
        match facts.known.physical(&candidates[i]) {
            Answer::Unresolved(path) => return ProjectStep::Probe(ProjectProbe::Resolve(path)),
            Answer::Known(None) => {},
            Answer::Known(Some(physical)) => {
                if physical.to_str().is_none() {
                    return ProjectStep::Done(
                        failure_findings(
                            linked,
                            primary,
                            "git worktree discovery returned a non-UTF-8 path that cannot be persisted safely",
                        ),
                    );
                }
                if paths_equal(&physical, primary) {
                } else if !is_below_any(&physical, roots) {
                    push_path(&mut out_of_scope, &physical);
                } else if matchers.matches(&physical) {
                    push_path(&mut excluded, &physical);
                } else {
                    match facts.manifests.get(&physical) {
                        None => return ProjectStep::Probe(ProjectProbe::HasManifest(physical)),
                        Some(true) => push_path(&mut linked, &physical),
                        Some(false) => {},
                    }
                }
            },
        }
        i += 1;
    }
    assert(all.take(i as int) =~= all);
    let projects = copy_paths(&linked);
    sort_paths(&mut linked);
    sort_paths(&mut excluded);
    sort_paths(&mut out_of_scope);
    let mut discoveries: Vec<WorktreeDiscovery> = Vec::new();
    assert(rows_view(discoveries@) =~= Seq::empty());
    push_row(
        &mut discoveries,
        WorktreeDiscovery::Success { primary: primary.clone(), linked, excluded, out_of_scope },
    );
    let findings = Findings { projects, discoveries, errors: Vec::new() };
    proof {
        let sorted = worktrees_sorted(scope, all);
        assert(findings@.errors =~= Seq::empty());
        assert(findings@.discoveries =~= seq![
            DiscoveryView::Success {
                primary: scope.primary,
                linked: path_set(sorted.linked),
                excluded: path_set(sorted.excluded),
                out_of_scope: path_set(sorted.out_of_scope),
            },
        ]);
    }
    ProjectStep::Done(findings)
}

/// The next step with a project's directory.
pub fn add_cargo_project(
    matchers: &ExclusionMatchers,
    roots: &Vec<PathBuf>,
    project: &PathBuf,
    honor_excludes: bool,
    facts: &ProjectFacts,
) -> (step: ProjectStep)
    ensures
        is_project_step(step, project_findings(matchers, roots@, project@, honor_excludes, *facts)),
{
    let physical = match &facts.physical {
        None => return ProjectStep::Probe(ProjectProbe::Physical),
        Some(Err(message)) => return ProjectStep::Done(error_findings(project, message.as_str())),
        Some(Ok(physical)) => physical,
    };
    if physical.to_str().is_none() {
        return match facts.repository {
            None => ProjectStep::Probe(ProjectProbe::Repository),
            Some(true) => {
                let none: Vec<PathBuf> = Vec::new();
                assert(path_views(none@) =~= Seq::empty());
                ProjectStep::Done(
                    failure_findings(
                        none,
                        physical,
                        "git worktree discovery returned a non-UTF-8 path that cannot be persisted safely",
                    ),
                )
            },
            Some(false) => ProjectStep::Done(
                error_findings(physical, "project path is non-UTF-8 and cannot be persisted safely"),
            ),
        };
    }
    if honor_excludes && matchers.matches(physical) {
        return ProjectStep::Done(empty_findings());
    }
    match facts.manifest {
        None => return ProjectStep::Probe(ProjectProbe::Manifest),
        Some(false) => return ProjectStep::Done(empty_findings()),
        Some(true) => {},
    }
    let mut own: Vec<PathBuf> = Vec::new();
    own.push(physical.clone());
    assert(path_views(own@) =~= seq![physical@]);
    match facts.repository {
        None => ProjectStep::Probe(ProjectProbe::Repository),
        Some(false) => {
            let findings = Findings { projects: own, discoveries: Vec::new(), errors: Vec::new() };
            assert(findings@.discoveries =~= Seq::empty());
            assert(findings@.errors =~= Seq::empty());
            ProjectStep::Done(findings)
        },
        Some(true) => match &facts.worktrees {
            None => ProjectStep::Probe(ProjectProbe::Worktrees),
            Some(Err(error)) => ProjectStep::Done(failure_findings(own, physical, error.message())),
            Some(Ok(candidates)) => match discover_linked_worktrees(matchers, roots, physical, candidates, facts) {
                ProjectStep::Probe(probe) => ProjectStep::Probe(probe),
                ProjectStep::Done(more) => {
                    let ghost rest = path_views(more.projects@);
                    let mut found = more.projects;
                    own.append(&mut found);
                    assert(path_views(own@) =~= seq![physical@] + rest);
                    ProjectStep::Done(
                        Findings { projects: own, discoveries: more.discoveries, errors: more.errors },
                    )
                },
            },
        },
    }
}

// ---------------------------------------------------------------------- laws

/// Only worktrees below a scan root that no exclusion covers become projects.
pub proof fn linked_projects_are_in_scope(scope: WorktreeScope<'_>, candidates: Seq<Seq<u8>>)
    ensures
        forall|i: int|
            0 <= i < worktrees_sorted(scope, candidates).linked.len() ==> {
                let path = #[trigger] worktrees_sorted(scope, candidates).linked[i];
                below_any(path, scope.roots) && !covered(exclusion_views(scope.matchers.exclusions@), path)
                    && !same_path(path, scope.primary) && valid_utf8(path)
            },
    decreases candidates.len(),
{
    if candidates.len() > 0 {
        linked_projects_are_in_scope(scope, candidates.drop_last());
    }
}

} // verus!
