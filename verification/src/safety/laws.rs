//! What keeps a project from being cleaned, each thing by itself.

use crate::activity::ActivitySignal;
use crate::path::{path_components, path_join, path_starts_with, same_path, PathBuf};
use crate::policy::occurs_at;
use crate::resolve::{physical_path, Finding, Resolved};
use crate::safety::review::{
    is_project_step, is_review_step, related_scan_error, target_of, ReviewFacts, ReviewProbe, ReviewStep, TargetEntry,
};
use crate::safety::tree::{entry_newest, entry_size, tree_newest, tree_size, TreeEntry};
use crate::safety::{
    class_by_names, cleanable_bytes_in, cleanable_in, contains_run, name_texts, project_class, skipped_in, summarizes,
    CleanDecision, ProjectClass, ProjectReview, ReviewSummary, SafetyOptions, SkipReason,
};
use crate::storage::{first_root, lies_in_root, protected_roots, HostPlatform, ProtectedKind};
use vstd::prelude::*;
use vstd::utf8::{encode_utf8, is_ascii_chars_encode_utf8};

verus! {

/// Whether a step ends a review with the project cleanable.
pub open spec fn admits(step: ReviewStep) -> bool {
    step matches ReviewStep::Reviewed(review) && review.decision == CleanDecision::Cleanable
}

/// Whether a step skips the project for a reason.
pub open spec fn skips(step: ReviewStep, reason: SkipReason) -> bool {
    step matches ReviewStep::Reviewed(review) && review.decision == CleanDecision::Skipped(reason)
}

/// A path that a scan could not read holds back every project at, above or below it,
/// and every project whose target directory is: unless a review is forced it never
/// admits one.
pub proof fn scan_errors_hold_back_their_relatives(
    step: ReviewStep,
    project: Seq<u8>,
    home: Seq<u8>,
    platform: HostPlatform,
    known: Map<Seq<u8>, Resolved>,
    errors: Seq<PathBuf>,
    blocks: Seq<PathBuf>,
    activity: Seq<ActivitySignal>,
    now: int,
    opts: SafetyOptions,
    facts: ReviewFacts,
    i: int,
)
    requires
        is_project_step(step, project, home, platform, known, errors, blocks, activity, now, opts, facts),
        !opts.force,
        0 <= i < errors.len(),
        path_starts_with(errors[i]@, project) || path_starts_with(project, errors[i]@) || path_starts_with(
            errors[i]@,
            path_join(project, encode_utf8("target"@)),
        ) || path_starts_with(path_join(project, encode_utf8("target"@)), errors[i]@),
    ensures
        !admits(step),
{
    assert(related_scan_error(project, errors));
}

/// A checkout that discovery blocks, by its path or physically, is never admitted
/// unless the review is forced.
pub proof fn blocked_checkouts_are_held_back(
    step: ReviewStep,
    project: Seq<u8>,
    home: Seq<u8>,
    platform: HostPlatform,
    known: Map<Seq<u8>, Resolved>,
    errors: Seq<PathBuf>,
    blocks: Seq<PathBuf>,
    activity: Seq<ActivitySignal>,
    now: int,
    opts: SafetyOptions,
    facts: ReviewFacts,
    i: int,
)
    requires
        is_project_step(step, project, home, platform, known, errors, blocks, activity, now, opts, facts),
        !opts.force,
        0 <= i < blocks.len(),
        same_path(project, blocks[i]@) || (facts.blocked_path matches Some(Some(physical)) && same_path(
            physical@,
            blocks[i]@,
        )),
    ensures
        !admits(step),
{
}

/// A project in which a process works is never admitted, unless that is asked for or
/// the review is forced.
pub proof fn processes_hold_their_project_back(
    step: ReviewStep,
    project: Seq<u8>,
    home: Seq<u8>,
    platform: HostPlatform,
    known: Map<Seq<u8>, Resolved>,
    errors: Seq<PathBuf>,
    blocks: Seq<PathBuf>,
    activity: Seq<ActivitySignal>,
    now: int,
    opts: SafetyOptions,
    facts: ReviewFacts,
    i: int,
)
    requires
        is_project_step(step, project, home, platform, known, errors, blocks, activity, now, opts, facts),
        !opts.force,
        !opts.include_active,
        0 <= i < activity.len(),
        path_starts_with(activity[i].project_path@, project),
    ensures
        !admits(step),
{
}

/// A project is never admitted whose target was written less than the quiet period
/// ago, or in the future, or could not be read for its newest write, unless the review
/// is forced.
pub proof fn recent_writes_hold_back(
    step: ReviewStep,
    project: Seq<u8>,
    home: Seq<u8>,
    platform: HostPlatform,
    known: Map<Seq<u8>, Resolved>,
    errors: Seq<PathBuf>,
    blocks: Seq<PathBuf>,
    activity: Seq<ActivitySignal>,
    now: int,
    opts: SafetyOptions,
    facts: ReviewFacts,
)
    requires
        is_project_step(step, project, home, platform, known, errors, blocks, activity, now, opts, facts),
        !opts.force,
        match facts.newest_write {
            Some(None) => true,
            Some(Some(Some(newest))) => now - newest@ < opts.target_quiet_period@ && 0 < opts.target_quiet_period@,
            _ => false,
        },
    ensures
        !admits(step),
{
}

/// Nothing is ever admitted, forced or not, without a manifest, a project and a target
/// that are plain, both on one device and one mount, and a target that could be
/// measured; and what is admitted has a physical path.
pub proof fn broken_projects_are_held_back(
    step: ReviewStep,
    project: Seq<u8>,
    home: Seq<u8>,
    platform: HostPlatform,
    known: Map<Seq<u8>, Resolved>,
    errors: Seq<PathBuf>,
    blocks: Seq<PathBuf>,
    activity: Seq<ActivitySignal>,
    now: int,
    opts: SafetyOptions,
    facts: ReviewFacts,
)
    requires
        is_project_step(step, project, home, platform, known, errors, blocks, activity, now, opts, facts),
        admits(step),
    ensures
        facts.manifest == Some(true),
        facts.project_directory == Some(true),
        facts.target_entry == Some(TargetEntry::Directory),
        facts.project_identity matches Some(Some(p)) && facts.target_identity matches Some(Some(t)) && p.device == t.device
            && p.mount.0@ == t.mount.0@,
        facts.target_bytes matches Some(Some(bytes)) && step->Reviewed_0.target_bytes == bytes,
        facts.canonical_path matches Some(Some(physical)) && step->Reviewed_0.canonical_path matches Some(recorded)
            && recorded@ == physical@,
        step->Reviewed_0.path@ == project,
        step->Reviewed_0.target_path@ == path_join(project, encode_utf8("target"@)),
        step->Reviewed_0.reviewed_identity matches Some(seen) && facts.project_identity == Some(Some(seen.project))
            && facts.target_identity == Some(Some(seen.target)) && facts.boot_session == Some(seen.boot_session),
{
}

/// A project with nothing against it is admitted: one in a workspace whose manifest,
/// directories and identities are in place, with no scan error above or below it, not
/// blocked, without a process in it and quiet for long enough.
pub proof fn quiet_projects_are_admitted(
    step: ReviewStep,
    project: Seq<u8>,
    home: Seq<u8>,
    platform: HostPlatform,
    known: Map<Seq<u8>, Resolved>,
    errors: Seq<PathBuf>,
    blocks: Seq<PathBuf>,
    activity: Seq<ActivitySignal>,
    now: int,
    opts: SafetyOptions,
    facts: ReviewFacts,
)
    requires
        is_project_step(step, project, home, platform, known, errors, blocks, activity, now, opts, facts),
        project_class(known, project, home, platform) == Finding::Known(ProjectClass::Workspace),
        facts.manifest == Some(true),
        facts.project_directory == Some(true),
        facts.target_entry == Some(TargetEntry::Directory),
        facts.project_identity matches Some(Some(p)) && facts.target_identity matches Some(Some(t)) && p.device == t.device
            && p.mount.0@ == t.mount.0@,
        facts.boot_session is Some,
        facts.target_bytes matches Some(Some(_)),
        forall|i: int|
            0 <= i < errors.len() ==> !path_starts_with((#[trigger] errors[i])@, project) && !path_starts_with(
                project,
                errors[i]@,
            ) && !path_starts_with(errors[i]@, target_of(project)) && !path_starts_with(target_of(project), errors[i]@),
        forall|i: int| 0 <= i < blocks.len() ==> !same_path(project, (#[trigger] blocks[i])@),
        facts.blocked_path matches Some(physical) && (physical matches Some(p) ==> forall|i: int|
            0 <= i < blocks.len() ==> !same_path(p@, (#[trigger] blocks[i])@)),
        forall|i: int| 0 <= i < activity.len() ==> !path_starts_with((#[trigger] activity[i]).project_path@, project),
        facts.newest_write matches Some(Some(newest)) && (newest matches Some(time) ==> time@ <= now && now - time@
            >= opts.target_quiet_period@),
        facts.canonical_path matches Some(Some(_)),
    ensures
        admits(step),
{
}

/// Each gate names its reason, in their order: manifest, project, target, devices and
/// mounts, measuring, storage, scan errors, processes, writes.
pub proof fn gates_name_their_reason(
    step: ReviewStep,
    project: Seq<u8>,
    class: ProjectClass,
    errors: Seq<PathBuf>,
    blocks: Seq<PathBuf>,
    activity: Seq<ActivitySignal>,
    now: int,
    opts: SafetyOptions,
    facts: ReviewFacts,
)
    requires
        is_review_step(step, project, class, errors, blocks, activity, now, opts, facts),
        facts.canonical_path matches Some(Some(_)),
    ensures
        facts.manifest == Some(false) ==> skips(step, SkipReason::InvalidManifest),
        facts.manifest is None ==> step == ReviewStep::Probe(ReviewProbe::Manifest),
        facts.manifest == Some(true) && facts.project_directory == Some(false) ==> skips(
            step,
            SkipReason::ProjectIdentityUnavailable,
        ),
        facts.manifest == Some(true) && facts.project_directory == Some(true) ==> {
            &&& facts.project_identity == Some(None::<crate::identity::FilesystemIdentity>) ==> skips(
                step,
                SkipReason::ProjectIdentityUnavailable,
            )
            &&& facts.project_identity matches Some(Some(p)) ==> {
                &&& facts.target_entry == Some(TargetEntry::Missing) ==> skips(step, SkipReason::NoTarget)
                &&& facts.target_entry == Some(TargetEntry::Other) ==> skips(step, SkipReason::TargetIdentityUnavailable)
                &&& facts.target_entry == Some(TargetEntry::Directory) ==> {
                    &&& facts.target_identity == Some(None::<crate::identity::FilesystemIdentity>) ==> skips(
                        step,
                        SkipReason::TargetIdentityUnavailable,
                    )
                    &&& facts.target_identity matches Some(Some(t)) ==> {
                        &&& p.device != t.device ==> skips(step, SkipReason::CrossDeviceTarget)
                        &&& p.device == t.device && p.mount.0@ != t.mount.0@ ==> skips(step, SkipReason::CrossMountTarget)
                        &&& p.device == t.device && p.mount.0@ == t.mount.0@ && facts.boot_session is Some ==> {
                            &&& facts.target_bytes == Some(None::<u64>) ==> skips(step, SkipReason::TargetReadError)
                            &&& facts.target_bytes matches Some(Some(_)) ==> {
                                &&& class == ProjectClass::ManagedCache && !opts.include_managed_cache ==> skips(
                                    step,
                                    SkipReason::ManagedCache,
                                )
                                &&& class == ProjectClass::ContainerStorage && !opts.include_managed_cache ==> skips(
                                    step,
                                    SkipReason::ContainerStorage,
                                )
                                &&& opts.include_managed_cache && opts.force ==> admits(step)
                            }
                        }
                    }
                }
            }
        },
{
}

// ------------------------------------------------------------ classification

proof fn lemma_first_root(
    known: Map<Seq<u8>, Resolved>,
    path: Seq<u8>,
    physical: Option<Seq<u8>>,
    roots: Seq<(Seq<u8>, ProtectedKind)>,
    i: int,
)
    requires
        0 <= i < roots.len(),
        lies_in_root(known, path, physical, roots[i].0) == Finding::<bool>::Known(true),
    ensures
        first_root(known, path, physical, roots) is Unresolved || first_root(known, path, physical, roots) matches Finding::Known(
            Some(_),
        ),
    decreases roots.len(),
{
    if i > 0 {
        assert(roots.drop_first()[i - 1] == roots[i]);
        lemma_first_root(known, path, physical, roots.drop_first(), i - 1);
    }
}

/// A project that lies in a protected directory of the home directory, as it is
/// written or physically, is never taken for one in a workspace.
pub proof fn protected_projects_are_no_workspace(
    known: Map<Seq<u8>, Resolved>,
    path: Seq<u8>,
    home: Seq<u8>,
    platform: HostPlatform,
    i: int,
)
    requires
        0 <= i < protected_roots(home, platform).len(),
        path_starts_with(path, protected_roots(home, platform)[i].0) || (physical_path(known, path) matches Finding::Known(
            Some(physical),
        ) && (path_starts_with(physical, protected_roots(home, platform)[i].0) || (physical_path(
            known,
            protected_roots(home, platform)[i].0,
        ) matches Finding::Known(Some(root)) && path_starts_with(physical, root)))),
    ensures
        project_class(known, path, home, platform) != Finding::Known(ProjectClass::Workspace),
{
    if let Finding::Known(physical) = physical_path(known, path) {
        lemma_first_root(known, path, physical, protected_roots(home, platform), i);
    }
}

/// Whether a directory of the home directory holds the storage of containers.
pub open spec fn holds_containers(relative: Seq<char>) -> bool {
    relative == ".colima"@ || relative == ".lima"@ || relative == ".local/share/containers"@ || relative == "OrbStack"@
        || relative == ".local/share/docker"@ || relative == ".docker/desktop"@ || relative
        == ".local/share/rancher-desktop"@
}

/// The caches of the toolchain and of other package managers, and the storage of
/// containers, are protected below every absolute home directory, each as what it is.
pub proof fn caches_and_containers_are_protected(home: Seq<u8>, platform: HostPlatform, relative: Seq<char>)
    requires
        crate::path::is_absolute_path(home),
        relative == ".cargo"@ || relative == ".rustup"@ || relative == ".cache"@ || relative == ".bun/install/cache"@
            || relative == "go/pkg/mod"@ || relative == ".colima"@ || relative == ".lima"@ || relative
            == ".local/share/containers"@ || (platform == HostPlatform::MacOs && (relative == "Library"@ || relative
            == ".Trash"@ || relative == "OrbStack"@)) || (platform == HostPlatform::Linux && (relative
            == ".local/share/docker"@ || relative == ".docker/desktop"@ || relative == ".local/share/rancher-desktop"@
            || relative == ".local/share/Trash"@)),
    ensures
        exists|i: int|
            0 <= i < protected_roots(home, platform).len() && #[trigger] protected_roots(home, platform)[i] == (
                path_join(home, encode_utf8(relative)),
                if holds_containers(relative) {
                    ProtectedKind::ContainerStorage
                } else {
                    ProtectedKind::ManagedCache
                },
            ),
{
    reveal_strlit(".cargo");
    reveal_strlit(".rustup");
    reveal_strlit(".cache");
    reveal_strlit(".bun/install/cache");
    reveal_strlit("go/pkg/mod");
    reveal_strlit(".colima");
    reveal_strlit(".lima");
    reveal_strlit(".local/share/containers");
    reveal_strlit("Library");
    reveal_strlit(".Trash");
    reveal_strlit("OrbStack");
    reveal_strlit(".local/share/docker");
    reveal_strlit(".docker/desktop");
    reveal_strlit(".local/share/rancher-desktop");
    reveal_strlit(".local/share/Trash");
    let roots = protected_roots(home, platform);
    let place = path_join(home, encode_utf8(relative));
    assert(roots[0] == (path_join(home, encode_utf8(".cargo"@)), ProtectedKind::ManagedCache));
    assert(roots[1] == (path_join(home, encode_utf8(".rustup"@)), ProtectedKind::ManagedCache));
    assert(roots[2] == (path_join(home, encode_utf8(".cache"@)), ProtectedKind::ManagedCache));
    assert(roots[3] == (path_join(home, encode_utf8(".bun/install/cache"@)), ProtectedKind::ManagedCache));
    assert(roots[4] == (path_join(home, encode_utf8("go/pkg/mod"@)), ProtectedKind::ManagedCache));
    assert(roots[5] == (path_join(home, encode_utf8(".colima"@)), ProtectedKind::ContainerStorage));
    assert(roots[6] == (path_join(home, encode_utf8(".lima"@)), ProtectedKind::ContainerStorage));
    assert(roots[7] == (path_join(home, encode_utf8(".local/share/containers"@)), ProtectedKind::ContainerStorage));
    if platform == HostPlatform::MacOs {
        assert(roots[8] == (path_join(home, encode_utf8("Library"@)), ProtectedKind::ManagedCache));
        assert(roots[9] == (path_join(home, encode_utf8(".Trash"@)), ProtectedKind::ManagedCache));
        assert(roots[10] == (path_join(home, encode_utf8("OrbStack"@)), ProtectedKind::ContainerStorage));
    }
    if platform == HostPlatform::Linux {
        assert(roots[8] == (path_join(home, encode_utf8(".local/share/docker"@)), ProtectedKind::ContainerStorage));
        assert(roots[9] == (path_join(home, encode_utf8(".docker/desktop"@)), ProtectedKind::ContainerStorage));
        assert(roots[10] == (path_join(home, encode_utf8(".local/share/rancher-desktop"@)), ProtectedKind::ContainerStorage));
        assert(roots[11] == (path_join(home, encode_utf8(".local/share/Trash"@)), ProtectedKind::ManagedCache));
    }
}

proof fn lemma_foremost_root(
    known: Map<Seq<u8>, Resolved>,
    path: Seq<u8>,
    physical: Option<Seq<u8>>,
    roots: Seq<(Seq<u8>, ProtectedKind)>,
    i: int,
)
    requires
        0 <= i < roots.len(),
        lies_in_root(known, path, physical, roots[i].0) == Finding::<bool>::Known(true),
        forall|j: int|
            0 <= j < i ==> lies_in_root(known, path, physical, (#[trigger] roots[j]).0) == Finding::<bool>::Known(false),
    ensures
        first_root(known, path, physical, roots) == Finding::Known(Some(roots[i].1)),
    decreases roots.len(),
{
    if i > 0 {
        let rest = roots.drop_first();
        assert(lies_in_root(known, path, physical, roots[0].0) == Finding::<bool>::Known(false));
        assert(rest[i - 1] == roots[i]);
        assert forall|j: int| 0 <= j < i - 1 implies lies_in_root(known, path, physical, (#[trigger] rest[j]).0)
            == Finding::<bool>::Known(false) by {
            assert(rest[j] == roots[j + 1]);
        }
        lemma_foremost_root(known, path, physical, rest, i - 1);
    }
}

/// A project is of the class of the first protected directory that it is written below,
/// where it lies in none before: a managed cache in a cache, container storage in the
/// storage of containers.
pub proof fn protected_projects_have_the_class_of_their_directory(
    known: Map<Seq<u8>, Resolved>,
    path: Seq<u8>,
    physical: Option<Seq<u8>>,
    home: Seq<u8>,
    platform: HostPlatform,
    i: int,
)
    requires
        physical_path(known, path) == Finding::Known(physical),
        0 <= i < protected_roots(home, platform).len(),
        path_starts_with(path, protected_roots(home, platform)[i].0),
        forall|j: int|
            0 <= j < i ==> lies_in_root(known, path, physical, (#[trigger] protected_roots(home, platform)[j]).0)
                == Finding::<bool>::Known(false),
    ensures
        protected_roots(home, platform)[i].1 == ProtectedKind::ManagedCache ==> project_class(known, path, home, platform)
            == Finding::Known(ProjectClass::ManagedCache),
        protected_roots(home, platform)[i].1 == ProtectedKind::ContainerStorage ==> project_class(known, path, home, platform)
            == Finding::Known(ProjectClass::ContainerStorage),
{
    lemma_foremost_root(known, path, physical, protected_roots(home, platform), i);
}

/// A path in which the names of a package cache or of container storage stand one
/// after the other is no workspace, wherever it lies.
pub proof fn names_of_caches_are_no_workspace(path: Seq<u8>, i: int)
    requires
        ({
            let names = name_texts(path);
            0 <= i && ((i + 2 < names.len() && ((names[i] == ".bun"@ && names[i + 1] == "install"@ && names[i + 2]
                == "cache"@) || (names[i] == "go"@ && names[i + 1] == "pkg"@ && names[i + 2] == "mod"@) || (names[i]
                == ".cargo"@ && names[i + 1] == "registry"@ && names[i + 2] == "src"@) || (names[i] == ".cargo"@ && names[i
                + 1] == "git"@ && names[i + 2] == "checkouts"@))) || (i + 1 < names.len() && ((names[i] == "Library"@
                && names[i + 1] == "Caches"@) || (names[i] == "OrbStack"@ && names[i + 1] == "docker"@))))
        }),
    ensures
        class_by_names(path) != ProjectClass::Workspace,
{
    let names = name_texts(path);
    if i + 2 < names.len() {
        let three = names.subrange(i, i + 3);
        assert(three =~= seq![names[i], names[i + 1], names[i + 2]]);
        if names[i] == ".bun"@ && names[i + 1] == "install"@ && names[i + 2] == "cache"@ {
            assert(occurs_at(names, seq![".bun"@, "install"@, "cache"@], i));
        }
        if names[i] == "go"@ && names[i + 1] == "pkg"@ && names[i + 2] == "mod"@ {
            assert(occurs_at(names, seq!["go"@, "pkg"@, "mod"@], i));
        }
        if names[i] == ".cargo"@ && names[i + 1] == "registry"@ && names[i + 2] == "src"@ {
            assert(occurs_at(names, seq![".cargo"@, "registry"@, "src"@], i));
        }
        if names[i] == ".cargo"@ && names[i + 1] == "git"@ && names[i + 2] == "checkouts"@ {
            assert(occurs_at(names, seq![".cargo"@, "git"@, "checkouts"@], i));
        }
    }
    if i + 1 < names.len() {
        let two = names.subrange(i, i + 2);
        assert(two =~= seq![names[i], names[i + 1]]);
        if names[i] == "Library"@ && names[i + 1] == "Caches"@ {
            assert(occurs_at(names, seq!["Library"@, "Caches"@], i));
        }
        if names[i] == "OrbStack"@ && names[i + 1] == "docker"@ {
            assert(occurs_at(names, seq!["OrbStack"@, "docker"@], i));
        }
    }
}

/// A project that is no workspace lies in a protected directory or has the names of a
/// cache or of container storage in its path.
pub proof fn other_projects_are_workspaces(
    known: Map<Seq<u8>, Resolved>,
    path: Seq<u8>,
    home: Seq<u8>,
    platform: HostPlatform,
)
    requires
        physical_path(known, path) is Known,
        forall|i: int|
            0 <= i < protected_roots(home, platform).len() ==> lies_in_root(
                known,
                path,
                physical_path(known, path)->Known_0,
                (#[trigger] protected_roots(home, platform)[i]).0,
            ) == Finding::<bool>::Known(false),
        name_texts(path).len() < 2,
    ensures
        project_class(known, path, home, platform) == Finding::Known(ProjectClass::Workspace),
{
    lemma_no_root(known, path, physical_path(known, path)->Known_0, protected_roots(home, platform));
    let names = name_texts(path);
    assert forall|wanted: Seq<Seq<char>>| wanted.len() >= 2 implies !(#[trigger] contains_run(names, wanted)) by {}
}

proof fn lemma_no_root(
    known: Map<Seq<u8>, Resolved>,
    path: Seq<u8>,
    physical: Option<Seq<u8>>,
    roots: Seq<(Seq<u8>, ProtectedKind)>,
)
    requires
        forall|i: int|
            0 <= i < roots.len() ==> lies_in_root(known, path, physical, (#[trigger] roots[i]).0) == Finding::<bool>::Known(
                false,
            ),
    ensures
        first_root(known, path, physical, roots) == Finding::<Option<ProtectedKind>>::Known(None),
    decreases roots.len(),
{
    if roots.len() > 0 {
        let rest = roots.drop_first();
        assert(lies_in_root(known, path, physical, roots[0].0) == Finding::<bool>::Known(false));
        assert forall|i: int| 0 <= i < rest.len() implies lies_in_root(known, path, physical, (#[trigger] rest[i]).0)
            == Finding::<bool>::Known(false) by {
            assert(rest[i] == roots[i + 1]);
        }
        lemma_no_root(known, path, physical, rest);
    }
}

// ------------------------------------------------------------------- measuring

/// A regular file adds its length to a tree, a directory what it holds, and a link or
/// anything else nothing; what cannot be read leaves the whole without a size.
pub proof fn entries_add_to_the_size(entries: Seq<TreeEntry>, entry: TreeEntry)
    ensures
        tree_size(Seq::<TreeEntry>::empty()) == Some(0nat),
        tree_size(entries.push(entry)) == match tree_size(entries) {
            None => None,
            Some(before) => match entry {
                TreeEntry::Symlink | TreeEntry::Other => Some(before),
                TreeEntry::File(length, _) => Some((before + length) as nat),
                TreeEntry::Directory(Some(inner)) => match tree_size(inner@) {
                    Some(size) => Some(before + size),
                    None => None,
                },
                TreeEntry::Directory(None) | TreeEntry::Unreadable => None,
            },
        },
{
    let all = entries.push(entry);
    assert(all.subrange(0, all.len() - 1) =~= entries);
    assert(entry_size(entry) == match entry {
        TreeEntry::Symlink | TreeEntry::Other => Some(0nat),
        TreeEntry::File(length, _) => Some(length as nat),
        TreeEntry::Directory(Some(inner)) => tree_size(inner@),
        TreeEntry::Directory(None) | TreeEntry::Unreadable => None,
    });
}

/// The newest write of a tree is not before that of any file or directory in it, and
/// is that of one of them; without the time of some file it is not known at all.
pub proof fn newest_writes_are_of_the_tree(entries: Seq<TreeEntry>, i: int)
    requires
        0 <= i < entries.len(),
    ensures
        tree_newest(entries) is Some ==> match entries[i] {
            TreeEntry::File(_, Some(modified)) => tree_newest(entries)->0 matches Some(newest) && modified@ <= newest,
            TreeEntry::File(_, None) | TreeEntry::Directory(None) | TreeEntry::Unreadable => false,
            TreeEntry::Directory(Some(inner)) => tree_newest(inner@) is Some && (tree_newest(inner@)->0 matches Some(within)
                ==> (tree_newest(entries)->0 matches Some(newest) && within <= newest)),
            TreeEntry::Symlink | TreeEntry::Other => true,
        },
    decreases entries.len(),
{
    let front = entries.subrange(0, entries.len() - 1);
    assert(entry_newest(entries[i]) == match entries[i] {
        TreeEntry::Symlink | TreeEntry::Other => Some(None::<int>),
        TreeEntry::File(_, Some(modified)) => Some(Some(modified@)),
        TreeEntry::Directory(Some(inner)) => tree_newest(inner@),
        TreeEntry::File(_, None) | TreeEntry::Directory(None) | TreeEntry::Unreadable => None,
    });
    if i < entries.len() - 1 {
        assert(front[i] == entries[i]);
        newest_writes_are_of_the_tree(front, i);
    }
}

/// The newest write of a tree is a write to something in it.
pub proof fn newest_writes_happened(entries: Seq<TreeEntry>)
    requires
        tree_newest(entries) matches Some(Some(_)),
    ensures
        exists|i: int|
            0 <= i < entries.len() && match #[trigger] entries[i] {
                TreeEntry::File(_, Some(modified)) => modified@ == tree_newest(entries)->0->0,
                TreeEntry::Directory(Some(inner)) => tree_newest(inner@) == tree_newest(entries),
                _ => false,
            },
    decreases entries.len(),
{
    let front = entries.subrange(0, entries.len() - 1);
    let last = entries[entries.len() - 1];
    if tree_newest(front) == tree_newest(entries) {
        newest_writes_happened(front);
        let i = choose|i: int|
            0 <= i < front.len() && match #[trigger] front[i] {
                TreeEntry::File(_, Some(modified)) => modified@ == tree_newest(front)->0->0,
                TreeEntry::Directory(Some(inner)) => tree_newest(inner@) == tree_newest(front),
                _ => false,
            };
        assert(entries[i] == front[i]);
    } else {
        assert(entry_newest(last) == tree_newest(entries));
        assert(entries[entries.len() - 1] == last);
    }
}

// -------------------------------------------------------------------- summaries

/// One more review changes a summary by exactly that review: it is counted in all, and
/// either as cleanable with its bytes, or as skipped in the group of its reason.
pub proof fn reviews_are_counted_once(reviews: Seq<ProjectReview>, review: ProjectReview, before: ReviewSummary, summary: ReviewSummary)
    requires
        summarizes(before, reviews),
        summarizes(summary, reviews.push(review)),
    ensures
        summary.total_projects == before.total_projects + 1,
        review.decision == CleanDecision::Cleanable ==> summary.cleanable_projects == before.cleanable_projects + 1
            && summary.cleanable_bytes == before.cleanable_bytes + review.target_bytes && summary.skipped_projects
            == before.skipped_projects,
        review.decision != CleanDecision::Cleanable ==> summary.cleanable_projects == before.cleanable_projects
            && summary.cleanable_bytes == before.cleanable_bytes && summary.skipped_projects == before.skipped_projects + 1,
        review.decision == CleanDecision::Skipped(SkipReason::NoTarget) ==> summary.no_target == before.no_target + 1,
        review.decision == CleanDecision::Skipped(SkipReason::ActiveProcess) ==> summary.active_process
            == before.active_process + 1,
        review.decision == CleanDecision::Skipped(SkipReason::ManagedCache) ==> summary.managed_cache
            == before.managed_cache + 1,
        review.decision == CleanDecision::Skipped(SkipReason::ContainerStorage) ==> summary.container_storage
            == before.container_storage + 1,
        review.decision matches CleanDecision::Skipped(SkipReason::ActiveRecentWrite { .. }) ==> summary.active_recent_write
            == before.active_recent_write + 1,
        review.decision == CleanDecision::Skipped(SkipReason::ScanError) || review.decision == CleanDecision::Skipped(
            SkipReason::InvalidManifest,
        ) || review.decision == CleanDecision::Skipped(SkipReason::ProjectIdentityUnavailable) || review.decision
            == CleanDecision::Skipped(SkipReason::ProjectIdentityChanged) || review.decision == CleanDecision::Skipped(
            SkipReason::OutOfScope,
        ) || review.decision == CleanDecision::Skipped(SkipReason::Excluded) ==> summary.scan_error == before.scan_error + 1,
        review.decision == CleanDecision::Skipped(SkipReason::TargetReadError) || review.decision == CleanDecision::Skipped(
            SkipReason::TargetIdentityUnavailable,
        ) || review.decision == CleanDecision::Skipped(SkipReason::CrossDeviceTarget) || review.decision
            == CleanDecision::Skipped(SkipReason::CrossMountTarget) || review.decision == CleanDecision::Skipped(
            SkipReason::TargetIdentityChanged,
        ) ==> summary.target_read_error == before.target_read_error + 1,
{
    let all = reviews.push(review);
    assert(all.drop_last() =~= reviews);
    assert(all.last() == review);
    reveal_with_fuel(skipped_in, 2);
    reveal_with_fuel(cleanable_in, 2);
    reveal_with_fuel(cleanable_bytes_in, 2);
}

// --------------------------------------------------------------------- records

/// The target of a project is the directory `target` in it, for a review as for a cleanup.
pub proof fn targets_lie_in_their_project(project: Seq<u8>)
    ensures
        path_components(target_of(project)) == path_components(project).push(encode_utf8("target"@)),
        path_starts_with(target_of(project), project),
        crate::cleaner::clean_target(project) == target_of(project),
{
    reveal_strlit("target");
    is_ascii_chars_encode_utf8("target"@);
    let name = encode_utf8("target"@);
    assert(!name.contains(crate::path::SLASH)) by {
        assert forall|k: int| 0 <= k < name.len() implies name[k] != crate::path::SLASH by {
            assert(name[k] == "target"@[k] as u8);
        }
    }
    assert(name.len() == 6);
    crate::path::laws::names_are_the_last_component(project, name);
    crate::path::laws::joined_paths_lie_below(project, name);
}

/// A review records the project, its target, its class, its physical path, and what was
/// measured and seen: the bytes of the target and the identities of both.
pub proof fn reviews_record_what_was_seen(
    step: ReviewStep,
    project: Seq<u8>,
    home: Seq<u8>,
    platform: HostPlatform,
    known: Map<Seq<u8>, Resolved>,
    errors: Seq<PathBuf>,
    blocks: Seq<PathBuf>,
    activity: Seq<ActivitySignal>,
    now: int,
    opts: SafetyOptions,
    facts: ReviewFacts,
)
    requires
        is_project_step(step, project, home, platform, known, errors, blocks, activity, now, opts, facts),
    ensures
        step matches ReviewStep::Reviewed(review) ==> {
            &&& review.path@ == project
            &&& review.target_path@ == target_of(project)
            &&& project_class(known, project, home, platform) == Finding::Known(review.class)
            &&& facts.canonical_path matches Some(canonical) && (review.canonical_path is Some <==> canonical is Some) && (
            canonical matches Some(path) ==> review.canonical_path->0@ == path@)
            &&& review.decision == CleanDecision::Cleanable ==> {
                &&& facts.target_bytes == Some(Some(review.target_bytes))
                &&& review.reviewed_identity matches Some(seen)
                &&& facts.project_identity == Some(Some(seen.project))
                &&& facts.target_identity == Some(Some(seen.target))
                &&& facts.boot_session == Some(seen.boot_session)
                &&& review.canonical_path is Some
            }
        },
{
}

/// A forced review passes over errors of scans, running processes and recent writes, and
/// over nothing else; one that includes active projects passes over running processes.
pub proof fn forced_reviews_pass_over_activity(
    step: ReviewStep,
    project: Seq<u8>,
    home: Seq<u8>,
    platform: HostPlatform,
    known: Map<Seq<u8>, Resolved>,
    errors: Seq<PathBuf>,
    blocks: Seq<PathBuf>,
    activity: Seq<ActivitySignal>,
    now: int,
    opts: SafetyOptions,
    facts: ReviewFacts,
)
    requires
        is_project_step(step, project, home, platform, known, errors, blocks, activity, now, opts, facts),
        opts.force,
        project_class(known, project, home, platform) is Known,
        project_class(known, project, home, platform) == Finding::Known(ProjectClass::Workspace) || opts.include_managed_cache,
        facts.manifest == Some(true),
        facts.project_directory == Some(true),
        facts.target_entry == Some(TargetEntry::Directory),
        facts.project_identity matches Some(Some(p)) && facts.target_identity matches Some(Some(t)) && p.device == t.device
            && p.mount.0@ == t.mount.0@,
        facts.boot_session is Some,
        facts.target_bytes matches Some(Some(_)),
        facts.canonical_path matches Some(Some(_)),
    ensures
        admits(step),
{
}

} // verus!
