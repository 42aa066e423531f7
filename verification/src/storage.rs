//! Directories of package managers and container runtimes that hold no projects
//! of the user.

use crate::path::{is_absolute_path, path_join, path_starts_with, PathBuf, SLASH};
use crate::resolve::{optional_path, physical_path, Answer, Finding, Resolutions, Resolved};
use vstd::prelude::*;
use vstd::utf8::*;

verus! {

/// The operating system that the library works for.
#[derive(Debug, Clone, Copy, PartialEq, Eq, Structural)]
pub enum HostPlatform {
    MacOs,
    Linux,
    Other,
}

/// What a protected directory holds.
#[derive(Debug, Clone, Copy, PartialEq, Eq, Structural)]
pub enum ProtectedKind {
    ManagedCache,
    ContainerStorage,
}

/// A protected directory.
#[derive(Debug, PartialEq, Eq)]
pub struct ProtectedRoot {
    pub path: PathBuf,
    pub kind: ProtectedKind,
}

/// The contents of a list of protected directories.
pub open spec fn root_views(roots: Seq<ProtectedRoot>) -> Seq<(Seq<u8>, ProtectedKind)> {
    Seq::new(roots.len(), |i: int| (roots[i].path@, roots[i].kind))
}

/// A directory below the home directory, with its kind.
pub open spec fn below(home: Seq<u8>, relative: Seq<char>, kind: ProtectedKind) -> (Seq<u8>, ProtectedKind) {
    (path_join(home, encode_utf8(relative)), kind)
}

/// The protected directories of every platform.
pub open spec fn common_roots(home: Seq<u8>) -> Seq<(Seq<u8>, ProtectedKind)> {
    seq![
        below(home, ".cargo"@, ProtectedKind::ManagedCache),
        below(home, ".rustup"@, ProtectedKind::ManagedCache),
        below(home, ".cache"@, ProtectedKind::ManagedCache),
        below(home, ".bun/install/cache"@, ProtectedKind::ManagedCache),
        below(home, "go/pkg/mod"@, ProtectedKind::ManagedCache),
        below(home, ".colima"@, ProtectedKind::ContainerStorage),
        below(home, ".lima"@, ProtectedKind::ContainerStorage),
        below(home, ".local/share/containers"@, ProtectedKind::ContainerStorage),
    ]
}

/// The protected directories that only one platform has.
pub open spec fn platform_roots(home: Seq<u8>, platform: HostPlatform) -> Seq<(Seq<u8>, ProtectedKind)> {
    match platform {
        HostPlatform::MacOs => seq![
            below(home, "Library"@, ProtectedKind::ManagedCache),
            below(home, ".Trash"@, ProtectedKind::ManagedCache),
            below(home, "OrbStack"@, ProtectedKind::ContainerStorage),
        ],
        HostPlatform::Linux => seq![
            below(home, ".local/share/docker"@, ProtectedKind::ContainerStorage),
            below(home, ".docker/desktop"@, ProtectedKind::ContainerStorage),
            below(home, ".local/share/rancher-desktop"@, ProtectedKind::ContainerStorage),
            below(home, ".local/share/Trash"@, ProtectedKind::ManagedCache),
        ],
        HostPlatform::Other => seq![],
    }
}

/// The protected directories of a home directory: none unless it is absolute.
pub open spec fn protected_roots(home: Seq<u8>, platform: HostPlatform) -> Seq<(Seq<u8>, ProtectedKind)> {
    if is_absolute_path(home) {
        common_roots(home) + platform_roots(home, platform)
    } else {
        seq![]
    }
}

proof fn lemma_below(home: Seq<u8>, relative: Seq<char>)
    requires
        is_absolute_path(home),
    ensures
        valid_utf8(home) ==> valid_utf8(path_join(home, encode_utf8(relative))),
        is_absolute_path(path_join(home, encode_utf8(relative))),
{
    let rest = encode_utf8(relative);
    if valid_utf8(home) {
        encode_utf8_valid_utf8(relative);
        is_ascii_chars_encode_utf8(seq!['/']);
        encode_utf8_valid_utf8(seq!['/']);
        assert(encode_utf8(seq!['/']) =~= seq![SLASH]);
        valid_utf8_concat(home, seq![SLASH]);
        assert(home.push(SLASH) =~= home + seq![SLASH]);
        valid_utf8_concat(home.push(SLASH), rest);
        valid_utf8_concat(home, rest);
    }
}

/// The protected directories are absolute, and texts where the home directory is one.
pub proof fn lemma_roots_are_texts(home: Seq<u8>, platform: HostPlatform)
    ensures
        forall|i: int|
            0 <= i < protected_roots(home, platform).len() ==> is_absolute_path(
                (#[trigger] protected_roots(home, platform)[i]).0,
            ) && (valid_utf8(home) ==> valid_utf8(protected_roots(home, platform)[i].0)),
{
    let roots = protected_roots(home, platform);
    let common = common_roots(home);
    let own = platform_roots(home, platform);
    assert forall|i: int| 0 <= i < roots.len() implies is_absolute_path((#[trigger] roots[i]).0) && (valid_utf8(home)
        ==> valid_utf8(roots[i].0)) by {
        if i < common.len() {
            assert(roots[i] == common[i]);
            lemma_common_root(home, i);
        } else {
            assert(roots[i] == own[i - common.len()]);
            lemma_platform_root(home, platform, i - common.len());
        }
    }
}

proof fn lemma_common_root(home: Seq<u8>, k: int)
    requires
        is_absolute_path(home),
        0 <= k < common_roots(home).len(),
    ensures
        valid_utf8(home) ==> valid_utf8(common_roots(home)[k].0),
        is_absolute_path(common_roots(home)[k].0),
{
    if k == 0 {
        lemma_below(home, ".cargo"@);
    } else if k == 1 {
        lemma_below(home, ".rustup"@);
    } else if k == 2 {
        lemma_below(home, ".cache"@);
    } else if k == 3 {
        lemma_below(home, ".bun/install/cache"@);
    } else if k == 4 {
        lemma_below(home, "go/pkg/mod"@);
    } else if k == 5 {
        lemma_below(home, ".colima"@);
    } else if k == 6 {
        lemma_below(home, ".lima"@);
    } else {
        lemma_below(home, ".local/share/containers"@);
    }
}

proof fn lemma_platform_root(home: Seq<u8>, platform: HostPlatform, k: int)
    requires
        is_absolute_path(home),
        0 <= k < platform_roots(home, platform).len(),
    ensures
        valid_utf8(home) ==> valid_utf8(platform_roots(home, platform)[k].0),
        is_absolute_path(platform_roots(home, platform)[k].0),
{
    match platform {
        HostPlatform::MacOs => {
            if k == 0 {
                lemma_below(home, "Library"@);
            } else if k == 1 {
                lemma_below(home, ".Trash"@);
            } else {
                lemma_below(home, "OrbStack"@);
            }
        },
        HostPlatform::Linux => {
            if k == 0 {
                lemma_below(home, ".local/share/docker"@);
            } else if k == 1 {
                lemma_below(home, ".docker/desktop"@);
            } else if k == 2 {
                lemma_below(home, ".local/share/rancher-desktop"@);
            } else {
                lemma_below(home, ".local/share/Trash"@);
            }
        },
        HostPlatform::Other => {},
    }
}

/// A protected directory below the home directory.
pub fn protected(home: &PathBuf, relative: &str, kind: ProtectedKind) -> (root: ProtectedRoot)
    ensures
        (root.path@, root.kind) == below(home@, relative@, kind),
{
    ProtectedRoot { path: home.join(&PathBuf::new(relative)), kind }
}

/// The protected directories of a home directory.
pub fn protected_roots_for(home: &PathBuf, platform: HostPlatform) -> (roots: Vec<ProtectedRoot>)
    ensures
        root_views(roots@) == protected_roots(home@, platform),
{
    let mut roots: Vec<ProtectedRoot> = Vec::new();
    if !home.is_absolute() {
        assert(root_views(roots@) =~= protected_roots(home@, platform));
        return roots;
    }
    roots.push(protected(home, ".cargo", ProtectedKind::ManagedCache));
    roots.push(protected(home, ".rustup", ProtectedKind::ManagedCache));
    roots.push(protected(home, ".cache", ProtectedKind::ManagedCache));
    roots.push(protected(home, ".bun/install/cache", ProtectedKind::ManagedCache));
    roots.push(protected(home, "go/pkg/mod", ProtectedKind::ManagedCache));
    roots.push(protected(home, ".colima", ProtectedKind::ContainerStorage));
    roots.push(protected(home, ".lima", ProtectedKind::ContainerStorage));
    roots.push(protected(home, ".local/share/containers", ProtectedKind::ContainerStorage));
    match platform {
        HostPlatform::MacOs => {
            roots.push(protected(home, "Library", ProtectedKind::ManagedCache));
            roots.push(protected(home, ".Trash", ProtectedKind::ManagedCache));
            roots.push(protected(home, "OrbStack", ProtectedKind::ContainerStorage));
        },
        HostPlatform::Linux => {
            roots.push(protected(home, ".local/share/docker", ProtectedKind::ContainerStorage));
            roots.push(protected(home, ".docker/desktop", ProtectedKind::ContainerStorage));
            roots.push(protected(home, ".local/share/rancher-desktop", ProtectedKind::ContainerStorage));
            roots.push(protected(home, ".local/share/Trash", ProtectedKind::ManagedCache));
        },
        HostPlatform::Other => {},
    }
    assert(root_views(roots@) =~= protected_roots(home@, platform));
    roots
}

/// Whether a path lies in a protected directory, as it is written or physically.
pub open spec fn lies_in_root(
    known: Map<Seq<u8>, Resolved>,
    path: Seq<u8>,
    physical: Option<Seq<u8>>,
    root: Seq<u8>,
) -> Finding<bool> {
    if path_starts_with(path, root) {
        Finding::Known(true)
    } else {
        match physical {
            None => Finding::Known(false),
            Some(p) => if path_starts_with(p, root) {
                Finding::Known(true)
            } else {
                match physical_path(known, root) {
                    Finding::Unresolved(q) => Finding::Unresolved(q),
                    Finding::Known(None) => Finding::Known(false),
                    Finding::Known(Some(r)) => Finding::Known(path_starts_with(p, r)),
                }
            },
        }
    }
}

/// The kind of the first of `roots` that a path lies in.
pub open spec fn first_root(
    known: Map<Seq<u8>, Resolved>,
    path: Seq<u8>,
    physical: Option<Seq<u8>>,
    roots: Seq<(Seq<u8>, ProtectedKind)>,
) -> Finding<Option<ProtectedKind>>
    decreases roots.len(),
{
    if roots.len() == 0 {
        Finding::Known(None)
    } else {
        match lies_in_root(known, path, physical, roots[0].0) {
            Finding::Known(true) => Finding::Known(Some(roots[0].1)),
            Finding::Known(false) => first_root(known, path, physical, roots.drop_first()),
            Finding::Unresolved(p) => Finding::Unresolved(p),
        }
    }
}

/// The kind of the first protected directory that a path lies in.
pub open spec fn protected_class(
    known: Map<Seq<u8>, Resolved>,
    path: Seq<u8>,
    home: Seq<u8>,
    platform: HostPlatform,
) -> Finding<Option<ProtectedKind>> {
    match physical_path(known, path) {
        Finding::Unresolved(p) => Finding::Unresolved(p),
        Finding::Known(physical) => first_root(known, path, physical, protected_roots(home, platform)),
    }
}

pub(crate) fn lies_in(
    known: &Resolutions,
    path: &PathBuf,
    physical: &Option<PathBuf>,
    root: &PathBuf,
) -> (answer: Answer<bool>)
    ensures
        answer.finding() == lies_in_root(known@, path@, optional_path(*physical), root@),
{
    if path.starts_with(root) {
        return Answer::Known(true);
    }
    match physical {
        None => Answer::Known(false),
        Some(p) => {
            if p.starts_with(root) {
                return Answer::Known(true);
            }
            match known.physical(root) {
                Answer::Unresolved(q) => Answer::Unresolved(q),
                Answer::Known(None) => Answer::Known(false),
                Answer::Known(Some(r)) => Answer::Known(p.starts_with(&r)),
            }
        },
    }
}

/// The kind of the first protected directory that a path lies in, as it is
/// written or physically; `Unresolved` names a path that has to be resolved
/// first.
pub fn classify_protected_path_for(
    path: &PathBuf,
    home: &PathBuf,
    platform: HostPlatform,
    known: &Resolutions,
) -> (answer: Answer<Option<ProtectedKind>>)
    ensures
        answer.finding() == protected_class(known@, path@, home@, platform),
{
    let physical = match known.physical(path) {
        Answer::Unresolved(p) => return Answer::Unresolved(p),
        Answer::Known(physical) => physical,
    };
    let roots = protected_roots_for(home, platform);
    let ghost all = protected_roots(home@, platform);
    let ghost seen = optional_path(physical);
    let mut i: usize = 0;
    assert(all.skip(0) =~= all);
    while i < roots.len()
        invariant
            i <= roots.len(),
            root_views(roots@) == all,
            seen == optional_path(physical),
            protected_class(known@, path@, home@, platform) == first_root(
                known@,
                path@,
                seen,
                all.skip(i as int),
            ),
        decreases roots.len() - i,
    {
        proof {
            assert(all.skip(i as int)[0] == all[i as int]);
            assert(all.skip(i as int).drop_first() =~= all.skip(i + 1));
            assert(all[i as int] == (roots@[i as int].path@, roots@[i as int].kind));
        }
        match lies_in(known, path, &physical, &roots[i].path) {
            Answer::Unresolved(p) => return Answer::Unresolved(p),
            Answer::Known(true) => return Answer::Known(Some(roots[i].kind)),
            Answer::Known(false) => {},
        }
        i += 1;
    }
    Answer::Known(None)
}

} // verus!
