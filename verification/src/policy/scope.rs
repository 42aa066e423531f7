//! Building the policy of a configuration.

use crate::config::Config;
use crate::environment::Environment;
use crate::order::{path_rank, sort_and_deduplicate, sorted_distinct, sorted_views, text_rank};
use crate::path::{is_absolute_path, parent_dir, path_components, path_join, path_views, PathBuf, DOT};
use crate::policy::document::{hash_policy_input, is_hash_text, policy_hash, policy_is_text};
use crate::policy::{
    root_rank, views_of_roots, PolicyHashInput, PolicyView, ProtectedRoot, ProtectedRootKind, ProvenanceView, RootProvenance,
    RootView, ScopePolicy, POLICY_HASH_FORMAT_VERSION,
};
use crate::resolve::{Resolution, Resolutions, Resolved};
use crate::storage::{protected_roots, protected_roots_for, root_views, HostPlatform, ProtectedKind};
use crate::text::{byte_lists, texts};
use vstd::prelude::*;
use vstd::utf8::*;

verus! {

/// Why a policy cannot be built.
#[derive(Debug, PartialEq, Eq)]
pub enum PolicyError {
    /// This path has to be resolved first.
    Unresolved(PathBuf),
    /// This manager directory has to be resolved first.
    UnresolvedRoot(PathBuf),
    /// A scan root that does not resolve.
    ScanRoot(PathBuf),
    /// An explicit project that does not resolve.
    ExplicitProject(PathBuf),
    /// An exclusion that exists but does not resolve.
    Exclusion(PathBuf),
    /// A variable that names a directory which is not absolute, or not plain.
    AmbiguousRoot(String, PathBuf),
    /// A variable that names a directory which does not resolve.
    RootUnavailable(String, PathBuf),
    /// A path that has no text.
    NotText,
}

/// The contents of an error.
pub enum PolicyFault {
    Unresolved(Seq<u8>),
    UnresolvedRoot(Seq<u8>),
    ScanRoot(Seq<u8>),
    ExplicitProject(Seq<u8>),
    Exclusion(Seq<u8>),
    AmbiguousRoot(Seq<char>, Seq<u8>),
    RootUnavailable(Seq<char>, Seq<u8>),
    NotText,
}

impl View for PolicyError {
    type V = PolicyFault;

    open spec fn view(&self) -> PolicyFault {
        match self {
            PolicyError::Unresolved(path) => PolicyFault::Unresolved(path@),
            PolicyError::UnresolvedRoot(path) => PolicyFault::UnresolvedRoot(path@),
            PolicyError::ScanRoot(path) => PolicyFault::ScanRoot(path@),
            PolicyError::ExplicitProject(path) => PolicyFault::ExplicitProject(path@),
            PolicyError::Exclusion(path) => PolicyFault::Exclusion(path@),
            PolicyError::AmbiguousRoot(name, path) => PolicyFault::AmbiguousRoot(name@, path@),
            PolicyError::RootUnavailable(name, path) => PolicyFault::RootUnavailable(name@, path@),
            PolicyError::NotText => PolicyFault::NotText,
        }
    }
}

/// What a list of required paths is required for.
#[derive(Debug, Clone, Copy, PartialEq, Eq, Structural)]
pub enum RequiredKind {
    ScanRoot,
    ExplicitProject,
}

/// The error for a required path that does not resolve.
pub open spec fn required_fault(kind: RequiredKind, path: Seq<u8>) -> PolicyFault {
    match kind {
        RequiredKind::ScanRoot => PolicyFault::ScanRoot(path),
        RequiredKind::ExplicitProject => PolicyFault::ExplicitProject(path),
    }
}

/// The physical paths of a list, each of which has to resolve.
pub open spec fn required_paths(
    known: Map<Seq<u8>, Resolved>,
    kind: RequiredKind,
    paths: Seq<Seq<u8>>,
) -> Result<Seq<Seq<u8>>, PolicyFault>
    decreases paths.len(),
{
    if paths.len() == 0 {
        Ok(Seq::empty())
    } else {
        match required_paths(known, kind, paths.drop_last()) {
            Err(fault) => Err(fault),
            Ok(list) => if !known.dom().contains(paths.last()) {
                Err(PolicyFault::Unresolved(paths.last()))
            } else {
                match known[paths.last()] {
                    Resolved::Physical(physical) => Ok(list.push(physical)),
                    _ => Err(required_fault(kind, paths.last())),
                }
            },
        }
    }
}

/// The physical paths of the absolute exclusions that exist.
pub open spec fn excluded_paths(known: Map<Seq<u8>, Resolved>, exclusions: Seq<Seq<char>>) -> Result<
    Seq<Seq<u8>>,
    PolicyFault,
>
    decreases exclusions.len(),
{
    if exclusions.len() == 0 {
        Ok(Seq::empty())
    } else {
        match excluded_paths(known, exclusions.drop_last()) {
            Err(fault) => Err(fault),
            Ok(list) => {
                let path = encode_utf8(exclusions.last());
                if !is_absolute_path(path) {
                    Ok(list)
                } else if !known.dom().contains(path) {
                    Err(PolicyFault::Unresolved(path))
                } else {
                    match known[path] {
                        Resolved::Physical(physical) => Ok(list.push(physical)),
                        Resolved::NotFound => Ok(list),
                        Resolved::Failed => Err(PolicyFault::Exclusion(path)),
                    }
                }
            },
        }
    }
}

/// Whether a path names a directory without ambiguity: absolute, and without `..`.
pub open spec fn is_plain_absolute(path: Seq<u8>) -> bool {
    is_absolute_path(path) && !path_components(path).contains(parent_dir())
}

/// The physical path of a directory that a variable names.
pub open spec fn named_directory(
    physical: Map<Seq<u8>, Resolved>,
    name: Seq<char>,
    path: Seq<u8>,
) -> Result<Seq<u8>, PolicyFault> {
    if !is_plain_absolute(path) {
        Err(PolicyFault::AmbiguousRoot(name, path))
    } else if !physical.dom().contains(path) {
        Err(PolicyFault::UnresolvedRoot(path))
    } else {
        match physical[path] {
            Resolved::Physical(p) => Ok(p),
            _ => Err(PolicyFault::RootUnavailable(name, path)),
        }
    }
}

/// The home directory of a policy: none where it is not set.
pub open spec fn policy_home(physical: Map<Seq<u8>, Resolved>, home: Seq<u8>) -> Result<Seq<u8>, PolicyFault> {
    if home.len() == 0 {
        Ok(home)
    } else {
        named_directory(physical, "HOME"@, home)
    }
}

/// The kind of the default protected directory at a place of the list.
pub open spec fn default_kind(i: int, kind: ProtectedKind) -> ProtectedRootKind {
    if i == 0 {
        ProtectedRootKind::Cargo
    } else if i == 1 {
        ProtectedRootKind::Rustup
    } else if i == 3 {
        ProtectedRootKind::Bun
    } else if i == 4 {
        ProtectedRootKind::GoModule
    } else {
        match kind {
            ProtectedKind::ManagedCache => ProtectedRootKind::ManagedCache,
            ProtectedKind::ContainerStorage => ProtectedRootKind::Container,
        }
    }
}

/// The default protected directories of a home directory.
pub open spec fn default_roots(home: Seq<u8>, platform: HostPlatform) -> Seq<RootView> {
    let roots = protected_roots(home, platform);
    Seq::new(
        roots.len(),
        |i: int|
            RootView {
                path: roots[i].0,
                kind: default_kind(i, roots[i].1),
                provenance: ProvenanceView::Default,
            },
    )
}

/// The protected directory that a variable names, if it is set: its value, or a
/// directory below it.
pub open spec fn variable_root(
    value: Option<Seq<u8>>,
    name: Seq<char>,
    below: Seq<char>,
    kind: ProtectedRootKind,
) -> Seq<RootView> {
    match value {
        Some(path) => if path.len() == 0 {
            seq![]
        } else {
            seq![
                RootView {
                    path: if below.len() == 0 {
                        path
                    } else {
                        path_join(path, encode_utf8(below))
                    },
                    kind,
                    provenance: ProvenanceView::Environment(name),
                },
            ]
        },
        None => seq![],
    }
}

/// The protected directories that variables name, each with its value.
pub open spec fn roots_named_by(value: spec_fn(Seq<char>) -> Option<Seq<u8>>) -> Seq<RootView> {
    variable_root(value("CARGO_HOME"@), "CARGO_HOME"@, seq![], ProtectedRootKind::Cargo)
        + variable_root(value("RUSTUP_HOME"@), "RUSTUP_HOME"@, seq![], ProtectedRootKind::Rustup)
        + variable_root(
        value("XDG_CACHE_HOME"@),
        "XDG_CACHE_HOME"@,
        seq![],
        ProtectedRootKind::ManagedCache,
    ) + variable_root(
        value("XDG_DATA_HOME"@),
        "XDG_DATA_HOME"@,
        "containers"@,
        ProtectedRootKind::Container,
    ) + variable_root(value("GOMODCACHE"@), "GOMODCACHE"@, seq![], ProtectedRootKind::GoModule)
        + variable_root(
        value("BUN_INSTALL"@),
        "BUN_INSTALL"@,
        "install/cache"@,
        ProtectedRootKind::Bun,
    ) + variable_root(
        value("BUN_INSTALL_CACHE_DIR"@),
        "BUN_INSTALL_CACHE_DIR"@,
        seq![],
        ProtectedRootKind::Bun,
    ) + variable_root(value("COLIMA_HOME"@), "COLIMA_HOME"@, seq![], ProtectedRootKind::Container)
        + variable_root(value("LIMA_HOME"@), "LIMA_HOME"@, seq![], ProtectedRootKind::Container)
}

/// The protected directories that the variables of an environment name.
pub open spec fn variable_roots<E: Environment>(environment: &E) -> Seq<RootView> {
    roots_named_by(|name: Seq<char>| environment.value(name))
}

/// The protected directories with those that variables name resolved.
pub open spec fn resolved_roots(physical: Map<Seq<u8>, Resolved>, roots: Seq<RootView>) -> Result<
    Seq<RootView>,
    PolicyFault,
>
    decreases roots.len(),
{
    if roots.len() == 0 {
        Ok(Seq::empty())
    } else {
        match resolved_roots(physical, roots.drop_last()) {
            Err(fault) => Err(fault),
            Ok(list) => match roots.last().provenance {
                ProvenanceView::Environment(name) => match named_directory(physical, name, roots.last().path) {
                    Err(fault) => Err(fault),
                    Ok(path) => Ok(list.push(RootView { path, ..roots.last() })),
                },
                _ => Ok(list.push(roots.last())),
            },
        }
    }
}

/// The value of a variable, or no bytes where it is not set.
pub open spec fn value_or_empty(value: Option<Seq<u8>>) -> Seq<u8> {
    match value {
        Some(v) => v,
        None => Seq::empty(),
    }
}

/// The policy of a configuration: every list resolved, sorted and without
/// repetition.
pub open spec fn policy_of<E: Environment>(
    config: &Config,
    config_source: Seq<u8>,
    environment: &E,
    platform: HostPlatform,
    known: Map<Seq<u8>, Resolved>,
    physical: Map<Seq<u8>, Resolved>,
) -> Result<PolicyView, PolicyFault> {
    let by_path = |path: Seq<u8>| path_rank(path);
    let by_text = |text: Seq<char>| text_rank(text);
    let by_root = |root: RootView| root_rank(root);
    let raw_home = value_or_empty(environment.value("HOME"@));
    let exclusions = sorted_distinct(
        config.spec_effective_excludes(raw_home, platform).filter(|text: Seq<char>| text.len() > 0),
        by_text,
    );
    match required_paths(known, RequiredKind::ScanRoot, path_views(config.scan_dirs@)) {
        Err(fault) => Err(fault),
        Ok(scan_roots) => match required_paths(
            known,
            RequiredKind::ExplicitProject,
            path_views(config.project_dirs@),
        ) {
            Err(fault) => Err(fault),
            Ok(project_paths) => match excluded_paths(known, exclusions) {
                Err(fault) => Err(fault),
                Ok(canonical_exclusions) => match policy_home(physical, raw_home) {
                    Err(fault) => Err(fault),
                    Ok(home) => match resolved_roots(
                        physical,
                        default_roots(home, platform) + variable_roots(environment),
                    ) {
                        Err(fault) => Err(fault),
                        Ok(roots) => {
                            let policy = PolicyView {
                                scan_roots: sorted_distinct(scan_roots, by_path),
                                project_paths: sorted_distinct(project_paths, by_path),
                                lexical_exclusions: exclusions,
                                canonical_exclusions: sorted_distinct(canonical_exclusions, by_path),
                                protected_roots: sorted_distinct(roots, by_root),
                                target_quiet_period_ms: config.target_quiet_period@ / 1_000_000,
                                scan_interval_ms: config.scan_interval@ / 1_000_000,
                                config_source,
                            };
                            if policy_is_text(policy) {
                                Ok(policy)
                            } else {
                                Err(PolicyFault::NotText)
                            }
                        },
                    },
                },
            },
        },
    }
}

fn canonicalize_required(paths: &Vec<PathBuf>, kind: RequiredKind, known: &Resolutions) -> (result: Result<
    Vec<PathBuf>,
    PolicyError,
>)
    ensures
        match required_paths(known@, kind, path_views(paths@)) {
            Ok(list) => result matches Ok(r) && path_views(r@) == list,
            Err(fault) => result matches Err(error) && error@ == fault,
        },
{
    let ghost all = path_views(paths@);
    let ghost total = required_paths(known@, kind, all);
    let mut list: Vec<PathBuf> = Vec::new();
    let mut i: usize = 0;
    assert(path_views(list@) =~= Seq::empty());
    assert(all.take(0) =~= Seq::empty());
    while i < paths.len()
        invariant
            i <= paths.len(),
            all == path_views(paths@),
            total == required_paths(known@, kind, all),
            required_paths(known@, kind, all.take(i as int)) == Ok::<Seq<Seq<u8>>, PolicyFault>(path_views(list@)),
        decreases paths.len() - i,
    {
        let path = &paths[i];
        let ghost before = path_views(list@);
        proof {
            assert(all.take(i + 1).drop_last() =~= all.take(i as int));
            assert(all.take(i + 1).last() == path@);
        }
        match known.get(path) {
            Some(Resolution::Physical(physical)) => {
                list.push(physical.clone());
                assert(path_views(list@) =~= before.push(physical@));
            },
            other => {
                proof {
                    lemma_required_prefix(known@, kind, all, i + 1);
                }
                return Err(
                    match other {
                        None => PolicyError::Unresolved(path.clone()),
                        Some(_) => match kind {
                            RequiredKind::ScanRoot => PolicyError::ScanRoot(path.clone()),
                            RequiredKind::ExplicitProject => PolicyError::ExplicitProject(path.clone()),
                        },
                    },
                );
            },
        }
        i += 1;
    }
    assert(all.take(all.len() as int) =~= all);
    Ok(list)
}

proof fn lemma_required_prefix(known: Map<Seq<u8>, Resolved>, kind: RequiredKind, paths: Seq<Seq<u8>>, n: int)
    requires
        0 <= n <= paths.len(),
        required_paths(known, kind, paths.take(n)) is Err,
    ensures
        required_paths(known, kind, paths) == required_paths(known, kind, paths.take(n)),
    decreases paths.len(),
{
    if n < paths.len() {
        assert(paths.drop_last().take(n) =~= paths.take(n));
        lemma_required_prefix(known, kind, paths.drop_last(), n);
    } else {
        assert(paths.take(n) =~= paths);
    }
}

fn canonicalize_exclusions(exclusions: &Vec<String>, known: &Resolutions) -> (result: Result<
    Vec<PathBuf>,
    PolicyError,
>)
    ensures
        match excluded_paths(known@, texts(exclusions@)) {
            Ok(list) => result matches Ok(r) && path_views(r@) == list,
            Err(fault) => result matches Err(error) && error@ == fault,
        },
{
    let ghost all = texts(exclusions@);
    let mut list: Vec<PathBuf> = Vec::new();
    let mut i: usize = 0;
    assert(path_views(list@) =~= Seq::empty());
    assert(all.take(0) =~= Seq::empty());
    while i < exclusions.len()
        invariant
            i <= exclusions.len(),
            all == texts(exclusions@),
            excluded_paths(known@, all.take(i as int)) == Ok::<Seq<Seq<u8>>, PolicyFault>(path_views(list@)),
        decreases exclusions.len() - i,
    {
        let path = PathBuf::new(exclusions[i].as_str());
        let ghost before = path_views(list@);
        proof {
            assert(all.take(i + 1).drop_last() =~= all.take(i as int));
            assert(all.take(i + 1).last() == exclusions@[i as int]@);
        }
        if path.is_absolute() {
            match known.get(&path) {
                None => {
                    proof {
                        lemma_excluded_prefix(known@, all, i + 1);
                    }
                    return Err(PolicyError::Unresolved(path));
                },
                Some(Resolution::Physical(physical)) => {
                    list.push(physical.clone());
                    assert(path_views(list@) =~= before.push(physical@));
                },
                Some(Resolution::NotFound) => {},
                Some(Resolution::Failed) => {
                    proof {
                        lemma_excluded_prefix(known@, all, i + 1);
                    }
                    return Err(PolicyError::Exclusion(path));
                },
            }
        }
        i += 1;
    }
    assert(all.take(all.len() as int) =~= all);
    Ok(list)
}

proof fn lemma_excluded_prefix(known: Map<Seq<u8>, Resolved>, exclusions: Seq<Seq<char>>, n: int)
    requires
        0 <= n <= exclusions.len(),
        excluded_paths(known, exclusions.take(n)) is Err,
    ensures
        excluded_paths(known, exclusions) == excluded_paths(known, exclusions.take(n)),
    decreases exclusions.len(),
{
    if n < exclusions.len() {
        assert(exclusions.drop_last().take(n) =~= exclusions.take(n));
        lemma_excluded_prefix(known, exclusions.drop_last(), n);
    } else {
        assert(exclusions.take(n) =~= exclusions);
    }
}

/// Whether a path is absolute and without `..`.
pub fn validate_absolute_physical_path(path: &PathBuf) -> (plain: bool)
    ensures
        plain == is_plain_absolute(path@),
{
    if !path.is_absolute() {
        return false;
    }
    let components = path.components();
    let ghost all = path_components(path@);
    let mut i: usize = 0;
    while i < components.len()
        invariant
            i <= components.len(),
            byte_lists(components@) == all,
            all == path_components(path@),
            forall|k: int| 0 <= k < i ==> #[trigger] all[k] != parent_dir(),
        decreases components.len() - i,
    {
        let part = &components[i];
        assert(all[i as int] == part@);
        if part.len() == 2 && part[0] == DOT && part[1] == DOT {
            assert(part@ =~= parent_dir());
            assert(all.contains(parent_dir()));
            return false;
        }
        i += 1;
    }
    true
}

fn resolve_named(name: &str, path: &PathBuf, physical: &Resolutions) -> (result: Result<PathBuf, PolicyError>)
    ensures
        match named_directory(physical@, name@, path@) {
            Ok(p) => result matches Ok(r) && r@ == p,
            Err(fault) => result matches Err(error) && error@ == fault,
        },
{
    if !validate_absolute_physical_path(path) {
        return Err(PolicyError::AmbiguousRoot(name.to_owned(), path.clone()));
    }
    match physical.get(path) {
        None => Err(PolicyError::UnresolvedRoot(path.clone())),
        Some(Resolution::Physical(p)) => Ok(p.clone()),
        Some(_) => Err(PolicyError::RootUnavailable(name.to_owned(), path.clone())),
    }
}

fn push_variable_root<E: Environment>(
    roots: &mut Vec<ProtectedRoot>,
    environment: &E,
    name: &str,
    below: &str,
    kind: ProtectedRootKind,
)
    ensures
        views_of_roots(final(roots)@) == views_of_roots(old(roots)@) + variable_root(
            environment.value(name@),
            name@,
            below@,
            kind,
        ),
{
    let ghost before = views_of_roots(roots@);
    match environment.var_os(name) {
        Some(value) => {
            if !value.is_empty() {
                proof {
                    encode_utf8_decode_utf8(below@);
                }
                let plain = below.is_empty();
                proof {
                    if below@.len() == 0 {
                        assert(encode_utf8(below@) =~= Seq::empty());
                    }
                    if plain {
                        assert(encode_utf8(below@).len() == 0);
                        assert(decode_utf8(encode_utf8(below@)).len() == 0);
                    }
                }
                let path = if plain {
                    value
                } else {
                    value.join(&PathBuf::new(below))
                };
                let root = ProtectedRoot { path, kind, provenance: RootProvenance::Environment(name.to_owned()) };
                let ghost shown = root@;
                roots.push(root);
                assert(views_of_roots(roots@) =~= before.push(shown));
                assert(variable_root(environment.value(name@), name@, below@, kind) =~= seq![shown]);
            } else {
                assert(variable_root(environment.value(name@), name@, below@, kind) =~= seq![]);
            }
        },
        None => {},
    }
    assert(views_of_roots(roots@) =~= before + variable_root(environment.value(name@), name@, below@, kind));
}

/// The protected directories of a policy, before those that variables name are
/// resolved.
pub fn policy_roots_for<E: Environment>(platform: HostPlatform, home: &PathBuf, environment: &E) -> (roots: Vec<
    ProtectedRoot,
>)
    ensures
        views_of_roots(roots@) == default_roots(home@, platform) + variable_roots(environment),
{
    let defaults = protected_roots_for(home, platform);
    let ghost shown = default_roots(home@, platform);
    let mut roots: Vec<ProtectedRoot> = Vec::new();
    let mut i: usize = 0;
    while i < defaults.len()
        invariant
            i <= defaults.len(),
            root_views(defaults@) == protected_roots(home@, platform),
            shown == default_roots(home@, platform),
            views_of_roots(roots@) == shown.take(i as int),
        decreases defaults.len() - i,
    {
        let ghost before = views_of_roots(roots@);
        let kind = if i == 0 {
            ProtectedRootKind::Cargo
        } else if i == 1 {
            ProtectedRootKind::Rustup
        } else if i == 3 {
            ProtectedRootKind::Bun
        } else if i == 4 {
            ProtectedRootKind::GoModule
        } else {
            match defaults[i].kind {
                ProtectedKind::ManagedCache => ProtectedRootKind::ManagedCache,
                ProtectedKind::ContainerStorage => ProtectedRootKind::Container,
            }
        };
        let root = ProtectedRoot { path: defaults[i].path.clone(), kind, provenance: RootProvenance::Default };
        proof {
            assert(root_views(defaults@)[i as int] == (defaults@[i as int].path@, defaults@[i as int].kind));
            assert(root@ == shown[i as int]);
        }
        let ghost new = root@;
        roots.push(root);
        assert(views_of_roots(roots@) =~= before.push(new));
        i += 1;
        assert(views_of_roots(roots@) =~= shown.take(i as int));
    }
    assert(root_views(defaults@).len() == defaults@.len());
    assert(shown.take(shown.len() as int) =~= shown);
    let mut named = variable_roots_for(environment);
    let ghost more = views_of_roots(named@);
    roots.append(&mut named);
    assert(views_of_roots(roots@) =~= shown + more);
    roots
}

fn variable_roots_for<E: Environment>(environment: &E) -> (roots: Vec<ProtectedRoot>)
    ensures
        views_of_roots(roots@) == variable_roots(environment),
{
    proof {
        reveal_strlit("");
        assert(""@ =~= seq![]);
    }
    let mut roots: Vec<ProtectedRoot> = Vec::new();
    assert(views_of_roots(roots@) =~= seq![]);
    let ghost first = variable_root(
        environment.value("CARGO_HOME"@),
        "CARGO_HOME"@,
        seq![],
        ProtectedRootKind::Cargo,
    );
    push_variable_root(&mut roots, environment, "CARGO_HOME", "", ProtectedRootKind::Cargo);
    assert(seq![] + first =~= first);
    push_variable_root(&mut roots, environment, "RUSTUP_HOME", "", ProtectedRootKind::Rustup);
    push_variable_root(&mut roots, environment, "XDG_CACHE_HOME", "", ProtectedRootKind::ManagedCache);
    push_variable_root(&mut roots, environment, "XDG_DATA_HOME", "containers", ProtectedRootKind::Container);
    push_variable_root(&mut roots, environment, "GOMODCACHE", "", ProtectedRootKind::GoModule);
    push_variable_root(&mut roots, environment, "BUN_INSTALL", "install/cache", ProtectedRootKind::Bun);
    push_variable_root(&mut roots, environment, "BUN_INSTALL_CACHE_DIR", "", ProtectedRootKind::Bun);
    push_variable_root(&mut roots, environment, "COLIMA_HOME", "", ProtectedRootKind::Container);
    push_variable_root(&mut roots, environment, "LIMA_HOME", "", ProtectedRootKind::Container);
    roots
}

fn resolve_roots(roots: Vec<ProtectedRoot>, physical: &Resolutions) -> (result: Result<
    Vec<ProtectedRoot>,
    PolicyError,
>)
    ensures
        match resolved_roots(physical@, views_of_roots(roots@)) {
            Ok(list) => result matches Ok(r) && views_of_roots(r@) == list,
            Err(fault) => result matches Err(error) && error@ == fault,
        },
{
    let ghost all = views_of_roots(roots@);
    let mut list: Vec<ProtectedRoot> = Vec::new();
    let mut i: usize = 0;
    assert(views_of_roots(list@) =~= Seq::empty());
    assert(all.take(0) =~= Seq::empty());
    while i < roots.len()
        invariant
            i <= roots.len(),
            all == views_of_roots(roots@),
            resolved_roots(physical@, all.take(i as int)) == Ok::<Seq<RootView>, PolicyFault>(
                views_of_roots(list@),
            ),
        decreases roots.len() - i,
    {
        let root = &roots[i];
        let ghost before = views_of_roots(list@);
        proof {
            assert(all.take(i + 1).drop_last() =~= all.take(i as int));
            assert(all.take(i + 1).last() == root@);
        }
        let mut resolved = root.clone();
        match &root.provenance {
            RootProvenance::Environment(name) => {
                match resolve_named(name.as_str(), &root.path, physical) {
                    Ok(path) => {
                        resolved = ProtectedRoot {
                            path,
                            kind: root.kind,
                            provenance: RootProvenance::Environment(name.clone()),
                        };
                    },
                    Err(error) => {
                        proof {
                            lemma_roots_prefix(physical@, all, i + 1);
                        }
                        return Err(error);
                    },
                }
            },
            _ => {},
        }
        let ghost new = resolved@;
        list.push(resolved);
        assert(views_of_roots(list@) =~= before.push(new));
        i += 1;
    }
    assert(all.take(all.len() as int) =~= all);
    Ok(list)
}

proof fn lemma_roots_prefix(physical: Map<Seq<u8>, Resolved>, roots: Seq<RootView>, n: int)
    requires
        0 <= n <= roots.len(),
        resolved_roots(physical, roots.take(n)) is Err,
    ensures
        resolved_roots(physical, roots) == resolved_roots(physical, roots.take(n)),
    decreases roots.len(),
{
    if n < roots.len() {
        assert(roots.drop_last().take(n) =~= roots.take(n));
        lemma_roots_prefix(physical, roots.drop_last(), n);
    } else {
        assert(roots.take(n) =~= roots);
    }
}

pub(crate) fn sort_paths(paths: &mut Vec<PathBuf>)
    ensures
        path_views(final(paths)@) == sorted_distinct(path_views(old(paths)@), |path: Seq<u8>| path_rank(path)),
{
    let ghost before = paths@;
    sort_and_deduplicate(paths);
    proof {
        let view = |path: PathBuf| path@;
        let rank = |path: Seq<u8>| path_rank(path);
        sorted_views(before, paths@, view, rank);
        assert(before.map_values(view) =~= path_views(before));
        assert(paths@.map_values(view) =~= path_views(paths@));
    }
}

pub(crate) fn sort_texts(list: &mut Vec<String>)
    ensures
        texts(final(list)@) == sorted_distinct(texts(old(list)@), |text: Seq<char>| text_rank(text)),
{
    let ghost before = list@;
    sort_and_deduplicate(list);
    proof {
        let view = |text: String| text@;
        let rank = |text: Seq<char>| text_rank(text);
        sorted_views(before, list@, view, rank);
        assert(before.map_values(view) =~= texts(before));
        assert(list@.map_values(view) =~= texts(list@));
    }
}

fn sort_roots(roots: &mut Vec<ProtectedRoot>)
    ensures
        views_of_roots(final(roots)@) == sorted_distinct(
            views_of_roots(old(roots)@),
            |root: RootView| root_rank(root),
        ),
{
    let ghost before = roots@;
    sort_and_deduplicate(roots);
    proof {
        let view = |root: ProtectedRoot| root@;
        let rank = |root: RootView| root_rank(root);
        sorted_views(before, roots@, view, rank);
    }
}

fn retain_nonempty(list: &Vec<String>) -> (kept: Vec<String>)
    ensures
        texts(kept@) == texts(list@).filter(|text: Seq<char>| text.len() > 0),
{
    let ghost all = texts(list@);
    let ghost keep = |text: Seq<char>| text.len() > 0;
    let mut kept: Vec<String> = Vec::new();
    let mut i: usize = 0;
    assert(texts(kept@) =~= all.take(0).filter(keep));
    while i < list.len()
        invariant
            i <= list.len(),
            all == texts(list@),
            keep == (|text: Seq<char>| text.len() > 0),
            texts(kept@) == all.take(i as int).filter(keep),
        decreases list.len() - i,
    {
        let ghost before = texts(kept@);
        let text = list[i].as_str();
        proof {
            assert(all[i as int] == text@);
            assert(all.take(i + 1) =~= all.take(i as int).push(text@));
            all.take(i as int).lemma_filter_push(text@, keep);
            encode_utf8_decode_utf8(text@);
            if text@.len() == 0 {
                assert(encode_utf8(text@) =~= Seq::empty());
            }
            if encode_utf8(text@).len() == 0 {
                assert(decode_utf8(encode_utf8(text@)).len() == 0);
            }
        }
        if !text.is_empty() {
            kept.push(list[i].clone());
            assert(texts(kept@) =~= before.push(text@));
        }
        i += 1;
    }
    assert(all.take(all.len() as int) =~= all);
    kept
}

impl ScopePolicy {
    /// Builds the policy of a configuration over paths that have been resolved:
    /// `known` holds what canonicalizing paths gave, `physical` what resolving
    /// manager directories gave. An `Unresolved` error names the next path to
    /// resolve.
    pub fn build_with_canonicalizer<E: Environment>(
        config: &Config,
        config_source: &PathBuf,
        environment: &E,
        platform: HostPlatform,
        known: &Resolutions,
        physical: &Resolutions,
    ) -> (result: Result<ScopePolicy, PolicyError>)
        ensures
            match policy_of(config, config_source@, environment, platform, known@, physical@) {
                Ok(view) => result matches Ok(policy) && policy.contents() == view && policy.hash@ == policy_hash(
                    POLICY_HASH_FORMAT_VERSION,
                    view,
                ) && policy.policy_hash_format_version == POLICY_HASH_FORMAT_VERSION
                    && policy.target_quiet_period == config.target_quiet_period && policy.scan_interval
                    == config.scan_interval,
                Err(fault) => result matches Err(error) && error@ == fault,
            },
            result matches Ok(policy) ==> is_hash_text(policy.hash@),
    {
        let mut canonical_scan_roots = match canonicalize_required(&config.scan_dirs, RequiredKind::ScanRoot, known) {
            Ok(list) => list,
            Err(error) => return Err(error),
        };
        let mut canonical_project_paths = match canonicalize_required(
            &config.project_dirs,
            RequiredKind::ExplicitProject,
            known,
        ) {
            Ok(list) => list,
            Err(error) => return Err(error),
        };
        sort_paths(&mut canonical_scan_roots);
        sort_paths(&mut canonical_project_paths);
        let raw_home = match environment.var_os("HOME") {
            Some(home) => home,
            None => PathBuf::from_bytes(Vec::new()),
        };
        let mut lexical_exclusions = retain_nonempty(&config.effective_excludes(&raw_home, platform));
        sort_texts(&mut lexical_exclusions);
        let mut canonical_exclusions = match canonicalize_exclusions(&lexical_exclusions, known) {
            Ok(list) => list,
            Err(error) => return Err(error),
        };
        sort_paths(&mut canonical_exclusions);
        let home = if raw_home.is_empty() {
            raw_home
        } else {
            match resolve_named("HOME", &raw_home, physical) {
                Ok(home) => home,
                Err(error) => return Err(error),
            }
        };
        let mut protected_roots = match resolve_roots(policy_roots_for(platform, &home, environment), physical) {
            Ok(roots) => roots,
            Err(error) => return Err(error),
        };
        sort_roots(&mut protected_roots);
        let hash_input = PolicyHashInput {
            format_version: POLICY_HASH_FORMAT_VERSION,
            scan_roots: &canonical_scan_roots,
            project_paths: &canonical_project_paths,
            lexical_exclusions: &lexical_exclusions,
            canonical_exclusions: &canonical_exclusions,
            protected_roots: &protected_roots,
            target_quiet_period_ms: config.target_quiet_period.as_millis(),
            scan_interval_ms: config.scan_interval.as_millis(),
            config_source,
        };
        let hash = match hash_policy_input(&hash_input) {
            Some(hash) => hash,
            None => return Err(PolicyError::NotText),
        };
        Ok(
            ScopePolicy {
                canonical_scan_roots,
                canonical_project_paths,
                lexical_exclusions,
                canonical_exclusions,
                protected_roots,
                target_quiet_period: config.target_quiet_period,
                scan_interval: config.scan_interval,
                config_source: config_source.clone(),
                hash,
                policy_hash_format_version: POLICY_HASH_FORMAT_VERSION,
            },
        )
    }
}

// ----------------------------------------------------------------------- laws

/// An exclusion that is absent on a machine is no fault of a policy.
pub proof fn absent_exclusions_are_no_fault(known: Map<Seq<u8>, Resolved>, exclusions: Seq<Seq<char>>)
    requires
        forall|i: int|
            0 <= i < exclusions.len() && is_absolute_path(encode_utf8(#[trigger] exclusions[i]))
                ==> known.dom().contains(encode_utf8(exclusions[i])) && !(known[encode_utf8(exclusions[i])] is Failed),
    ensures
        excluded_paths(known, exclusions) is Ok,
    decreases exclusions.len(),
{
    if exclusions.len() > 0 {
        let shorter = exclusions.drop_last();
        assert forall|i: int| 0 <= i < shorter.len() && is_absolute_path(encode_utf8(#[trigger] shorter[i])) implies known.dom().contains(
            encode_utf8(shorter[i]),
        ) && !(known[encode_utf8(shorter[i])] is Failed) by {
            assert(shorter[i] == exclusions[i]);
        }
        absent_exclusions_are_no_fault(known, shorter);
        assert(exclusions.last() == exclusions[exclusions.len() - 1]);
    }
}

proof fn lemma_refused_root(physical: Map<Seq<u8>, Resolved>, roots: Seq<RootView>, i: int)
    requires
        0 <= i < roots.len(),
        roots[i].provenance is Environment,
        !is_plain_absolute(roots[i].path),
    ensures
        resolved_roots(physical, roots) is Err,
    decreases roots.len(),
{
    if i < roots.len() - 1 {
        assert(roots.drop_last()[i] == roots[i]);
        lemma_refused_root(physical, roots.drop_last(), i);
    }
}

/// A variable that names a protected directory ambiguously, by a relative path or one with
/// `..`, makes no policy: there is nothing to hash.
pub proof fn ambiguous_roots_make_no_policy<E: Environment>(
    config: &Config,
    config_source: Seq<u8>,
    environment: &E,
    platform: HostPlatform,
    known: Map<Seq<u8>, Resolved>,
    physical: Map<Seq<u8>, Resolved>,
    i: int,
)
    requires
        0 <= i < variable_roots(environment).len(),
        !is_plain_absolute(variable_roots(environment)[i].path),
    ensures
        policy_of(config, config_source, environment, platform, known, physical) is Err,
{
    let named = variable_roots(environment);
    assert(named[i].provenance is Environment);
    match policy_home(physical, value_or_empty(environment.value("HOME"@))) {
        Ok(home) => {
            let all = default_roots(home, platform) + named;
            let k = default_roots(home, platform).len() + i;
            assert(all[k] == named[i]);
            lemma_refused_root(physical, all, k);
        },
        Err(_) => {},
    }
}

} // verus!
