//! What a policy takes in and what it leaves out, in terms of what was configured.

use crate::config::Config;
use crate::environment::Environment;
use crate::order::{path_rank, path_rank_is_path_equality, sorted_distinct, sorted_distinct_holds};
use crate::path::{
    cur_dir, is_absolute_path, path_components, path_join, path_starts_with, path_views, same_path, PathBuf,
};
use crate::policy::scope::{
    default_roots, excluded_paths, is_plain_absolute, policy_of, required_paths, resolved_roots, roots_named_by, variable_roots,
    PolicyFault, RequiredKind,
};
use crate::policy::{
    lexically_excluded, occurs_at, root_rank, wanted_components, ProtectedRootKind, ProvenanceView, RootView, ScopePolicy,
};
use crate::resolve::Resolved;
use crate::storage::{protected_roots, HostPlatform, ProtectedKind};
use vstd::prelude::*;
use vstd::utf8::*;

verus! {

// ---------------------------------------------------------------------- scope

/// A project is in scope exactly if it lies at or below a scan root or is one of the
/// projects that are named themselves; what lies below a named project is not in scope
/// on that account.
pub proof fn projects_in_scope(policy: ScopePolicy, path: Seq<u8>)
    ensures
        policy.contains(path) <==> (exists|i: int|
            0 <= i < policy.canonical_scan_roots@.len() && path_starts_with(
                path,
                (#[trigger] policy.canonical_scan_roots@[i])@,
            )) || (exists|i: int|
            0 <= i < policy.canonical_project_paths@.len() && same_path(
                path,
                (#[trigger] policy.canonical_project_paths@[i])@,
            )),
{
}

/// A path is excluded exactly if it lies at or below an excluded directory, at or below
/// an absolute exclusion as it is written, or has the components of another exclusion in
/// a row among its own.
pub proof fn paths_excluded(policy: ScopePolicy, path: Seq<u8>)
    ensures
        policy.excludes(path) <==> (exists|i: int|
            0 <= i < policy.canonical_exclusions@.len() && path_starts_with(
                path,
                (#[trigger] policy.canonical_exclusions@[i])@,
            )) || (exists|i: int|
            0 <= i < policy.lexical_exclusions@.len() && lexically_excluded(
                path,
                encode_utf8((#[trigger] policy.lexical_exclusions@[i])@),
            )),
{
}

/// An exclusion that is not absolute excludes every path that has its components in a
/// row, wherever they stand.
pub proof fn components_in_a_row_are_excluded(path: Seq<u8>, exclusion: Seq<u8>, before: Seq<Seq<u8>>, behind: Seq<Seq<u8>>)
    requires
        exclusion.len() > 0,
        !is_absolute_path(exclusion),
        path_components(exclusion).len() > 0,
        path_components(exclusion)[0] != cur_dir(),
        path_components(path) == before + path_components(exclusion) + behind,
    ensures
        lexically_excluded(path, exclusion),
{
    let wanted = path_components(exclusion);
    assert(path_components(path).subrange(before.len() as int, before.len() as int + wanted.len()) =~= wanted);
    assert(occurs_at(path_components(path), wanted_components(exclusion), before.len() as int));
}

/// An exclusion that is not absolute excludes only paths that have its components in a
/// row.
pub proof fn other_components_are_not_excluded(path: Seq<u8>, exclusion: Seq<u8>) -> (split: (Seq<Seq<u8>>, Seq<Seq<u8>>))
    requires
        lexically_excluded(path, exclusion),
        !is_absolute_path(exclusion),
        path_components(exclusion).len() > 0,
        path_components(exclusion)[0] != cur_dir(),
    ensures
        path_components(path) == split.0 + path_components(exclusion) + split.1,
{
    let parts = path_components(path);
    let wanted = wanted_components(exclusion);
    let i = choose|i: int| #[trigger] occurs_at(parts, wanted, i);
    let before = parts.take(i);
    let behind = parts.skip(i + wanted.len());
    assert forall|k: int| 0 <= k < wanted.len() implies parts[i + k] == wanted[k] by {
        assert(parts.subrange(i, i + wanted.len())[k] == wanted[k]);
    }
    assert(parts =~= before + wanted + behind);
    (before, behind)
}

/// An absolute exclusion excludes exactly what lies at or below it, and an empty one
/// excludes nothing.
pub proof fn absolute_exclusions(path: Seq<u8>, exclusion: Seq<u8>)
    ensures
        is_absolute_path(exclusion) ==> (lexically_excluded(path, exclusion) <==> path_starts_with(path, exclusion)),
        exclusion.len() == 0 ==> !lexically_excluded(path, exclusion),
{
}

// ------------------------------------------------------------------- building

/// Required paths are taken by their physical paths, one for each in order, if every one
/// of them exists, and otherwise a fault is reported.
pub proof fn required_paths_are_physical(known: Map<Seq<u8>, Resolved>, kind: RequiredKind, paths: Seq<Seq<u8>>)
    ensures
        required_paths(known, kind, paths) is Ok <==> forall|i: int|
            0 <= i < paths.len() ==> known.dom().contains(#[trigger] paths[i]) && known[paths[i]] is Physical,
        required_paths(known, kind, paths) matches Ok(list) ==> list.len() == paths.len() && forall|i: int|
            0 <= i < paths.len() ==> known[#[trigger] paths[i]] == Resolved::Physical(list[i]),
    decreases paths.len(),
{
    if paths.len() > 0 {
        let front = paths.drop_last();
        required_paths_are_physical(known, kind, front);
        if required_paths(known, kind, front) is Err {
            let i = choose|i: int|
                0 <= i < front.len() && !(known.dom().contains(#[trigger] front[i]) && known[front[i]] is Physical);
            assert(paths[i] == front[i]);
        } else {
            let list = required_paths(known, kind, front)->Ok_0;
            assert forall|i: int| 0 <= i < front.len() implies known.dom().contains(#[trigger] paths[i]) && known[paths[i]]
                == Resolved::Physical(list[i]) by {
                assert(paths[i] == front[i]);
            }
            assert(paths[paths.len() - 1] == paths.last());
        }
    }
}

/// The first required path that does not exist is the one that is reported, as what it
/// was required for.
pub proof fn first_missing_path_is_reported(known: Map<Seq<u8>, Resolved>, kind: RequiredKind, paths: Seq<Seq<u8>>, i: int)
    requires
        0 <= i < paths.len(),
        known.dom().contains(paths[i]),
        !(known[paths[i]] is Physical),
        forall|k: int| 0 <= k < i ==> known.dom().contains(#[trigger] paths[k]) && known[paths[k]] is Physical,
    ensures
        required_paths(known, kind, paths) == Err::<Seq<Seq<u8>>, PolicyFault>(
            match kind {
                RequiredKind::ScanRoot => PolicyFault::ScanRoot(paths[i]),
                RequiredKind::ExplicitProject => PolicyFault::ExplicitProject(paths[i]),
            },
        ),
    decreases paths.len(),
{
    let front = paths.drop_last();
    if i < front.len() {
        assert(front[i] == paths[i]);
        assert forall|k: int| 0 <= k < i implies known.dom().contains(#[trigger] front[k]) && known[front[k]] is Physical by {
            assert(front[k] == paths[k]);
        }
        first_missing_path_is_reported(known, kind, front, i);
    } else {
        assert forall|k: int| 0 <= k < front.len() implies known.dom().contains(#[trigger] front[k])
            && known[front[k]] is Physical by {
            assert(front[k] == paths[k]);
        }
        required_paths_are_physical(known, kind, front);
    }
}

/// Of the exclusions exactly the absolute ones that exist are taken by their physical
/// paths.
pub proof fn existing_exclusions_are_physical(known: Map<Seq<u8>, Resolved>, exclusions: Seq<Seq<char>>)
    requires
        excluded_paths(known, exclusions) is Ok,
    ensures
        forall|i: int|
            0 <= i < exclusions.len() && is_absolute_path(encode_utf8(#[trigger] exclusions[i])) ==> (known[encode_utf8(
                exclusions[i],
            )] matches Resolved::Physical(physical) ==> excluded_paths(known, exclusions)->Ok_0.contains(physical)),
        forall|k: int|
            0 <= k < excluded_paths(known, exclusions)->Ok_0.len() ==> exists|i: int|
                0 <= i < exclusions.len() && is_absolute_path(encode_utf8(#[trigger] exclusions[i])) && known[encode_utf8(
                    exclusions[i],
                )] == Resolved::Physical(#[trigger] excluded_paths(known, exclusions)->Ok_0[k]),
    decreases exclusions.len(),
{
    let all = excluded_paths(known, exclusions)->Ok_0;
    if exclusions.len() > 0 {
        let front = exclusions.drop_last();
        let list = excluded_paths(known, front)->Ok_0;
        existing_exclusions_are_physical(known, front);
        assert forall|i: int| 0 <= i < exclusions.len() && is_absolute_path(encode_utf8(#[trigger] exclusions[i])) implies (
        known[encode_utf8(exclusions[i])] matches Resolved::Physical(physical) ==> all.contains(physical)) by {
            if let Resolved::Physical(physical) = known[encode_utf8(exclusions[i])] {
                if i < front.len() {
                    assert(front[i] == exclusions[i]);
                    let k = choose|k: int| 0 <= k < list.len() && list[k] == physical;
                    assert(all[k] == physical);
                } else {
                    assert(all[list.len() as int] == physical);
                }
            }
        }
        assert forall|k: int| 0 <= k < all.len() implies exists|i: int|
            0 <= i < exclusions.len() && is_absolute_path(encode_utf8(#[trigger] exclusions[i])) && known[encode_utf8(
                exclusions[i],
            )] == Resolved::Physical(#[trigger] all[k]) by {
            if k < list.len() {
                assert(all[k] == list[k]);
                let i = choose|i: int|
                    0 <= i < front.len() && is_absolute_path(encode_utf8(#[trigger] front[i])) && known[encode_utf8(front[i])]
                        == Resolved::Physical(list[k]);
                assert(exclusions[i] == front[i]);
            } else {
                let last = exclusions.len() - 1;
                assert(exclusions[last] == exclusions.last());
                assert(known[encode_utf8(exclusions[last])] == Resolved::Physical(all[k]));
            }
        }
    } else {
        assert(all.len() == 0);
    }
}

/// Whether a path is among a list, as paths are compared.
pub open spec fn listed(path: Seq<u8>, list: Seq<Seq<u8>>) -> bool {
    exists|i: int| 0 <= i < list.len() && same_path(path, #[trigger] list[i])
}

proof fn lemma_sorted_paths(paths: Seq<Seq<u8>>)
    ensures
        ({
            let sorted = sorted_distinct(paths, |path: Seq<u8>| path_rank(path));
            &&& forall|i: int| 0 <= i < paths.len() ==> listed(#[trigger] paths[i], sorted)
            &&& forall|k: int| 0 <= k < sorted.len() ==> paths.contains(#[trigger] sorted[k])
        }),
{
    let rank = |path: Seq<u8>| path_rank(path);
    let sorted = sorted_distinct(paths, rank);
    sorted_distinct_holds(paths, rank);
    assert forall|i: int| 0 <= i < paths.len() implies listed(#[trigger] paths[i], sorted) by {
        assert(crate::order::has_key_by(sorted, rank(paths[i]), rank));
        let k = choose|k: int| 0 <= k < sorted.len() && rank(#[trigger] sorted[k]) == rank(paths[i]);
        path_rank_is_path_equality(paths[i], sorted[k]);
    }
}

/// A policy holds every configured scan directory and every configured project by its
/// physical path, and nothing else; and what is configured decides how long a target has
/// to be quiet and how often to scan.
pub proof fn policies_hold_what_is_configured<E: Environment>(
    config: &Config,
    source: Seq<u8>,
    environment: &E,
    platform: HostPlatform,
    known: Map<Seq<u8>, Resolved>,
    physical: Map<Seq<u8>, Resolved>,
)
    requires
        policy_of(config, source, environment, platform, known, physical) is Ok,
    ensures
        ({
            let policy = policy_of(config, source, environment, platform, known, physical)->Ok_0;
            &&& forall|i: int|
                0 <= i < config.scan_dirs@.len() ==> (known[(#[trigger] config.scan_dirs@[i])@] matches Resolved::Physical(p)
                    && listed(p, policy.scan_roots))
            &&& forall|k: int|
                0 <= k < policy.scan_roots.len() ==> exists|i: int|
                    0 <= i < config.scan_dirs@.len() && known[(#[trigger] config.scan_dirs@[i])@] == Resolved::Physical(
                        #[trigger] policy.scan_roots[k],
                    )
            &&& forall|i: int|
                0 <= i < config.project_dirs@.len() ==> (known[(#[trigger] config.project_dirs@[i])@] matches Resolved::Physical(
                    p,
                ) && listed(p, policy.project_paths))
            &&& forall|k: int|
                0 <= k < policy.project_paths.len() ==> exists|i: int|
                    0 <= i < config.project_dirs@.len() && known[(#[trigger] config.project_dirs@[i])@] == Resolved::Physical(
                        #[trigger] policy.project_paths[k],
                    )
            &&& policy.target_quiet_period_ms == config.target_quiet_period@ / 1_000_000
            &&& policy.scan_interval_ms == config.scan_interval@ / 1_000_000
            &&& policy.config_source == source
        }),
{
    let policy = policy_of(config, source, environment, platform, known, physical)->Ok_0;
    lemma_configured(known, RequiredKind::ScanRoot, config.scan_dirs@);
    lemma_configured(known, RequiredKind::ExplicitProject, config.project_dirs@);
}

proof fn lemma_configured(known: Map<Seq<u8>, Resolved>, kind: RequiredKind, dirs: Seq<PathBuf>)
    requires
        required_paths(known, kind, path_views(dirs)) is Ok,
    ensures
        ({
            let sorted = sorted_distinct(
                required_paths(known, kind, path_views(dirs))->Ok_0,
                |path: Seq<u8>| path_rank(path),
            );
            &&& forall|i: int|
                0 <= i < dirs.len() ==> (known[(#[trigger] dirs[i])@] matches Resolved::Physical(p) && listed(p, sorted))
            &&& forall|k: int|
                0 <= k < sorted.len() ==> exists|i: int|
                    0 <= i < dirs.len() && known[(#[trigger] dirs[i])@] == Resolved::Physical(#[trigger] sorted[k])
        }),
{
    let paths = path_views(dirs);
    let list = required_paths(known, kind, paths)->Ok_0;
    let sorted = sorted_distinct(list, |path: Seq<u8>| path_rank(path));
    required_paths_are_physical(known, kind, paths);
    lemma_sorted_paths(list);
    assert forall|i: int| 0 <= i < dirs.len() implies (known[(#[trigger] dirs[i])@] matches Resolved::Physical(p) && listed(
        p,
        sorted,
    )) by {
        assert(paths[i] == dirs[i]@);
        assert(listed(list[i], sorted));
    }
    assert forall|k: int| 0 <= k < sorted.len() implies exists|i: int|
        0 <= i < dirs.len() && known[(#[trigger] dirs[i])@] == Resolved::Physical(#[trigger] sorted[k]) by {
        assert(list.contains(sorted[k]));
        let i = choose|i: int| 0 <= i < list.len() && list[i] == sorted[k];
        assert(paths[i] == dirs[i]@);
    }
}

// ------------------------------------------------------------ protected roots

/// Every variable that names a tool's storage makes the directory that it names, or the
/// part of it that the tool keeps its storage in, a protected root.
pub proof fn variables_name_protected_roots(value: spec_fn(Seq<char>) -> Option<Seq<u8>>)
    ensures
        forall|path: Seq<u8>| #![trigger path.len()]
            path.len() > 0 ==> {
                let roots = roots_named_by(value);
                let root = |name: Seq<char>, path: Seq<u8>, kind: ProtectedRootKind|
                    RootView { path, kind, provenance: ProvenanceView::Environment(name) };
                &&& value("CARGO_HOME"@) == Some(path) ==> roots.contains(
                    root("CARGO_HOME"@, path, ProtectedRootKind::Cargo),
                )
                &&& value("RUSTUP_HOME"@) == Some(path) ==> roots.contains(
                    root("RUSTUP_HOME"@, path, ProtectedRootKind::Rustup),
                )
                &&& value("XDG_CACHE_HOME"@) == Some(path) ==> roots.contains(
                    root("XDG_CACHE_HOME"@, path, ProtectedRootKind::ManagedCache),
                )
                &&& value("XDG_DATA_HOME"@) == Some(path) ==> roots.contains(
                    root("XDG_DATA_HOME"@, path_join(path, encode_utf8("containers"@)), ProtectedRootKind::Container),
                )
                &&& value("GOMODCACHE"@) == Some(path) ==> roots.contains(
                    root("GOMODCACHE"@, path, ProtectedRootKind::GoModule),
                )
                &&& value("BUN_INSTALL"@) == Some(path) ==> roots.contains(
                    root("BUN_INSTALL"@, path_join(path, encode_utf8("install/cache"@)), ProtectedRootKind::Bun),
                )
                &&& value("BUN_INSTALL_CACHE_DIR"@) == Some(path) ==> roots.contains(
                    root("BUN_INSTALL_CACHE_DIR"@, path, ProtectedRootKind::Bun),
                )
                &&& value("COLIMA_HOME"@) == Some(path) ==> roots.contains(
                    root("COLIMA_HOME"@, path, ProtectedRootKind::Container),
                )
                &&& value("LIMA_HOME"@) == Some(path) ==> roots.contains(
                    root("LIMA_HOME"@, path, ProtectedRootKind::Container),
                )
            },
{
    reveal_strlit("containers");
    reveal_strlit("install/cache");
    let a = crate::policy::scope::variable_root(value("CARGO_HOME"@), "CARGO_HOME"@, seq![], ProtectedRootKind::Cargo);
    let b = crate::policy::scope::variable_root(value("RUSTUP_HOME"@), "RUSTUP_HOME"@, seq![], ProtectedRootKind::Rustup);
    let c = crate::policy::scope::variable_root(
        value("XDG_CACHE_HOME"@),
        "XDG_CACHE_HOME"@,
        seq![],
        ProtectedRootKind::ManagedCache,
    );
    let d = crate::policy::scope::variable_root(
        value("XDG_DATA_HOME"@),
        "XDG_DATA_HOME"@,
        "containers"@,
        ProtectedRootKind::Container,
    );
    let e = crate::policy::scope::variable_root(value("GOMODCACHE"@), "GOMODCACHE"@, seq![], ProtectedRootKind::GoModule);
    let f = crate::policy::scope::variable_root(
        value("BUN_INSTALL"@),
        "BUN_INSTALL"@,
        "install/cache"@,
        ProtectedRootKind::Bun,
    );
    let g = crate::policy::scope::variable_root(
        value("BUN_INSTALL_CACHE_DIR"@),
        "BUN_INSTALL_CACHE_DIR"@,
        seq![],
        ProtectedRootKind::Bun,
    );
    let h = crate::policy::scope::variable_root(value("COLIMA_HOME"@), "COLIMA_HOME"@, seq![], ProtectedRootKind::Container);
    let l = crate::policy::scope::variable_root(value("LIMA_HOME"@), "LIMA_HOME"@, seq![], ProtectedRootKind::Container);
    let roots = roots_named_by(value);
    let ab = a + b;
    let abc = ab + c;
    let abcd = abc + d;
    let abcde = abcd + e;
    let abcdef = abcde + f;
    let abcdefg = abcdef + g;
    let abcdefgh = abcdefg + h;
    assert(roots == abcdefgh + l);
    assert(a.len() > 0 ==> roots[0] == a[0]);
    assert(b.len() > 0 ==> roots[a.len() as int] == b[0]);
    assert(c.len() > 0 ==> roots[ab.len() as int] == c[0]);
    assert(d.len() > 0 ==> roots[abc.len() as int] == d[0]);
    assert(e.len() > 0 ==> roots[abcd.len() as int] == e[0]);
    assert(f.len() > 0 ==> roots[abcde.len() as int] == f[0]);
    assert(g.len() > 0 ==> roots[abcdef.len() as int] == g[0]);
    assert(h.len() > 0 ==> roots[abcdefg.len() as int] == h[0]);
    assert(l.len() > 0 ==> roots[abcdefgh.len() as int] == l[0]);
}

/// A protected root that a variable names is taken by its physical path, and only if it
/// is absolute and names no parent directory; the others are taken as they are. None is
/// left out.
pub proof fn protected_roots_are_resolved(physical: Map<Seq<u8>, Resolved>, roots: Seq<RootView>)
    requires
        resolved_roots(physical, roots) is Ok,
    ensures
        resolved_roots(physical, roots)->Ok_0.len() == roots.len(),
        forall|i: int|
            0 <= i < roots.len() ==> {
                let root = resolved_roots(physical, roots)->Ok_0[i];
                &&& root.kind == (#[trigger] roots[i]).kind
                &&& root.provenance == roots[i].provenance
                &&& roots[i].provenance is Environment ==> is_absolute_path(roots[i].path) && is_plain_absolute(roots[i].path)
                    && physical[roots[i].path] == Resolved::Physical(root.path)
                &&& !(roots[i].provenance is Environment) ==> root.path == roots[i].path
            },
    decreases roots.len(),
{
    if roots.len() > 0 {
        let front = roots.drop_last();
        protected_roots_are_resolved(physical, front);
        let list = resolved_roots(physical, front)->Ok_0;
        let all = resolved_roots(physical, roots)->Ok_0;
        assert forall|i: int| 0 <= i < roots.len() implies {
            let root = all[i];
            &&& root.kind == (#[trigger] roots[i]).kind
            &&& root.provenance == roots[i].provenance
            &&& roots[i].provenance is Environment ==> is_absolute_path(roots[i].path) && is_plain_absolute(roots[i].path)
                && physical[roots[i].path] == Resolved::Physical(root.path)
            &&& !(roots[i].provenance is Environment) ==> root.path == roots[i].path
        } by {
            if i < front.len() {
                assert(front[i] == roots[i]);
                assert(all[i] == list[i]);
            }
        }
    }
}

/// A path is plain and absolute exactly if it starts with a separator and has no
/// component that stands for the parent directory.
pub proof fn plain_paths_have_no_parents(path: Seq<u8>)
    ensures
        is_plain_absolute(path) <==> path.len() > 0 && path[0] == crate::path::SLASH && forall|i: int|
            0 <= i < path_components(path).len() ==> #[trigger] path_components(path)[i] != seq![46u8, 46u8],
{
}

/// Whether a list has a root with the place in the order, and so the path, the kind and
/// the origin, of this one.
pub open spec fn has_root(list: Seq<RootView>, root: RootView) -> bool {
    exists|i: int| 0 <= i < list.len() && root_rank(#[trigger] list[i]) == root_rank(root)
}

/// A policy protects every default root below the physical home directory and every root
/// that the environment names, and no other.
pub proof fn policies_protect_every_root<E: Environment>(
    config: &Config,
    source: Seq<u8>,
    environment: &E,
    platform: HostPlatform,
    known: Map<Seq<u8>, Resolved>,
    physical: Map<Seq<u8>, Resolved>,
    home: Seq<u8>,
)
    requires
        policy_of(config, source, environment, platform, known, physical) is Ok,
        environment.value("HOME"@) matches Some(written) && written.len() > 0 && physical[written] == Resolved::Physical(home),
    ensures
        ({
            let policy = policy_of(config, source, environment, platform, known, physical)->Ok_0;
            let named = resolved_roots(physical, default_roots(home, platform) + variable_roots(environment));
            &&& named is Ok
            &&& forall|i: int|
                0 <= i < named->Ok_0.len() ==> has_root(policy.protected_roots, #[trigger] named->Ok_0[i])
            &&& forall|k: int|
                0 <= k < policy.protected_roots.len() ==> named->Ok_0.contains(#[trigger] policy.protected_roots[k])
        }),
{
    let policy = policy_of(config, source, environment, platform, known, physical)->Ok_0;
    let roots = resolved_roots(physical, default_roots(home, platform) + variable_roots(environment))->Ok_0;
    let rank = |root: RootView| root_rank(root);
    sorted_distinct_holds(roots, rank);
    assert(policy.protected_roots == sorted_distinct(roots, rank));
    assert forall|i: int| 0 <= i < roots.len() implies has_root(policy.protected_roots, #[trigger] roots[i]) by {
        assert(crate::order::has_key_by(policy.protected_roots, rank(roots[i]), rank));
        let k = choose|k: int|
            0 <= k < policy.protected_roots.len() && rank(#[trigger] policy.protected_roots[k]) == rank(roots[i]);
        assert(root_rank(policy.protected_roots[k]) == root_rank(roots[i]));
    }
}

/// Whether a directory of the home directory is a default root of a kind.
pub open spec fn of_kind(home: Seq<u8>, platform: HostPlatform, relative: Seq<char>, kind: ProtectedRootKind) -> bool {
    exists|i: int|
        0 <= i < default_roots(home, platform).len() && (#[trigger] default_roots(home, platform)[i]).path == path_join(
            home,
            encode_utf8(relative),
        ) && default_roots(home, platform)[i].kind == kind
}

/// The default roots are those of the toolchain, of the package managers and of containers
/// below the home directory, each of its kind.
pub proof fn default_roots_have_their_kinds(home: Seq<u8>, platform: HostPlatform)
    ensures
        default_roots(home, platform).len() == protected_roots(home, platform).len(),
        forall|i: int|
            0 <= i < default_roots(home, platform).len() ==> {
                let root = #[trigger] default_roots(home, platform)[i];
                &&& root.path == protected_roots(home, platform)[i].0
                &&& root.provenance == ProvenanceView::Default
                &&& protected_roots(home, platform)[i].1 == ProtectedKind::ContainerStorage <==> root.kind
                    == ProtectedRootKind::Container
            },
        crate::path::is_absolute_path(home) ==> {
            &&& of_kind(home, platform, ".cargo"@, ProtectedRootKind::Cargo)
            &&& of_kind(home, platform, ".rustup"@, ProtectedRootKind::Rustup)
            &&& of_kind(home, platform, ".cache"@, ProtectedRootKind::ManagedCache)
            &&& of_kind(home, platform, ".bun/install/cache"@, ProtectedRootKind::Bun)
            &&& of_kind(home, platform, "go/pkg/mod"@, ProtectedRootKind::GoModule)
            &&& of_kind(home, platform, ".colima"@, ProtectedRootKind::Container)
        },
{
    if crate::path::is_absolute_path(home) {
        let roots = default_roots(home, platform);
        assert(roots[0].path == path_join(home, encode_utf8(".cargo"@)));
        assert(roots[1].path == path_join(home, encode_utf8(".rustup"@)));
        assert(roots[2].path == path_join(home, encode_utf8(".cache"@)));
        assert(roots[3].path == path_join(home, encode_utf8(".bun/install/cache"@)));
        assert(roots[4].path == path_join(home, encode_utf8("go/pkg/mod"@)));
        assert(roots[5].path == path_join(home, encode_utf8(".colima"@)));
    }
}

} // verus!
