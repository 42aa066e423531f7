//! The cleanup policy: which projects are in scope, what is excluded and
//! protected, and the hash that tells one policy from another.

pub use crate::environment::{Environment, ProcessEnvironment};
use crate::order::{bytes_rank_key, path_rank, text_rank, Ranked};
use crate::path::{
    cur_dir, is_absolute_path, path_components, path_starts_with, path_views, same_path, PathBuf, DOT,
};
use crate::text::{byte_lists, bytes_equal, texts};
use crate::time::Duration;
use vstd::prelude::*;
use vstd::utf8::encode_utf8;

pub mod document;
pub mod laws;
pub mod scope;

verus! {

/// The version of the document that is hashed.
pub const POLICY_HASH_FORMAT_VERSION: u32 = 2;

/// What a protected directory belongs to.
#[derive(Debug, Clone, Copy, PartialEq, Eq, Structural)]
pub enum ProtectedRootKind {
    Cargo,
    Rustup,
    GoModule,
    Bun,
    ManagedCache,
    Container,
}

/// Where the knowledge of a protected directory comes from.
#[derive(Debug, PartialEq, Eq)]
pub enum RootProvenance {
    Default,
    Environment(String),
    ServiceDefinition,
    StructuralRoot,
}

/// A protected directory of a policy.
#[derive(Debug, PartialEq, Eq)]
pub struct ProtectedRoot {
    pub path: PathBuf,
    pub kind: ProtectedRootKind,
    pub provenance: RootProvenance,
}

/// The contents of a provenance.
pub enum ProvenanceView {
    Default,
    Environment(Seq<char>),
    ServiceDefinition,
    StructuralRoot,
}

/// The contents of a protected directory.
pub struct RootView {
    pub path: Seq<u8>,
    pub kind: ProtectedRootKind,
    pub provenance: ProvenanceView,
}

impl View for RootProvenance {
    type V = ProvenanceView;

    open spec fn view(&self) -> ProvenanceView {
        match self {
            RootProvenance::Default => ProvenanceView::Default,
            RootProvenance::Environment(name) => ProvenanceView::Environment(name@),
            RootProvenance::ServiceDefinition => ProvenanceView::ServiceDefinition,
            RootProvenance::StructuralRoot => ProvenanceView::StructuralRoot,
        }
    }
}

impl View for ProtectedRoot {
    type V = RootView;

    open spec fn view(&self) -> RootView {
        RootView { path: self.path@, kind: self.kind, provenance: self.provenance@ }
    }
}

impl Clone for ProtectedRoot {
    fn clone(&self) -> (copy: Self)
        ensures
            copy@ == self@,
    {
        let provenance = match &self.provenance {
            RootProvenance::Default => RootProvenance::Default,
            RootProvenance::Environment(name) => RootProvenance::Environment(name.clone()),
            RootProvenance::ServiceDefinition => RootProvenance::ServiceDefinition,
            RootProvenance::StructuralRoot => RootProvenance::StructuralRoot,
        };
        ProtectedRoot { path: self.path.clone(), kind: self.kind, provenance }
    }
}

/// The contents of a list of protected directories.
pub open spec fn views_of_roots(roots: Seq<ProtectedRoot>) -> Seq<RootView> {
    roots.map_values(|root: ProtectedRoot| root@)
}

/// The place of a kind in the order of kinds.
pub open spec fn kind_rank(kind: ProtectedRootKind) -> i16 {
    match kind {
        ProtectedRootKind::Cargo => 0,
        ProtectedRootKind::Rustup => 1,
        ProtectedRootKind::GoModule => 2,
        ProtectedRootKind::Bun => 3,
        ProtectedRootKind::ManagedCache => 4,
        ProtectedRootKind::Container => 5,
    }
}

/// The sort key of a provenance.
pub open spec fn provenance_rank(provenance: ProvenanceView) -> Seq<i16> {
    match provenance {
        ProvenanceView::Default => seq![0],
        ProvenanceView::Environment(name) => seq![1i16] + text_rank(name),
        ProvenanceView::ServiceDefinition => seq![2],
        ProvenanceView::StructuralRoot => seq![3],
    }
}

/// Protected directories are ordered by path, then kind, then provenance.
pub open spec fn root_rank(root: RootView) -> Seq<i16> {
    path_rank(root.path) + seq![0i16, kind_rank(root.kind)] + provenance_rank(root.provenance)
}

impl Ranked for ProtectedRoot {
    open spec fn rank(&self) -> Seq<i16> {
        root_rank(self@)
    }

    fn rank_key(&self) -> (key: Vec<i16>) {
        let mut key = self.path.rank_key();
        key.push(0);
        key.push(
            match self.kind {
                ProtectedRootKind::Cargo => 0,
                ProtectedRootKind::Rustup => 1,
                ProtectedRootKind::GoModule => 2,
                ProtectedRootKind::Bun => 3,
                ProtectedRootKind::ManagedCache => 4,
                ProtectedRootKind::Container => 5,
            },
        );
        match &self.provenance {
            RootProvenance::Default => key.push(0),
            RootProvenance::Environment(name) => {
                key.push(1);
                let mut rest = bytes_rank_key(name.as_str().as_bytes());
                key.append(&mut rest);
            },
            RootProvenance::ServiceDefinition => key.push(2),
            RootProvenance::StructuralRoot => key.push(3),
        }
        assert(key@ =~= root_rank(self@));
        key
    }
}

/// Scope, exclusions, protected directories and timing, with the hash over all of
/// them.
#[derive(Debug)]
pub struct ScopePolicy {
    pub canonical_scan_roots: Vec<PathBuf>,
    pub canonical_project_paths: Vec<PathBuf>,
    pub lexical_exclusions: Vec<String>,
    pub canonical_exclusions: Vec<PathBuf>,
    pub protected_roots: Vec<ProtectedRoot>,
    pub target_quiet_period: Duration,
    pub scan_interval: Duration,
    pub config_source: PathBuf,
    pub hash: String,
    pub policy_hash_format_version: u32,
}

/// A policy as it is shown to the user.
#[derive(Debug)]
pub struct ScopePolicyDiagnostics<'a> {
    pub policy_hash_format_version: u32,
    pub hash: &'a String,
    pub canonical_scan_roots: &'a Vec<PathBuf>,
    pub canonical_project_paths: &'a Vec<PathBuf>,
    pub lexical_exclusions: &'a Vec<String>,
    pub canonical_exclusions: &'a Vec<PathBuf>,
    pub protected_roots: &'a Vec<ProtectedRoot>,
    pub target_quiet_period_ms: u128,
    pub scan_interval_ms: u128,
    pub config_source: &'a PathBuf,
}

/// What is hashed of a policy.
#[derive(Debug)]
pub struct PolicyHashInput<'a> {
    pub format_version: u32,
    pub scan_roots: &'a Vec<PathBuf>,
    pub project_paths: &'a Vec<PathBuf>,
    pub lexical_exclusions: &'a Vec<String>,
    pub canonical_exclusions: &'a Vec<PathBuf>,
    pub protected_roots: &'a Vec<ProtectedRoot>,
    pub target_quiet_period_ms: u128,
    pub scan_interval_ms: u128,
    pub config_source: &'a PathBuf,
}

/// The contents of a policy.
#[verifier::ext_equal]
pub struct PolicyView {
    pub scan_roots: Seq<Seq<u8>>,
    pub project_paths: Seq<Seq<u8>>,
    pub lexical_exclusions: Seq<Seq<char>>,
    pub canonical_exclusions: Seq<Seq<u8>>,
    pub protected_roots: Seq<RootView>,
    pub target_quiet_period_ms: nat,
    pub scan_interval_ms: nat,
    pub config_source: Seq<u8>,
}

/// The components that an exclusion by name looks for: its own, without a
/// leading `.`.
pub open spec fn wanted_components(exclusion: Seq<u8>) -> Seq<Seq<u8>> {
    let components = path_components(exclusion);
    if components.len() > 0 && components[0] == cur_dir() {
        components.drop_first()
    } else {
        components
    }
}

/// Whether `wanted` occurs in `parts` as an unbroken run that starts at `i`.
pub open spec fn occurs_at<T>(parts: Seq<T>, wanted: Seq<T>, i: int) -> bool {
    0 <= i && i + wanted.len() <= parts.len() && parts.subrange(i, i + wanted.len()) == wanted
}

/// Whether an exclusion covers a path: an absolute one covers what lies below
/// it, any other covers every path in which its components occur in a row.
pub open spec fn lexically_excluded(path: Seq<u8>, exclusion: Seq<u8>) -> bool {
    if exclusion.len() == 0 {
        false
    } else if is_absolute_path(exclusion) {
        path_starts_with(path, exclusion)
    } else {
        let wanted = wanted_components(exclusion);
        wanted.len() > 0 && exists|i: int| #[trigger] occurs_at(path_components(path), wanted, i)
    }
}

/// Whether a path starts with one of a list of paths.
pub open spec fn below_any(path: Seq<u8>, roots: Seq<PathBuf>) -> bool {
    exists|i: int| 0 <= i < roots.len() && path_starts_with(path, (#[trigger] roots[i])@)
}

/// Whether a path is one of a list of paths.
pub open spec fn among(path: Seq<u8>, paths: Seq<PathBuf>) -> bool {
    exists|i: int| 0 <= i < paths.len() && same_path(path, (#[trigger] paths[i])@)
}

impl ScopePolicy {
    /// Whether a project is in scope: below a scan root, or named itself.
    pub open spec fn contains(&self, path: Seq<u8>) -> bool {
        below_any(path, self.canonical_scan_roots@) || among(path, self.canonical_project_paths@)
    }

    /// Whether a path is excluded: below an excluded directory, or covered by an
    /// exclusion as it is written.
    pub open spec fn excludes(&self, path: Seq<u8>) -> bool {
        below_any(path, self.canonical_exclusions@) || exists|i: int|
            0 <= i < self.lexical_exclusions@.len() && lexically_excluded(
                path,
                encode_utf8((#[trigger] self.lexical_exclusions@[i])@),
            )
    }

    /// The contents of the policy.
    pub open spec fn contents(&self) -> PolicyView {
        PolicyView {
            scan_roots: path_views(self.canonical_scan_roots@),
            project_paths: path_views(self.canonical_project_paths@),
            lexical_exclusions: texts(self.lexical_exclusions@),
            canonical_exclusions: path_views(self.canonical_exclusions@),
            protected_roots: views_of_roots(self.protected_roots@),
            target_quiet_period_ms: self.target_quiet_period@ / 1_000_000,
            scan_interval_ms: self.scan_interval@ / 1_000_000,
            config_source: self.config_source@,
        }
    }

    /// Whether a project is in scope.
    pub fn contains_project(&self, path: &PathBuf) -> (contained: bool)
        ensures
            contained == self.contains(path@),
    {
        is_below_any(path, &self.canonical_scan_roots) || is_among(path, &self.canonical_project_paths)
    }

    /// Whether a path is excluded.
    pub fn is_excluded(&self, path: &PathBuf) -> (excluded: bool)
        ensures
            excluded == self.excludes(path@),
    {
        if is_below_any(path, &self.canonical_exclusions) {
            return true;
        }
        let mut i: usize = 0;
        while i < self.lexical_exclusions.len()
            invariant
                i <= self.lexical_exclusions.len(),
                !below_any(path@, self.canonical_exclusions@),
                forall|k: int|
                    0 <= k < i ==> !lexically_excluded(
                        path@,
                        encode_utf8((#[trigger] self.lexical_exclusions@[k])@),
                    ),
            decreases self.lexical_exclusions.len() - i,
        {
            if lexical_exclusion_matches(path, &PathBuf::new(self.lexical_exclusions[i].as_str())) {
                assert(lexically_excluded(path@, encode_utf8(self.lexical_exclusions@[i as int]@)));
                return true;
            }
            i += 1;
        }
        false
    }

    /// The hash of the policy.
    pub fn hash(&self) -> (hash: &String)
        ensures
            *hash == self.hash,
    {
        &self.hash
    }

    /// The policy as it is shown to the user.
    pub fn diagnostics(&self) -> (shown: ScopePolicyDiagnostics<'_>)
        ensures
            shown.policy_hash_format_version == self.policy_hash_format_version,
            *shown.hash == self.hash,
            *shown.canonical_scan_roots == self.canonical_scan_roots,
            *shown.canonical_project_paths == self.canonical_project_paths,
            *shown.lexical_exclusions == self.lexical_exclusions,
            *shown.canonical_exclusions == self.canonical_exclusions,
            *shown.protected_roots == self.protected_roots,
            shown.target_quiet_period_ms == self.target_quiet_period@ / 1_000_000,
            shown.scan_interval_ms == self.scan_interval@ / 1_000_000,
            *shown.config_source == self.config_source,
    {
        ScopePolicyDiagnostics {
            policy_hash_format_version: self.policy_hash_format_version,
            hash: &self.hash,
            canonical_scan_roots: &self.canonical_scan_roots,
            canonical_project_paths: &self.canonical_project_paths,
            lexical_exclusions: &self.lexical_exclusions,
            canonical_exclusions: &self.canonical_exclusions,
            protected_roots: &self.protected_roots,
            target_quiet_period_ms: self.target_quiet_period.as_millis(),
            scan_interval_ms: self.scan_interval.as_millis(),
            config_source: &self.config_source,
        }
    }
}

/// Whether a path starts with one of a list of paths.
pub fn is_below_any(path: &PathBuf, roots: &Vec<PathBuf>) -> (found: bool)
    ensures
        found == below_any(path@, roots@),
{
    let mut i: usize = 0;
    while i < roots.len()
        invariant
            i <= roots.len(),
            forall|k: int| 0 <= k < i ==> !path_starts_with(path@, (#[trigger] roots@[k])@),
        decreases roots.len() - i,
    {
        if path.starts_with(&roots[i]) {
            assert(path_starts_with(path@, roots@[i as int]@));
            return true;
        }
        i += 1;
    }
    false
}

/// Whether a path is one of a list of paths.
pub fn is_among(path: &PathBuf, paths: &Vec<PathBuf>) -> (found: bool)
    ensures
        found == among(path@, paths@),
{
    let mut i: usize = 0;
    while i < paths.len()
        invariant
            i <= paths.len(),
            forall|k: int| 0 <= k < i ==> !same_path(path@, (#[trigger] paths@[k])@),
        decreases paths.len() - i,
    {
        if *path == paths[i] {
            assert(same_path(path@, paths@[i as int]@));
            return true;
        }
        i += 1;
    }
    false
}

fn run_occurs_at(parts: &Vec<Vec<u8>>, wanted: &Vec<Vec<u8>>, skip: usize, i: usize) -> (occurs: bool)
    requires
        skip <= wanted.len(),
        i + (wanted.len() - skip) <= parts.len(),
    ensures
        occurs == occurs_at(byte_lists(parts@), byte_lists(wanted@).skip(skip as int), i as int),
{
    let ghost all = byte_lists(parts@);
    let ghost want = byte_lists(wanted@).skip(skip as int);
    let mut k: usize = 0;
    while k < wanted.len() - skip
        invariant
            skip <= wanted.len(),
            k <= wanted.len() - skip,
            i + (wanted.len() - skip) <= parts.len(),
            all == byte_lists(parts@),
            want == byte_lists(wanted@).skip(skip as int),
            forall|n: int| 0 <= n < k ==> all[i + n] == #[trigger] want[n],
        decreases wanted.len() - skip - k,
    {
        assert(all[i + k] == parts@[i + k]@);
        assert(want[k as int] == wanted@[skip + k]@);
        if !bytes_equal(parts[i + k].as_slice(), wanted[skip + k].as_slice()) {
            assert(all.subrange(i as int, i + want.len())[k as int] == all[i + k]);
            return false;
        }
        k += 1;
    }
    assert(all.subrange(i as int, i + want.len()) =~= want);
    true
}

/// Whether an exclusion covers a path.
pub fn lexical_exclusion_matches(path: &PathBuf, exclusion: &PathBuf) -> (matches: bool)
    ensures
        matches == lexically_excluded(path@, exclusion@),
{
    if exclusion.is_empty() {
        return false;
    }
    if exclusion.is_absolute() {
        return path.starts_with(exclusion);
    }
    let wanted = exclusion.components();
    let ghost named = path_components(exclusion@);
    let mut skip: usize = 0;
    if wanted.len() > 0 && wanted[0].len() == 1 && wanted[0][0] == DOT {
        skip = 1;
        assert(named[0] == wanted@[0]@);
        assert(wanted@[0]@ =~= cur_dir());
    }
    proof {
        if wanted@.len() > 0 {
            assert(named[0] == wanted@[0]@);
        }
        if skip == 0 {
            assert(named.skip(0) =~= named);
        }
        assert(named.skip(skip as int) =~= wanted_components(exclusion@));
    }
    let count: usize = wanted.len() - skip;
    if count == 0 {
        return false;
    }
    let parts = path.components();
    let ghost all = path_components(path@);
    if parts.len() < count {
        return false;
    }
    let mut i: usize = 0;
    while i <= parts.len() - count
        invariant
            0 < count <= parts.len(),
            count == wanted.len() - skip,
            skip <= wanted.len(),
            i <= parts.len() - count + 1,
            all == path_components(path@),
            byte_lists(parts@) == all,
            byte_lists(wanted@).skip(skip as int) == wanted_components(exclusion@),
            exclusion@.len() > 0,
            !is_absolute_path(exclusion@),
            forall|k: int| 0 <= k < i ==> !#[trigger] occurs_at(all, wanted_components(exclusion@), k),
        decreases parts.len() - i,
    {
        if run_occurs_at(&parts, &wanted, skip, i) {
            return true;
        }
        i += 1;
    }
    false
}

/// What lies below an absolute exclusion is excluded with it.
pub proof fn exclusion_covers_descendants(path: Seq<u8>, child: Seq<u8>, exclusion: Seq<u8>)
    requires
        lexically_excluded(path, exclusion),
        path_starts_with(child, path),
    ensures
        lexically_excluded(child, exclusion),
{
    let p = path_components(path);
    let c = path_components(child);
    if is_absolute_path(exclusion) {
        crate::path::containment_is_transitive(child, path, exclusion);
    } else {
        let wanted = wanted_components(exclusion);
        let i = choose|i: int| #[trigger] occurs_at(p, wanted, i);
        assert(c.subrange(i, i + wanted.len()) =~= p.subrange(i, i + wanted.len()));
        assert(occurs_at(c, wanted, i));
    }
}

/// What lies below a scan root is in scope, with everything below it.
pub proof fn scope_covers_descendants(policy: ScopePolicy, path: Seq<u8>, child: Seq<u8>)
    requires
        below_any(path, policy.canonical_scan_roots@),
        path_starts_with(child, path),
    ensures
        policy.contains(child),
{
    let roots = policy.canonical_scan_roots@;
    let i = choose|i: int| 0 <= i < roots.len() && path_starts_with(path, (#[trigger] roots[i])@);
    crate::path::containment_is_transitive(child, path, roots[i]@);
}

/// A rule by which paths are excluded.
pub trait Exclusions {
    /// Whether the rule covers a path.
    spec fn covers(&self, path: Seq<u8>) -> bool;

    /// Whether the rule covers a path.
    fn covers_path(&self, path: &PathBuf) -> (covered: bool)
        ensures
            covered == self.covers(path@),
    ;
}

impl Exclusions for ScopePolicy {
    open spec fn covers(&self, path: Seq<u8>) -> bool {
        self.excludes(path)
    }

    fn covers_path(&self, path: &PathBuf) -> (covered: bool) {
        self.is_excluded(path)
    }
}

} // verus!
