//! The gates that a project passes before its build output is cleaned.

use crate::identity::{ReviewedIdentity, ReviewedModel};
use crate::path::{is_normal, path_components, PathBuf};
use crate::resolve::{optional_path, Answer, Finding, Resolutions, Resolved};
use crate::storage::{classify_protected_path_for, protected_class, HostPlatform, ProtectedKind};
use crate::text::{byte_lists, lossy_chars, lossy_text, text_equal, texts};
use crate::time::Duration;
use vstd::prelude::*;

pub mod admission;
pub mod laws;
pub mod revalidate;
pub mod review;
pub mod tree;

pub use crate::safety::revalidate::{bind_review_to_observation, revalidate_before_clean, ObservationIdentityStatus};
pub use crate::safety::review::{review_project, review_project_with_discovery_blocks, review_project_with_identity_provider};

verus! {

/// What kind of directory a project lies in.
#[derive(Debug, Clone, Copy, PartialEq, Eq, Structural)]
pub enum ProjectClass {
    Workspace,
    ManagedCache,
    ContainerStorage,
}

/// What a review decides on a project.
#[derive(Debug, Clone, Copy, PartialEq, Eq, Structural)]
pub enum CleanDecision {
    Cleanable,
    Skipped(SkipReason),
}

/// Why a project is not cleaned.
#[derive(Debug, Clone, Copy, PartialEq, Eq, Structural)]
pub enum SkipReason {
    NoTarget,
    ActiveRecentWrite { newest_age_secs: u64 },
    ActiveProcess,
    ManagedCache,
    ContainerStorage,
    ScanError,
    TargetReadError,
    InvalidManifest,
    ProjectIdentityUnavailable,
    TargetIdentityUnavailable,
    CrossDeviceTarget,
    CrossMountTarget,
    ProjectIdentityChanged,
    TargetIdentityChanged,
    OutOfScope,
    Excluded,
}

/// What is decided immediately before a project is cleaned.
pub type ExecutionDecision = CleanDecision;

/// How strict a review is.
#[derive(Debug, Clone, Copy)]
pub struct SafetyOptions {
    pub target_quiet_period: Duration,
    pub include_managed_cache: bool,
    pub include_active: bool,
    pub force: bool,
}

/// The review of one project.
#[derive(Debug, PartialEq, Eq)]
pub struct ProjectReview {
    pub path: PathBuf,
    pub canonical_path: Option<PathBuf>,
    pub class: ProjectClass,
    pub target_path: PathBuf,
    pub target_bytes: u64,
    pub reviewed_identity: Option<ReviewedIdentity>,
    pub decision: CleanDecision,
}

/// The contents of a review.
pub struct ReviewModel {
    pub path: Seq<u8>,
    pub canonical_path: Option<Seq<u8>>,
    pub class: ProjectClass,
    pub target_path: Seq<u8>,
    pub target_bytes: u64,
    pub reviewed_identity: Option<ReviewedModel>,
    pub decision: CleanDecision,
}

impl View for ProjectReview {
    type V = ReviewModel;

    open spec fn view(&self) -> ReviewModel {
        ReviewModel {
            path: self.path@,
            canonical_path: optional_path(self.canonical_path),
            class: self.class,
            target_path: self.target_path@,
            target_bytes: self.target_bytes,
            reviewed_identity: match self.reviewed_identity {
                Some(identity) => Some(identity@),
                None => None,
            },
            decision: self.decision,
        }
    }
}

impl Clone for ProjectReview {
    fn clone(&self) -> (copy: Self)
        ensures
            copy@ == self@,
            copy.reviewed_identity == self.reviewed_identity,
    {
        ProjectReview {
            path: self.path.clone(),
            canonical_path: match &self.canonical_path {
                Some(path) => Some(path.clone()),
                None => None,
            },
            class: self.class,
            target_path: self.target_path.clone(),
            target_bytes: self.target_bytes,
            reviewed_identity: match &self.reviewed_identity {
                Some(identity) => Some(identity.clone()),
                None => None,
            },
            decision: self.decision,
        }
    }
}

/// How many projects a batch of reviews cleans and skips, and why.
#[derive(Debug, Clone, Copy, PartialEq, Eq, Structural)]
pub struct ReviewSummary {
    pub total_projects: usize,
    pub cleanable_projects: usize,
    pub skipped_projects: usize,
    pub cleanable_bytes: u64,
    pub active_recent_write: usize,
    pub active_process: usize,
    pub managed_cache: usize,
    pub container_storage: usize,
    pub scan_error: usize,
    pub no_target: usize,
    pub target_read_error: usize,
}

// ------------------------------------------------------------------- summary

/// The groups in which a summary counts the reasons for skipping.
pub enum SkipGroup {
    NoTarget,
    RecentWrite,
    Process,
    ManagedCache,
    Container,
    ScanError,
    TargetReadError,
}

/// The group of a reason.
pub open spec fn skip_group(reason: SkipReason) -> SkipGroup {
    match reason {
        SkipReason::NoTarget => SkipGroup::NoTarget,
        SkipReason::ActiveRecentWrite { .. } => SkipGroup::RecentWrite,
        SkipReason::ActiveProcess => SkipGroup::Process,
        SkipReason::ManagedCache => SkipGroup::ManagedCache,
        SkipReason::ContainerStorage => SkipGroup::Container,
        SkipReason::ScanError | SkipReason::InvalidManifest | SkipReason::ProjectIdentityUnavailable
        | SkipReason::ProjectIdentityChanged | SkipReason::OutOfScope | SkipReason::Excluded => SkipGroup::ScanError,
        SkipReason::TargetReadError | SkipReason::TargetIdentityUnavailable | SkipReason::CrossDeviceTarget
        | SkipReason::CrossMountTarget | SkipReason::TargetIdentityChanged => SkipGroup::TargetReadError,
    }
}

/// How many reviews skip for a reason of this group.
pub open spec fn skipped_in(reviews: Seq<ProjectReview>, group: SkipGroup) -> nat
    decreases reviews.len(),
{
    if reviews.len() == 0 {
        0
    } else {
        let rest = skipped_in(reviews.drop_last(), group);
        match reviews.last().decision {
            CleanDecision::Skipped(reason) if skip_group(reason) == group => rest + 1,
            _ => rest,
        }
    }
}

/// How many reviews are cleanable.
pub open spec fn cleanable_in(reviews: Seq<ProjectReview>) -> nat
    decreases reviews.len(),
{
    if reviews.len() == 0 {
        0
    } else {
        cleanable_in(reviews.drop_last()) + if reviews.last().decision == CleanDecision::Cleanable {
            1nat
        } else {
            0nat
        }
    }
}

/// The bytes of all cleanable targets.
pub open spec fn cleanable_bytes_in(reviews: Seq<ProjectReview>) -> nat
    decreases reviews.len(),
{
    if reviews.len() == 0 {
        0
    } else {
        cleanable_bytes_in(reviews.drop_last()) + if reviews.last().decision == CleanDecision::Cleanable {
            reviews.last().target_bytes as nat
        } else {
            0nat
        }
    }
}

/// Whether a summary counts a batch of reviews.
pub open spec fn summarizes(summary: ReviewSummary, reviews: Seq<ProjectReview>) -> bool {
    &&& summary.total_projects == reviews.len()
    &&& summary.cleanable_projects == cleanable_in(reviews)
    &&& summary.skipped_projects == reviews.len() - cleanable_in(reviews)
    &&& summary.cleanable_bytes == cleanable_bytes_in(reviews)
    &&& summary.active_recent_write == skipped_in(reviews, SkipGroup::RecentWrite)
    &&& summary.active_process == skipped_in(reviews, SkipGroup::Process)
    &&& summary.managed_cache == skipped_in(reviews, SkipGroup::ManagedCache)
    &&& summary.container_storage == skipped_in(reviews, SkipGroup::Container)
    &&& summary.scan_error == skipped_in(reviews, SkipGroup::ScanError)
    &&& summary.no_target == skipped_in(reviews, SkipGroup::NoTarget)
    &&& summary.target_read_error == skipped_in(reviews, SkipGroup::TargetReadError)
}

proof fn lemma_counts_bounded(reviews: Seq<ProjectReview>, group: SkipGroup)
    ensures
        skipped_in(reviews, group) <= reviews.len(),
        cleanable_in(reviews) <= reviews.len(),
    decreases reviews.len(),
{
    if reviews.len() > 0 {
        lemma_counts_bounded(reviews.drop_last(), group);
    }
}

/// No more reviews are cleanable than there are, and the first of them hold no more than all.
pub proof fn lemma_cleanable_bounded(reviews: Seq<ProjectReview>, n: int)
    requires
        0 <= n <= reviews.len(),
    ensures
        cleanable_in(reviews.take(n)) <= n,
        cleanable_in(reviews.take(n)) <= cleanable_in(reviews) <= reviews.len(),
    decreases reviews.len(),
{
    if n < reviews.len() {
        assert(reviews.drop_last().take(n) =~= reviews.take(n));
        lemma_cleanable_bounded(reviews.drop_last(), n);
    } else {
        assert(reviews.take(n) =~= reviews);
        if n > 0 {
            lemma_cleanable_bounded(reviews.drop_last(), n - 1);
            assert(reviews.drop_last().take(n - 1) =~= reviews.drop_last());
        }
    }
}

proof fn lemma_bytes_monotonic(reviews: Seq<ProjectReview>, n: int)
    requires
        0 <= n <= reviews.len(),
    ensures
        cleanable_bytes_in(reviews.take(n)) <= cleanable_bytes_in(reviews),
    decreases reviews.len(),
{
    if n < reviews.len() {
        assert(reviews.drop_last().take(n) =~= reviews.take(n));
        lemma_bytes_monotonic(reviews.drop_last(), n);
    } else {
        assert(reviews.take(n) =~= reviews);
    }
}

/// Counts a batch of reviews.
pub fn review_summary(reviews: &Vec<ProjectReview>) -> (summary: ReviewSummary)
    requires
        cleanable_bytes_in(reviews@) <= u64::MAX,
    ensures
        summarizes(summary, reviews@),
{
    let mut summary = ReviewSummary {
        total_projects: 0,
        cleanable_projects: 0,
        skipped_projects: 0,
        cleanable_bytes: 0,
        active_recent_write: 0,
        active_process: 0,
        managed_cache: 0,
        container_storage: 0,
        scan_error: 0,
        no_target: 0,
        target_read_error: 0,
    };
    let mut i: usize = 0;
    while i < reviews.len()
        invariant
            i <= reviews.len(),
            summarizes(summary, reviews@.take(i as int)),
            cleanable_bytes_in(reviews@) <= u64::MAX,
        decreases reviews.len() - i,
    {
        proof {
            let part = reviews@.take(i + 1);
            assert(part.drop_last() =~= reviews@.take(i as int));
            assert(part.last() == reviews@[i as int]);
            lemma_bytes_monotonic(reviews@, i + 1);
            let before = reviews@.take(i as int);
            lemma_counts_bounded(before, SkipGroup::NoTarget);
            lemma_counts_bounded(before, SkipGroup::RecentWrite);
            lemma_counts_bounded(before, SkipGroup::Process);
            lemma_counts_bounded(before, SkipGroup::ManagedCache);
            lemma_counts_bounded(before, SkipGroup::Container);
            lemma_counts_bounded(before, SkipGroup::ScanError);
            lemma_counts_bounded(before, SkipGroup::TargetReadError);
        }
        summary.total_projects = summary.total_projects + 1;
        match reviews[i].decision {
            CleanDecision::Cleanable => {
                summary.cleanable_projects = summary.cleanable_projects + 1;
                summary.cleanable_bytes = summary.cleanable_bytes + reviews[i].target_bytes;
            },
            CleanDecision::Skipped(reason) => {
                summary.skipped_projects = summary.skipped_projects + 1;
                match reason {
                    SkipReason::NoTarget => {
                        summary.no_target = summary.no_target + 1;
                    },
                    SkipReason::ActiveRecentWrite { .. } => {
                        summary.active_recent_write = summary.active_recent_write + 1;
                    },
                    SkipReason::ActiveProcess => {
                        summary.active_process = summary.active_process + 1;
                    },
                    SkipReason::ManagedCache => {
                        summary.managed_cache = summary.managed_cache + 1;
                    },
                    SkipReason::ContainerStorage => {
                        summary.container_storage = summary.container_storage + 1;
                    },
                    SkipReason::ScanError | SkipReason::InvalidManifest | SkipReason::ProjectIdentityUnavailable
                    | SkipReason::ProjectIdentityChanged | SkipReason::OutOfScope | SkipReason::Excluded => {
                        summary.scan_error = summary.scan_error + 1;
                    },
                    SkipReason::TargetReadError | SkipReason::TargetIdentityUnavailable
                    | SkipReason::CrossDeviceTarget | SkipReason::CrossMountTarget
                    | SkipReason::TargetIdentityChanged => {
                        summary.target_read_error = summary.target_read_error + 1;
                    },
                }
            },
        }
        i += 1;
    }
    assert(reviews@.take(reviews@.len() as int) =~= reviews@);
    summary
}

proof fn lemma_groups_partition(reviews: Seq<ProjectReview>)
    ensures
        reviews.len() == cleanable_in(reviews) + skipped_in(reviews, SkipGroup::NoTarget) + skipped_in(
            reviews,
            SkipGroup::RecentWrite,
        ) + skipped_in(reviews, SkipGroup::Process) + skipped_in(reviews, SkipGroup::ManagedCache) + skipped_in(
            reviews,
            SkipGroup::Container,
        ) + skipped_in(reviews, SkipGroup::ScanError) + skipped_in(reviews, SkipGroup::TargetReadError),
    decreases reviews.len(),
{
    if reviews.len() > 0 {
        lemma_groups_partition(reviews.drop_last());
    }
}

/// In a summary every project is cleanable or skipped, and every skipped project
/// is counted in exactly one group.
pub proof fn summary_adds_up(summary: ReviewSummary, reviews: Seq<ProjectReview>)
    requires
        summarizes(summary, reviews),
    ensures
        summary.total_projects == summary.cleanable_projects + summary.skipped_projects,
        summary.skipped_projects == summary.active_recent_write + summary.active_process + summary.managed_cache
            + summary.container_storage + summary.scan_error + summary.no_target + summary.target_read_error,
{
    lemma_groups_partition(reviews);
}

// ------------------------------------------------------------ classification

/// The names in a path, as text.
pub open spec fn name_texts(path: Seq<u8>) -> Seq<Seq<char>> {
    path_components(path).filter(|c: Seq<u8>| is_normal(c)).map_values(|c: Seq<u8>| lossy_chars(c))
}

/// Whether `wanted` occurs in `parts` as an unbroken run.
pub open spec fn contains_run(parts: Seq<Seq<char>>, wanted: Seq<Seq<char>>) -> bool {
    exists|i: int| #[trigger] crate::policy::occurs_at(parts, wanted, i)
}

/// The class of a path by the names in it alone.
pub open spec fn class_by_names(path: Seq<u8>) -> ProjectClass {
    let parts = name_texts(path);
    if contains_run(parts, seq![".bun"@, "install"@, "cache"@]) || contains_run(parts, seq!["go"@, "pkg"@, "mod"@])
        || contains_run(parts, seq![".cargo"@, "registry"@, "src"@]) || contains_run(
        parts,
        seq![".cargo"@, "git"@, "checkouts"@],
    ) || contains_run(parts, seq!["Library"@, "Caches"@]) {
        ProjectClass::ManagedCache
    } else if contains_run(parts, seq!["OrbStack"@, "docker"@]) {
        ProjectClass::ContainerStorage
    } else {
        ProjectClass::Workspace
    }
}

/// The class of a project: by the protected directory that it lies in, else by
/// the names in its path.
pub open spec fn project_class(
    known: Map<Seq<u8>, Resolved>,
    path: Seq<u8>,
    home: Seq<u8>,
    platform: HostPlatform,
) -> Finding<ProjectClass> {
    match protected_class(known, path, home, platform) {
        Finding::Unresolved(p) => Finding::Unresolved(p),
        Finding::Known(Some(ProtectedKind::ManagedCache)) => Finding::Known(ProjectClass::ManagedCache),
        Finding::Known(Some(ProtectedKind::ContainerStorage)) => Finding::Known(ProjectClass::ContainerStorage),
        Finding::Known(None) => Finding::Known(class_by_names(path)),
    }
}

fn names_of(path: &PathBuf) -> (names: Vec<String>)
    ensures
        texts(names@) == name_texts(path@),
{
    let components = path.components();
    let ghost all = path_components(path@);
    let ghost keep = |c: Seq<u8>| is_normal(c);
    let ghost text = |c: Seq<u8>| lossy_chars(c);
    let mut names: Vec<String> = Vec::new();
    let mut i: usize = 0;
    assert(texts(names@) =~= all.take(0).filter(keep).map_values(text));
    while i < components.len()
        invariant
            i <= components.len(),
            byte_lists(components@) == all,
            keep == (|c: Seq<u8>| is_normal(c)),
            text == (|c: Seq<u8>| lossy_chars(c)),
            texts(names@) == all.take(i as int).filter(keep).map_values(text),
        decreases components.len() - i,
    {
        let part = &components[i];
        let ghost before = texts(names@);
        proof {
            assert(all[i as int] == part@);
            assert(all.take(i + 1) =~= all.take(i as int).push(part@));
            all.take(i as int).lemma_filter_push(part@, keep);
            if part@.len() == 1 && part@[0] == crate::path::SLASH {
                assert(part@ =~= crate::path::root_dir());
            }
            if part@.len() == 1 && part@[0] == crate::path::DOT {
                assert(part@ =~= crate::path::cur_dir());
            }
            if part@.len() == 2 && part@[0] == crate::path::DOT && part@[1] == crate::path::DOT {
                assert(part@ =~= crate::path::parent_dir());
            }
        }
        let special = (part.len() == 1 && (part[0] == crate::path::SLASH || part[0] == crate::path::DOT)) || (
        part.len() == 2 && part[0] == crate::path::DOT && part[1] == crate::path::DOT);
        if !special {
            names.push(lossy_text(part.as_slice()));
            assert(texts(names@) =~= before.push(lossy_chars(part@)));
            assert(texts(names@) =~= all.take(i + 1).filter(keep).map_values(text));
        }
        i += 1;
    }
    assert(all.take(all.len() as int) =~= all);
    names
}

/// Whether the given names occur in a list of names as an unbroken run.
fn contains_sequence(parts: &Vec<String>, needle: &Vec<&str>) -> (found: bool)
    requires
        needle@.len() > 0,
    ensures
        found == contains_run(texts(parts@), Seq::new(needle@.len(), |i: int| needle@[i]@)),
{
    let ghost all = texts(parts@);
    let ghost wanted = Seq::new(needle@.len(), |i: int| needle@[i]@);
    if parts.len() < needle.len() {
        return false;
    }
    let mut i: usize = 0;
    while i <= parts.len() - needle.len()
        invariant
            0 < needle.len() <= parts.len(),
            i <= parts.len() - needle.len() + 1,
            all == texts(parts@),
            wanted == Seq::new(needle@.len(), |k: int| needle@[k]@),
            forall|k: int| 0 <= k < i ==> !#[trigger] crate::policy::occurs_at(all, wanted, k),
        decreases parts.len() - i,
    {
        let mut k: usize = 0;
        while k < needle.len() && text_equal(parts[i + k].as_str(), needle[k])
            invariant
                k <= needle.len(),
                i + needle.len() <= parts.len(),
                all == texts(parts@),
                wanted == Seq::new(needle@.len(), |n: int| needle@[n]@),
                forall|n: int| 0 <= n < k ==> all[i + n] == #[trigger] wanted[n],
            decreases needle.len() - k,
        {
            assert(all[i + k] == parts@[i + k]@);
            k += 1;
        }
        if k == needle.len() {
            assert(all.subrange(i as int, i + wanted.len()) =~= wanted);
            assert(crate::policy::occurs_at(all, wanted, i as int));
            return true;
        }
        assert(!crate::policy::occurs_at(all, wanted, i as int)) by {
            assert(all[i + k] == parts@[i + k]@);
            assert(all.subrange(i as int, i + wanted.len())[k as int] == all[i + k]);
        }
        i += 1;
    }
    false
}

fn names_contain(parts: &Vec<String>, a: &str, b: &str, c: &str) -> (found: bool)
    ensures
        found == contains_run(texts(parts@), seq![a@, b@, c@]),
{
    let mut needle: Vec<&str> = Vec::new();
    needle.push(a);
    needle.push(b);
    needle.push(c);
    assert(Seq::new(needle@.len(), |i: int| needle@[i]@) =~= seq![a@, b@, c@]);
    contains_sequence(parts, &needle)
}

fn names_contain_pair(parts: &Vec<String>, a: &str, b: &str) -> (found: bool)
    ensures
        found == contains_run(texts(parts@), seq![a@, b@]),
{
    let mut needle: Vec<&str> = Vec::new();
    needle.push(a);
    needle.push(b);
    assert(Seq::new(needle@.len(), |i: int| needle@[i]@) =~= seq![a@, b@]);
    contains_sequence(parts, &needle)
}

/// The class of a path by the names in it alone.
pub fn classify_legacy_component_patterns(path: &PathBuf) -> (class: ProjectClass)
    ensures
        class == class_by_names(path@),
{
    let parts = names_of(path);
    if names_contain(&parts, ".bun", "install", "cache") || names_contain(&parts, "go", "pkg", "mod")
        || names_contain(&parts, ".cargo", "registry", "src") || names_contain(&parts, ".cargo", "git", "checkouts")
        || names_contain_pair(&parts, "Library", "Caches") {
        ProjectClass::ManagedCache
    } else if names_contain_pair(&parts, "OrbStack", "docker") {
        ProjectClass::ContainerStorage
    } else {
        ProjectClass::Workspace
    }
}

/// The class of a project; `Unresolved` names a path that has to be resolved
/// first.
pub fn classify_project(path: &PathBuf, home: &PathBuf, platform: HostPlatform, known: &Resolutions) -> (answer: Answer<
    ProjectClass,
>)
    ensures
        answer.finding() == project_class(known@, path@, home@, platform),
{
    match classify_protected_path_for(path, home, platform, known) {
        Answer::Unresolved(p) => Answer::Unresolved(p),
        Answer::Known(Some(ProtectedKind::ManagedCache)) => Answer::Known(ProjectClass::ManagedCache),
        Answer::Known(Some(ProtectedKind::ContainerStorage)) => Answer::Known(ProjectClass::ContainerStorage),
        Answer::Known(None) => Answer::Known(classify_legacy_component_patterns(path)),
    }
}

} // verus!
