//! Discovery of projects: directories with a manifest below the scan roots, the
//! projects that are named themselves, and the linked worktrees of both.

use crate::identity::FilesystemIdentity;
use crate::path::PathBuf;
use crate::store::rows::DiscoveryOriginKind;
use vstd::prelude::*;

pub mod exclusion;
pub mod laws;
pub mod linked;
pub mod origin;
pub mod porcelain;
pub mod walk;

verus! {

/// What a scan covers.
#[derive(Debug)]
pub struct ScannerOptions {
    pub roots: Vec<PathBuf>,
    pub project_dirs: Vec<PathBuf>,
    pub excludes: Vec<String>,
}

/// What a scan was doing when an error came.
#[derive(Debug, Clone, Copy, PartialEq, Eq, Structural)]
pub enum ScanErrorKind {
    Scan,
    WorktreeDiscovery,
}

/// An error of a scan.
#[derive(Debug, PartialEq, Eq)]
pub struct ScanError {
    pub path: PathBuf,
    pub message: String,
    pub kind: ScanErrorKind,
}

/// The contents of an error.
pub struct ScanErrorView {
    pub path: Seq<u8>,
    pub message: Seq<char>,
    pub kind: ScanErrorKind,
}

impl View for ScanError {
    type V = ScanErrorView;

    open spec fn view(&self) -> ScanErrorView {
        ScanErrorView { path: self.path@, message: self.message@, kind: self.kind }
    }
}

/// What asking a repository for its linked worktrees gave.
#[derive(Debug, PartialEq, Eq)]
pub enum WorktreeDiscovery {
    Success { primary: PathBuf, linked: Vec<PathBuf>, excluded: Vec<PathBuf>, out_of_scope: Vec<PathBuf> },
    Failure { primary: PathBuf, message: String },
}

/// The contents of a discovery.
pub enum DiscoveryView {
    Success {
        primary: Seq<u8>,
        linked: Seq<Seq<u8>>,
        excluded: Seq<Seq<u8>>,
        out_of_scope: Seq<Seq<u8>>,
    },
    Failure { primary: Seq<u8>, message: Seq<char> },
}

impl View for WorktreeDiscovery {
    type V = DiscoveryView;

    open spec fn view(&self) -> DiscoveryView {
        match self {
            WorktreeDiscovery::Success { primary, linked, excluded, out_of_scope } => DiscoveryView::Success {
                primary: primary@,
                linked: crate::path::path_views(linked@),
                excluded: crate::path::path_views(excluded@),
                out_of_scope: crate::path::path_views(out_of_scope@),
            },
            WorktreeDiscovery::Failure { primary, message } => DiscoveryView::Failure {
                primary: primary@,
                message: message@,
            },
        }
    }
}

/// A project as a discovery saw it.
#[derive(Debug, PartialEq, Eq)]
pub struct ObservedProject {
    pub path: PathBuf,
    pub project_identity: FilesystemIdentity,
    pub target_identity: Option<FilesystemIdentity>,
}

/// What a discovery found from one origin.
#[derive(Debug, PartialEq, Eq)]
pub struct DiscoveryOriginResult {
    pub kind: DiscoveryOriginKind,
    pub configured_path: PathBuf,
    pub canonical_path: Option<PathBuf>,
    pub completed: bool,
    pub error: Option<String>,
    pub projects: Vec<ObservedProject>,
}

/// What a scan found.
#[derive(Debug, PartialEq, Eq)]
pub struct ScanReport {
    pub projects: Vec<PathBuf>,
    pub errors: Vec<ScanError>,
    pub worktree_discoveries: Vec<WorktreeDiscovery>,
}

} // verus!
