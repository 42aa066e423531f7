//! What a scan says of one of its origins.

use crate::path::PathBuf;
use crate::resolve::optional_path;
use crate::scanner::{DiscoveryOriginResult, ObservedProject, ScanErrorKind, ScanErrorView, ScanReport};
use crate::store::rows::{optional_text, DiscoveryOriginKind};
use crate::store::table::rows_view;
use vstd::prelude::*;

verus! {

/// The message of the first error for which a scan left something unread. A repository
/// that could not be asked for its worktrees is no such error.
pub open spec fn first_unread(errors: Seq<ScanErrorView>) -> Option<Seq<char>>
    decreases errors.len(),
{
    if errors.len() == 0 {
        None
    } else if errors[0].kind == ScanErrorKind::Scan {
        Some(errors[0].message)
    } else {
        first_unread(errors.skip(1))
    }
}

/// Why an origin is not complete: something could not be read, or the origin itself is
/// not there.
pub open spec fn origin_fault(there: bool, errors: Seq<ScanErrorView>) -> Option<Seq<char>> {
    match first_unread(errors) {
        Some(message) => Some(message),
        None => if there {
            None
        } else {
            Some("origin is not available"@)
        },
    }
}

/// The result of an origin that a scan of it alone reports on.
pub fn origin_result(
    kind: DiscoveryOriginKind,
    configured_path: PathBuf,
    canonical_path: Option<PathBuf>,
    report: &ScanReport,
    projects: Vec<ObservedProject>,
) -> (result: DiscoveryOriginResult)
    ensures
        result.kind == kind,
        result.configured_path == configured_path,
        result.canonical_path == canonical_path,
        result.projects == projects,
        optional_text(result.error) == origin_fault(
            optional_path(canonical_path) is Some,
            rows_view(report.errors@),
        ),
        result.completed <==> result.error is None,
{
    let ghost all = rows_view(report.errors@);
    let mut error: Option<String> = None;
    let mut i: usize = 0;
    assert(all.skip(0) =~= all);
    while i < report.errors.len() && error.is_none()
        invariant
            i <= report.errors.len(),
            all == rows_view(report.errors@),
            match error {
                Some(message) => first_unread(all) == Some(message@),
                None => first_unread(all) == first_unread(all.skip(i as int)),
            },
        decreases report.errors.len() - i,
    {
        assert(all.skip(i as int).skip(1) =~= all.skip(i + 1));
        if report.errors[i].kind == ScanErrorKind::Scan {
            error = Some(report.errors[i].message.clone());
        }
        i += 1;
    }
    if error.is_none() && canonical_path.is_none() {
        error = Some("origin is not available".to_owned());
    }
    DiscoveryOriginResult { kind, configured_path, canonical_path, completed: error.is_none(), error, projects }
}

} // verus!
