//! What a path resolves to, in terms of what exists.

use crate::path::{is_normal, path_components, path_join, path_join_all, path_of_components};
use crate::resolve::{longest_resolved, physical_path, Finding, Resolved};
use vstd::prelude::*;

verus! {

/// A path that exists resolves to its physical path.
pub proof fn existing_paths_are_physical(known: Map<Seq<u8>, Resolved>, path: Seq<u8>, physical: Seq<u8>)
    requires
        physical_path(known, path) == Finding::Known(Some(physical)),
    ensures
        longest_resolved(known, path, path_components(path), seq![]) == Finding::Known(Some(physical)),
{
    assert(path_join_all(physical, seq![]) == physical);
}

/// A name that does not exist in a directory that does resolves to the name in the
/// physical directory.
pub proof fn missing_names_stay_in_their_directory(
    known: Map<Seq<u8>, Resolved>,
    path: Seq<u8>,
    directory: Seq<u8>,
    physical: Seq<u8>,
)
    requires
        path_components(path).len() > 0,
        is_normal(path_components(path).last()),
        physical_path(known, path) == Finding::<Option<Seq<u8>>>::Known(None),
        directory == path_of_components(path_components(path).drop_last()),
        physical_path(known, directory) == Finding::Known(Some(physical)),
    ensures
        longest_resolved(known, path, path_components(path), seq![]) == Finding::Known(
            Some(path_join(physical, path_components(path).last())),
        ),
{
    let parts = path_components(path);
    let suffix = seq![parts.last()] + Seq::<Seq<u8>>::empty();
    assert(suffix =~= seq![parts.last()]);
    assert(longest_resolved(known, directory, parts.drop_last(), suffix) == Finding::Known(
        Some(path_join_all(physical, suffix)),
    ));
    assert(suffix.drop_last() =~= Seq::empty());
    assert(path_join_all(physical, suffix.drop_last()) == physical);
}

/// A path resolves to nothing only if it does not exist, and to something only if it, or
/// a directory above it, does.
pub proof fn resolved_paths_have_an_existing_part(
    known: Map<Seq<u8>, Resolved>,
    path: Seq<u8>,
    parts: Seq<Seq<u8>>,
    suffix: Seq<Seq<u8>>,
)
    requires
        longest_resolved(known, path, parts, suffix) matches Finding::Known(Some(_)),
    ensures
        (physical_path(known, path) matches Finding::Known(Some(physical)) && longest_resolved(known, path, parts, suffix)
            == Finding::Known(Some(path_join_all(physical, suffix)))) || exists|n: int|
            0 <= n < parts.len() && (physical_path(known, #[trigger] path_of_components(parts.take(n))) matches Finding::Known(
                Some(physical),
            ) && longest_resolved(known, path, parts, suffix) == Finding::Known(
                Some(path_join_all(physical, parts.skip(n) + suffix)),
            )),
    decreases parts.len(),
{
    if physical_path(known, path) == Finding::<Option<Seq<u8>>>::Known(None) {
        let front = parts.drop_last();
        let behind = seq![parts.last()] + suffix;
        let directory = path_of_components(front);
        resolved_paths_have_an_existing_part(known, directory, front, behind);
        if let Finding::Known(Some(physical)) = physical_path(known, directory) {
            let n = front.len() as int;
            assert(parts.take(n) =~= front);
            assert(parts.skip(n) + suffix =~= behind);
            assert(physical_path(known, path_of_components(parts.take(n))) is Known);
        } else {
            let n = choose|n: int|
                0 <= n < front.len() && (physical_path(known, #[trigger] path_of_components(front.take(n))) matches Finding::Known(
                    Some(physical),
                ) && longest_resolved(known, directory, front, behind) == Finding::Known(
                    Some(path_join_all(physical, front.skip(n) + behind)),
                ));
            assert(front.take(n) =~= parts.take(n));
            assert(front.skip(n) + behind =~= parts.skip(n) + suffix);
            assert(physical_path(known, path_of_components(parts.take(n))) is Known);
        }
    }
}

} // verus!
