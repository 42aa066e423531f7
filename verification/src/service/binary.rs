//! Which binary a service runs.

use crate::path::{is_absolute_path, path_components, path_join, PathBuf};
use crate::service::{ServiceError, ServiceFault};
use crate::text::{byte_lists, byte_vec, split_bytes, split_on};
use vstd::prelude::*;

verus! {

/// What separates the entries of a search path.
pub const SEARCH_PATH_SEPARATOR: u8 = 58;

/// A place where the binary may be.
pub enum Candidate {
    /// A file.
    File(Seq<u8>),
    /// A file below the current directory, which is unknown.
    Nowhere(ServiceFault),
}

/// A place where the binary may be.
#[derive(Debug, PartialEq, Eq)]
pub enum BinaryCandidate {
    /// A file.
    File(PathBuf),
    /// A file below the current directory, which is unknown.
    Nowhere(ServiceError),
}

impl View for BinaryCandidate {
    type V = Candidate;

    open spec fn view(&self) -> Candidate {
        match self {
            BinaryCandidate::File(path) => Candidate::File(path@),
            BinaryCandidate::Nowhere(error) => Candidate::Nowhere(error@),
        }
    }
}

/// The contents of a list of candidates.
pub open spec fn candidate_views(candidates: Seq<BinaryCandidate>) -> Seq<Candidate> {
    candidates.map_values(|candidate: BinaryCandidate| candidate@)
}

/// The candidate below an entry of the search path.
pub open spec fn entry_candidate(entry: Seq<u8>, name: Seq<u8>, current_dir: Option<Seq<u8>>) -> Candidate {
    if is_absolute_path(entry) {
        Candidate::File(path_join(entry, name))
    } else {
        match current_dir {
            Some(directory) => Candidate::File(path_join(path_join(directory, entry), name)),
            None => Candidate::Nowhere(ServiceFault::NoDirectoryForPath),
        }
    }
}

/// The candidates, in the order in which they are tried: the name that the program was
/// called by, where that says where it is, or what the search path finds under that
/// name; and in the end the file that runs.
pub open spec fn candidates_of(
    argv0: Seq<u8>,
    path: Option<Seq<u8>>,
    current_dir: Option<Seq<u8>>,
    current_exe: Seq<u8>,
) -> Seq<Candidate> {
    let called = if is_absolute_path(argv0) {
        seq![Candidate::File(argv0)]
    } else if path_components(argv0).len() > 1 {
        seq![
            match current_dir {
                Some(directory) => Candidate::File(path_join(directory, argv0)),
                None => Candidate::Nowhere(ServiceFault::NoDirectoryForBinary),
            },
        ]
    } else if path_components(argv0).len() == 1 && path is Some {
        split_on(path->0, SEARCH_PATH_SEPARATOR).map_values(
            |entry: Seq<u8>| entry_candidate(entry, argv0, current_dir),
        )
    } else {
        seq![]
    };
    called + (if is_absolute_path(current_exe) {
        seq![Candidate::File(current_exe)]
    } else {
        seq![]
    })
}

fn below_current(current_dir: Option<&PathBuf>, relative: &PathBuf, error: ServiceError) -> (candidate: BinaryCandidate)
    ensures
        candidate@ == match current_dir {
            Some(directory) => Candidate::File(path_join(directory@, relative@)),
            None => Candidate::Nowhere(error@),
        },
{
    match current_dir {
        Some(directory) => BinaryCandidate::File(directory.join(relative)),
        None => BinaryCandidate::Nowhere(error),
    }
}

/// The contents of a path that may be missing.
pub open spec fn shown_path(path: Option<&PathBuf>) -> Option<Seq<u8>> {
    match path {
        Some(p) => Some(p@),
        None => None,
    }
}

/// The candidates, in the order in which they are tried.
pub fn service_binary_candidates(
    argv0: &PathBuf,
    path: Option<&PathBuf>,
    current_dir: Option<&PathBuf>,
    current_exe: &PathBuf,
) -> (candidates: Vec<BinaryCandidate>)
    ensures
        candidate_views(candidates@) == candidates_of(
            argv0@,
            shown_path(path),
            shown_path(current_dir),
            current_exe@,
        ),
{
    let mut candidates: Vec<BinaryCandidate> = Vec::new();
    let ghost last = if is_absolute_path(current_exe@) {
        seq![Candidate::File(current_exe@)]
    } else {
        seq![]
    };
    let ghost all = candidates_of(argv0@, shown_path(path), shown_path(current_dir), current_exe@);
    assert(candidate_views(candidates@) =~= seq![]);
    let components = argv0.components();
    let count: usize = components.len();
    assert(byte_lists(components@).len() == count);
    if argv0.is_absolute() {
        candidates.push(BinaryCandidate::File(argv0.clone()));
    } else if count > 1 {
        candidates.push(below_current(current_dir, argv0, ServiceError::NoDirectoryForBinary));
    } else if count == 1 {
        match path {
            None => {},
            Some(list) => {
                let entries = split_bytes(list.as_bytes(), SEARCH_PATH_SEPARATOR);
                let ghost pieces = byte_lists(entries@);
                let ghost below = |entry: Seq<u8>| entry_candidate(entry, argv0@, shown_path(current_dir));
                let ghost wanted = pieces.map_values(below);
                let mut i: usize = 0;
                while i < entries.len()
                    invariant
                        i <= entries.len(),
                        pieces == byte_lists(entries@),
                        below == |entry: Seq<u8>| entry_candidate(entry, argv0@, shown_path(current_dir)),
                        wanted == pieces.map_values(below),
                        candidate_views(candidates@) == wanted.take(i as int),
                    decreases entries.len() - i,
                {
                    let ghost before = candidate_views(candidates@);
                    let entry = PathBuf::from_bytes(byte_vec(entries[i].as_slice()));
                    assert(entry@ == pieces[i as int]);
                    let candidate = if entry.is_absolute() {
                        BinaryCandidate::File(entry.join(argv0))
                    } else {
                        match current_dir {
                            Some(directory) => BinaryCandidate::File(directory.join(&entry).join(argv0)),
                            None => BinaryCandidate::Nowhere(ServiceError::NoDirectoryForPath),
                        }
                    };
                    let ghost shown = candidate@;
                    assert(shown == wanted[i as int]);
                    candidates.push(candidate);
                    i += 1;
                    assert(candidate_views(candidates@) =~= before.push(shown));
                    assert(wanted.take(i as int) =~= wanted.take(i - 1).push(shown));
                }
                assert(pieces.len() == entries@.len());
                assert(wanted.take(i as int) =~= wanted);
            },
        }
    }
    if current_exe.is_absolute() {
        candidates.push(BinaryCandidate::File(current_exe.clone()));
    }
    assert(candidate_views(candidates@) =~= all);
    candidates
}

/// The first candidate that can be executed. A candidate below an unknown directory
/// ends the search.
pub open spec fn first_executable(candidates: Seq<Candidate>, executable: Seq<bool>) -> Option<Result<Seq<u8>, ServiceFault>>
    decreases candidates.len(),
{
    if candidates.len() == 0 {
        None
    } else {
        match candidates[0] {
            Candidate::Nowhere(fault) => Some(Err(fault)),
            Candidate::File(path) => if executable[0] {
                Some(Ok(path))
            } else {
                first_executable(candidates.skip(1), executable.skip(1))
            },
        }
    }
}

/// The binary that a service runs: `executable` says of each candidate whether it can be
/// executed.
pub fn resolve_service_binary(
    argv0: &PathBuf,
    path: Option<&PathBuf>,
    current_dir: Option<&PathBuf>,
    current_exe: &PathBuf,
    executable: &Vec<bool>,
) -> (result: Result<PathBuf, ServiceError>)
    requires
        executable@.len() == candidates_of(
            argv0@,
            shown_path(path),
            shown_path(current_dir),
            current_exe@,
        ).len(),
    ensures
        match first_executable(
            candidates_of(argv0@, shown_path(path), shown_path(current_dir), current_exe@),
            executable@,
        ) {
            Some(Ok(found)) => result matches Ok(binary) && binary@ == found,
            Some(Err(fault)) => result matches Err(error) && error@ == fault,
            None => result matches Err(error) && error@ == ServiceFault::BinaryUnresolved(argv0@, current_exe@),
        },
{
    let mut candidates = service_binary_candidates(argv0, path, current_dir, current_exe);
    let ghost all = candidate_views(candidates@);
    let mut i: usize = 0;
    assert(candidates@.len() == all.len());
    assert(all.skip(0) =~= all);
    assert(executable@.skip(0) =~= executable@);
    while candidates.len() > 0
        invariant
            0 <= i <= all.len() == executable@.len(),
            candidate_views(candidates@) == all.skip(i as int),
            candidates@.len() == all.len() - i,
            first_executable(all, executable@) == first_executable(all.skip(i as int), executable@.skip(i as int)),
            all == candidates_of(argv0@, shown_path(path), shown_path(current_dir), current_exe@),
        decreases candidates.len(),
    {
        let ghost before = candidates@;
        let candidate = candidates.remove(0);
        proof {
            assert(candidate_views(before)[0] == candidate@);
            assert forall|k: int| 0 <= k < candidates@.len() implies candidate_views(candidates@)[k] == all.skip(
                i + 1,
            )[k] by {
                assert(candidate_views(before)[k + 1] == all.skip(i as int)[k + 1]);
            }
            assert(candidate_views(candidates@) =~= all.skip(i + 1));
            assert(all.skip(i as int).skip(1) =~= all.skip(i + 1));
            assert(executable@.skip(i as int).skip(1) =~= executable@.skip(i + 1));
        }
        match candidate {
            BinaryCandidate::Nowhere(error) => return Err(error),
            BinaryCandidate::File(file) => {
                if executable[i] {
                    return Ok(file);
                }
            },
        }
        assert(i < executable.len());
        i += 1;
    }
    Err(ServiceError::BinaryUnresolved(argv0.clone(), current_exe.clone()))
}

/// Only a file that can be executed is chosen.
pub proof fn chosen_binaries_can_be_executed(candidates: Seq<Candidate>, executable: Seq<bool>, found: Seq<u8>)
    requires
        executable.len() == candidates.len(),
        first_executable(candidates, executable) == Some(Ok::<Seq<u8>, ServiceFault>(found)),
    ensures
        exists|i: int|
            0 <= i < candidates.len() && #[trigger] candidates[i] == Candidate::File(found) && executable[i],
    decreases candidates.len(),
{
    if let Candidate::File(path) = candidates[0] {
        if !executable[0] {
            chosen_binaries_can_be_executed(candidates.skip(1), executable.skip(1), found);
            let rest = candidates.skip(1);
            let i = choose|i: int|
                0 <= i < rest.len() && #[trigger] rest[i] == Candidate::File(found) && executable.skip(1)[i];
            assert(candidates[i + 1] == Candidate::File(found));
        }
    }
}

} // verus!
