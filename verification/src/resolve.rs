//! Known results of resolving paths to physical paths. Decisions that depend on
//! the file system read them here, and name the path that they need when it has
//! not been resolved yet.

use crate::path::{
    is_normal, join_components, path_components, path_from_components, path_join_all, path_of_components, PathBuf, DOT, SLASH,
};
use crate::text::byte_lists;
use vstd::prelude::*;

pub mod laws;

verus! {

/// What resolving a path gave.
#[derive(Debug, PartialEq, Eq)]
pub enum Resolution {
    /// The path exists; this is its physical path.
    Physical(PathBuf),
    /// Nothing exists at the path.
    NotFound,
    /// The path could not be resolved for another reason.
    Failed,
}

/// The contents of a resolution.
#[verifier::ext_equal]
pub enum Resolved {
    Physical(Seq<u8>),
    NotFound,
    Failed,
}

impl View for Resolution {
    type V = Resolved;

    open spec fn view(&self) -> Resolved {
        match self {
            Resolution::Physical(path) => Resolved::Physical(path@),
            Resolution::NotFound => Resolved::NotFound,
            Resolution::Failed => Resolved::Failed,
        }
    }
}

/// A list of resolved paths; a later entry replaces an earlier one.
#[derive(Debug)]
pub struct Resolutions {
    entries: Vec<(PathBuf, Resolution)>,
}

spec fn entries_map(entries: Seq<(PathBuf, Resolution)>) -> Map<Seq<u8>, Resolved>
    decreases entries.len(),
{
    if entries.len() == 0 {
        Map::empty()
    } else {
        entries_map(entries.drop_last()).insert(entries.last().0@, entries.last().1@)
    }
}

impl View for Resolutions {
    type V = Map<Seq<u8>, Resolved>;

    closed spec fn view(&self) -> Map<Seq<u8>, Resolved> {
        entries_map(self.entries@)
    }
}

impl Resolutions {
    /// No path resolved.
    pub fn new() -> (table: Self)
        ensures
            table@ == Map::<Seq<u8>, Resolved>::empty(),
    {
        Resolutions { entries: Vec::new() }
    }

    /// Adds what resolving a path gave.
    pub fn record(&mut self, path: PathBuf, resolution: Resolution)
        ensures
            final(self)@ == old(self)@.insert(path@, resolution@),
    {
        let ghost before = self.entries@;
        self.entries.push((path, resolution));
        assert(self.entries@.drop_last() =~= before);
    }

    /// What resolving a path gave, if it has been resolved.
    pub fn get(&self, path: &PathBuf) -> (found: Option<&Resolution>)
        ensures
            found is Some <==> self@.dom().contains(path@),
            found matches Some(r) ==> self@[path@] == r@,
    {
        let mut n: usize = self.entries.len();
        assert(self.entries@.take(n as int) =~= self.entries@);
        while n > 0
            invariant
                n <= self.entries.len(),
                self@.dom().contains(path@) == entries_map(self.entries@.take(n as int)).dom().contains(path@),
                self@[path@] == entries_map(self.entries@.take(n as int))[path@],
            decreases n,
        {
            proof {
                let part = self.entries@.take(n as int);
                assert(part.drop_last() =~= self.entries@.take(n - 1));
                assert(part.last() == self.entries@[n - 1]);
            }
            n -= 1;
            if self.entries[n].0.same_bytes(path) {
                return Some(&self.entries[n].1);
            }
        }
        assert(self.entries@.take(0) =~= Seq::empty());
        None
    }

    /// The physical path of a resolved path: `Known(None)` where there is none,
    /// `Unresolved` where the path has not been resolved.
    pub fn physical(&self, path: &PathBuf) -> (answer: Answer<Option<PathBuf>>)
        ensures
            match physical_path(self@, path@) {
                Finding::Known(p) => answer matches Answer::Known(q) && p == optional_path(q),
                Finding::Unresolved(p) => answer matches Answer::Unresolved(q) && q@ == p,
            },
    {
        match self.get(path) {
            None => Answer::Unresolved(path.clone()),
            Some(Resolution::Physical(physical)) => Answer::Known(Some(physical.clone())),
            Some(_) => Answer::Known(None),
        }
    }
}

/// The contents of an optional path.
pub open spec fn optional_path(path: Option<PathBuf>) -> Option<Seq<u8>> {
    match path {
        Some(p) => Some(p@),
        None => None,
    }
}

/// A decision over resolved paths, or the first path that has to be resolved
/// before it can be taken.
#[derive(Debug, PartialEq, Eq)]
pub enum Answer<T> {
    Known(T),
    Unresolved(PathBuf),
}

/// What an answer stands for.
pub enum Finding<T> {
    Known(T),
    Unresolved(Seq<u8>),
}

/// The physical path of `path` as far as it is known.
pub open spec fn physical_path(known: Map<Seq<u8>, Resolved>, path: Seq<u8>) -> Finding<Option<Seq<u8>>> {
    if known.dom().contains(path) {
        match known[path] {
            Resolved::Physical(physical) => Finding::Known(Some(physical)),
            _ => Finding::Known(None),
        }
    } else {
        Finding::Unresolved(path)
    }
}

impl<T> Answer<T> {
    /// What the answer stands for, if its value is spoken of as it is.
    pub open spec fn finding(self) -> Finding<T> {
        match self {
            Answer::Known(value) => Finding::Known(value),
            Answer::Unresolved(path) => Finding::Unresolved(path@),
        }
    }
}

/// The physical path of a path that need not exist: of its longest ancestor that
/// resolves, followed by the names below it.
pub open spec fn longest_resolved(
    known: Map<Seq<u8>, Resolved>,
    path: Seq<u8>,
    components: Seq<Seq<u8>>,
    suffix: Seq<Seq<u8>>,
) -> Finding<Option<Seq<u8>>>
    decreases components.len(),
{
    match physical_path(known, path) {
        Finding::Unresolved(p) => Finding::Unresolved(p),
        Finding::Known(Some(physical)) => Finding::Known(Some(path_join_all(physical, suffix))),
        Finding::Known(None) => if components.len() == 0 || !is_normal(components.last()) {
            Finding::Known(None)
        } else {
            longest_resolved(
                known,
                path_of_components(components.drop_last()),
                components.drop_last(),
                seq![components.last()] + suffix,
            )
        },
    }
}

/// The physical path of a path that need not exist.
pub fn resolve_longest(path: &PathBuf, known: &Resolutions) -> (answer: Answer<Option<PathBuf>>)
    ensures
        match longest_resolved(known@, path@, path_components(path@), seq![]) {
            Finding::Known(p) => answer matches Answer::Known(q) && optional_path(q) == p,
            Finding::Unresolved(p) => answer matches Answer::Unresolved(q) && q@ == p,
        },
{
    let components = path.components();
    let ghost all = path_components(path@);
    let ghost total = longest_resolved(known@, path@, all, seq![]);
    let mut count: usize = components.len();
    let mut current = path.clone();
    assert(all.take(count as int) =~= all);
    assert(all.skip(count as int) =~= seq![]);
    loop
        invariant
            count <= components.len(),
            byte_lists(components@) == all,
            total == longest_resolved(known@, path@, path_components(path@), seq![]),
            total == longest_resolved(known@, current@, all.take(count as int), all.skip(count as int)),
        decreases count,
    {
        match known.physical(&current) {
            Answer::Unresolved(p) => return Answer::Unresolved(p),
            Answer::Known(Some(physical)) => {
                return Answer::Known(Some(join_components(&physical, &components, count)));
            },
            Answer::Known(None) => {},
        }
        if count == 0 {
            return Answer::Known(None);
        }
        let last = &components[count - 1];
        proof {
            let part = all.take(count as int);
            assert(part.last() == last@);
            assert(part.drop_last() =~= all.take(count - 1));
            assert(seq![last@] + all.skip(count as int) =~= all.skip(count - 1));
            if last@.len() == 1 && last@[0] == SLASH {
                assert(last@ =~= crate::path::root_dir());
            }
            if last@.len() == 1 && last@[0] == DOT {
                assert(last@ =~= crate::path::cur_dir());
            }
            if last@.len() == 2 && last@[0] == DOT && last@[1] == DOT {
                assert(last@ =~= crate::path::parent_dir());
            }
        }
        if (last.len() == 1 && (last[0] == SLASH || last[0] == DOT)) || (last.len() == 2 && last[0] == DOT && last[1]
            == DOT) {
            return Answer::Known(None);
        }
        count -= 1;
        current = path_from_components(&components, count);
    }
}

} // verus!
