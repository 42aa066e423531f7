//! The size and the newest write of a directory tree.

use crate::time::SystemTime;
use vstd::prelude::*;

verus! {

/// An entry of a directory, as far as it could be read.
#[derive(Debug)]
pub enum TreeEntry {
    /// A symbolic link, which is not followed.
    Symlink,
    /// A directory with its entries, unless these could not be listed.
    Directory(Option<Vec<TreeEntry>>),
    /// A regular file with its length, and its time of last modification where
    /// that could be read.
    File(u64, Option<SystemTime>),
    /// Anything else.
    Other,
    /// An entry of which nothing could be read.
    Unreadable,
}

/// The bytes in the regular files of an entry; `None` if part of it could not be
/// read.
pub open spec fn entry_size(entry: TreeEntry) -> Option<nat>
    decreases entry,
{
    match entry {
        TreeEntry::Symlink | TreeEntry::Other => Some(0),
        TreeEntry::File(length, _) => Some(length as nat),
        TreeEntry::Directory(Some(entries)) => tree_size(entries@),
        TreeEntry::Directory(None) | TreeEntry::Unreadable => None,
    }
}

/// The bytes in the regular files of a directory; `None` if part of it could not
/// be read.
pub open spec fn tree_size(entries: Seq<TreeEntry>) -> Option<nat>
    decreases entries,
{
    if entries.len() == 0 {
        Some(0)
    } else {
        match (tree_size(entries.subrange(0, entries.len() - 1)), entry_size(entries[entries.len() - 1])) {
            (Some(a), Some(b)) => Some(a + b),
            _ => None,
        }
    }
}

/// The later of two times, of which either may be missing.
pub open spec fn later(a: Option<int>, b: Option<int>) -> Option<int> {
    match (a, b) {
        (Some(x), Some(y)) => Some(if x >= y {
            x
        } else {
            y
        }),
        (Some(x), None) => Some(x),
        (None, y) => y,
    }
}

/// The contents of an optional time.
pub open spec fn optional_time(time: Option<SystemTime>) -> Option<int> {
    match time {
        Some(t) => Some(t@),
        None => None,
    }
}

/// The newest write to a regular file of an entry, if it has one: the outer
/// `None` says that part of it could not be read.
pub open spec fn entry_newest(entry: TreeEntry) -> Option<Option<int>>
    decreases entry,
{
    match entry {
        TreeEntry::Symlink | TreeEntry::Other => Some(None),
        TreeEntry::File(_, Some(modified)) => Some(Some(modified@)),
        TreeEntry::Directory(Some(entries)) => tree_newest(entries@),
        TreeEntry::File(_, None) | TreeEntry::Directory(None) | TreeEntry::Unreadable => None,
    }
}

/// The newest write to a regular file of a directory.
pub open spec fn tree_newest(entries: Seq<TreeEntry>) -> Option<Option<int>>
    decreases entries,
{
    if entries.len() == 0 {
        Some(None)
    } else {
        match (tree_newest(entries.subrange(0, entries.len() - 1)), entry_newest(entries[entries.len() - 1])) {
            (Some(a), Some(b)) => Some(later(a, b)),
            _ => None,
        }
    }
}

proof fn lemma_size_unreadable(entries: Seq<TreeEntry>, i: int)
    requires
        0 <= i < entries.len(),
        entry_size(entries[i]) is None,
    ensures
        tree_size(entries) is None,
    decreases entries.len(),
{
    if i < entries.len() - 1 {
        lemma_size_unreadable(entries.subrange(0, entries.len() - 1), i);
    }
}

proof fn lemma_newest_unreadable(entries: Seq<TreeEntry>, i: int)
    requires
        0 <= i < entries.len(),
        entry_newest(entries[i]) is None,
    ensures
        tree_newest(entries) is None,
    decreases entries.len(),
{
    if i < entries.len() - 1 {
        lemma_newest_unreadable(entries.subrange(0, entries.len() - 1), i);
    }
}

/// Whether the sizes met while walking a tree fit a machine integer.
pub open spec fn sizes_fit(entries: Seq<TreeEntry>) -> bool
    decreases entries,
{
    if entries.len() == 0 {
        true
    } else {
        &&& sizes_fit(entries.subrange(0, entries.len() - 1))
        &&& entry_fits(entries[entries.len() - 1])
        &&& (tree_size(entries) matches Some(total) ==> total <= u64::MAX)
    }
}

/// Whether the sizes met while walking an entry fit a machine integer.
pub open spec fn entry_fits(entry: TreeEntry) -> bool
    decreases entry,
{
    match entry {
        TreeEntry::Directory(Some(entries)) => sizes_fit(entries@),
        _ => true,
    }
}

proof fn lemma_fit_part(entries: Seq<TreeEntry>, n: int)
    requires
        0 < n <= entries.len(),
        sizes_fit(entries),
    ensures
        entry_fits(entries[n - 1]),
        tree_size(entries.subrange(0, n)) matches Some(total) ==> total <= u64::MAX,
    decreases entries.len(),
{
    if n < entries.len() {
        let front = entries.subrange(0, entries.len() - 1);
        lemma_fit_part(front, n);
        assert(front.subrange(0, n) =~= entries.subrange(0, n));
    } else {
        assert(entries.subrange(0, n) =~= entries);
    }
}

/// The bytes in the regular files below a directory, symbolic links not followed;
/// `None` if part of it could not be read.
pub fn directory_size(entries: &Vec<TreeEntry>) -> (total: Option<u64>)
    requires
        sizes_fit(entries@),
    ensures
        match tree_size(entries@) {
            Some(n) => total matches Some(t) && t == n,
            None => total is None,
        },
    decreases entries,
{
    let mut total: u64 = 0;
    let mut i: usize = 0;
    assert(entries@.subrange(0, 0) =~= Seq::empty());
    while i < entries.len()
        invariant
            i <= entries.len(),
            sizes_fit(entries@),
            tree_size(entries@.subrange(0, i as int)) == Some(total as nat),
        decreases entries.len() - i,
    {
        proof {
            lemma_fit_part(entries@, i + 1);
            let part = entries@.subrange(0, i + 1);
            assert(part.subrange(0, part.len() - 1) =~= entries@.subrange(0, i as int));
            assert(part[part.len() - 1] == entries@[i as int]);
            if entry_size(entries@[i as int]) is None {
                lemma_size_unreadable(entries@, i as int);
            }
        }
        let size: Option<u64> = match &entries[i] {
            TreeEntry::Symlink => Some(0),
            TreeEntry::Other => Some(0),
            TreeEntry::File(length, _) => Some(*length),
            TreeEntry::Directory(Some(children)) => {
                proof {
                    assert(decreases_to!(entries => entries@));
                    assert(decreases_to!(entries@ => entries@[i as int]));
                }
                directory_size(children)
            },
            TreeEntry::Directory(None) => None,
            TreeEntry::Unreadable => None,
        };
        match size {
            Some(bytes) => {
                total = total + bytes;
            },
            None => return None,
        }
        i += 1;
    }
    assert(entries@.subrange(0, entries@.len() as int) =~= entries@);
    Some(total)
}

/// The later of two times, of which either may be missing.
pub fn newest_time(left: Option<SystemTime>, right: Option<SystemTime>) -> (newest: Option<SystemTime>)
    ensures
        optional_time(newest) == later(optional_time(left), optional_time(right)),
{
    match (left, right) {
        (Some(l), Some(r)) => Some(if l.is_before(&r) {
            r
        } else {
            l
        }),
        (Some(l), None) => Some(l),
        (None, Some(r)) => Some(r),
        (None, None) => None,
    }
}

/// The newest write to a regular file below a directory, symbolic links not
/// followed; the outer `None` says that part of it could not be read.
pub fn newest_file_mtime(entries: &Vec<TreeEntry>) -> (newest: Option<Option<SystemTime>>)
    ensures
        match tree_newest(entries@) {
            Some(n) => newest matches Some(t) && optional_time(t) == n,
            None => newest is None,
        },
    decreases entries,
{
    let mut newest: Option<SystemTime> = None;
    let mut i: usize = 0;
    assert(entries@.subrange(0, 0) =~= Seq::empty());
    while i < entries.len()
        invariant
            i <= entries.len(),
            tree_newest(entries@.subrange(0, i as int)) == Some(optional_time(newest)),
        decreases entries.len() - i,
    {
        proof {
            let part = entries@.subrange(0, i + 1);
            assert(part.subrange(0, part.len() - 1) =~= entries@.subrange(0, i as int));
            assert(part[part.len() - 1] == entries@[i as int]);
            if entry_newest(entries@[i as int]) is None {
                lemma_newest_unreadable(entries@, i as int);
            }
        }
        let time: Option<SystemTime> = match &entries[i] {
            TreeEntry::Symlink => None,
            TreeEntry::Other => None,
            TreeEntry::File(_, Some(modified)) => Some(*modified),
            TreeEntry::File(_, None) => return None,
            TreeEntry::Directory(Some(children)) => {
                proof {
                    assert(decreases_to!(entries => entries@));
                    assert(decreases_to!(entries@ => entries@[i as int]));
                }
                match newest_file_mtime(children) {
                    Some(time) => time,
                    None => return None,
                }
            },
            TreeEntry::Directory(None) => return None,
            TreeEntry::Unreadable => return None,
        };
        newest = newest_time(newest, time);
        i += 1;
    }
    assert(entries@.subrange(0, entries@.len() as int) =~= entries@);
    Some(newest)
}

} // verus!
