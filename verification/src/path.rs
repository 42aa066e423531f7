//! Unix paths as byte strings, with the component-wise meaning of equality,
//! order and prefixes.

use crate::text::{byte_lists, byte_vec, bytes_equal, lossy_chars, lossy_text, split_bytes, split_on, text_of_bytes};
use vstd::prelude::*;
use vstd::utf8::*;

pub mod laws;

verus! {

/// The byte that separates the names of a path.
pub const SLASH: u8 = 47;

/// The byte of which the names `.` and `..` are made.
pub const DOT: u8 = 46;

/// A path of a Unix file system: any byte string.
#[derive(Debug)]
pub struct PathBuf {
    bytes: Vec<u8>,
}

impl View for PathBuf {
    type V = Seq<u8>;

    closed spec fn view(&self) -> Seq<u8> {
        self.bytes@
    }
}

/// The name of the root directory as a component.
pub open spec fn root_dir() -> Seq<u8> {
    seq![SLASH]
}

/// The name of the current directory.
pub open spec fn cur_dir() -> Seq<u8> {
    seq![DOT]
}

/// The name of the parent directory.
pub open spec fn parent_dir() -> Seq<u8> {
    seq![DOT, DOT]
}

/// Whether a piece between two separators is a component by itself: empty pieces
/// and `.` are not.
pub open spec fn is_component(piece: Seq<u8>) -> bool {
    piece.len() > 0 && piece != cur_dir()
}

/// Whether a path starts at the root.
pub open spec fn is_absolute_path(path: Seq<u8>) -> bool {
    path.len() > 0 && path[0] == SLASH
}

/// The components of a path: the root if it is absolute, a leading `.` if it
/// starts with one, and every name in it.
pub open spec fn path_components(path: Seq<u8>) -> Seq<Seq<u8>> {
    let pieces = split_on(path, SLASH);
    let names = pieces.filter(|piece: Seq<u8>| is_component(piece));
    if is_absolute_path(path) {
        seq![root_dir()] + names
    } else if pieces[0] == cur_dir() {
        seq![cur_dir()] + names
    } else {
        names
    }
}

/// Whether two paths have the same components.
pub open spec fn same_path(a: Seq<u8>, b: Seq<u8>) -> bool {
    path_components(a) == path_components(b)
}

/// Whether the components of `base` are the first components of `path`.
pub open spec fn path_starts_with(path: Seq<u8>, base: Seq<u8>) -> bool {
    path_components(base).is_prefix_of(path_components(path))
}

/// `other` taken relative to `base`; an absolute `other` replaces it.
pub open spec fn path_join(base: Seq<u8>, other: Seq<u8>) -> Seq<u8> {
    if is_absolute_path(other) {
        other
    } else if base.len() == 0 || base.last() == SLASH {
        base + other
    } else {
        base.push(SLASH) + other
    }
}

/// Whether a component is a file or directory name, and not the root, `.` or `..`.
pub open spec fn is_normal(component: Seq<u8>) -> bool {
    component != root_dir() && component != cur_dir() && component != parent_dir()
}

/// The last component of a path, if it is a name.
pub open spec fn path_file_name(path: Seq<u8>) -> Option<Seq<u8>> {
    let components = path_components(path);
    if components.len() > 0 && is_normal(components.last()) {
        Some(components.last())
    } else {
        None
    }
}

/// The path with the given components.
pub open spec fn path_of_components(components: Seq<Seq<u8>>) -> Seq<u8>
    decreases components.len(),
{
    if components.len() == 0 {
        Seq::empty()
    } else {
        path_join(path_of_components(components.drop_last()), components.last())
    }
}

/// `base` with several paths appended in turn.
pub open spec fn path_join_all(base: Seq<u8>, parts: Seq<Seq<u8>>) -> Seq<u8>
    decreases parts.len(),
{
    if parts.len() == 0 {
        base
    } else {
        path_join(path_join_all(base, parts.drop_last()), parts.last())
    }
}

/// The contents of a list of paths.
pub open spec fn path_views(v: Seq<PathBuf>) -> Seq<Seq<u8>> {
    Seq::new(v.len(), |i: int| v[i]@)
}

impl Clone for PathBuf {
    fn clone(&self) -> (copy: Self)
        ensures
            copy@ == self@,
    {
        PathBuf { bytes: byte_vec(self.bytes.as_slice()) }
    }
}

impl PathBuf {
    /// The path with the given bytes.
    pub fn from_bytes(bytes: Vec<u8>) -> (path: Self)
        ensures
            path@ == bytes@,
    {
        PathBuf { bytes }
    }

    /// The path with the given text.
    pub fn new(text: &str) -> (path: Self)
        ensures
            path@ == encode_utf8(text@),
    {
        PathBuf { bytes: byte_vec(text.as_bytes()) }
    }

    /// The bytes of the path.
    pub fn as_bytes(&self) -> (bytes: &[u8])
        ensures
            bytes@ == self@,
    {
        self.bytes.as_slice()
    }

    /// The text of the path, if it is valid UTF-8.
    pub fn to_str(&self) -> (text: Option<String>)
        ensures
            text is Some <==> valid_utf8(self@),
            text matches Some(t) ==> t@ == decode_utf8(self@) && encode_utf8(t@) == self@,
    {
        text_of_bytes(self.bytes.as_slice())
    }

    /// The text of the path with ill-formed parts replaced.
    pub fn to_string_lossy(&self) -> (text: String)
        ensures
            text@ == lossy_chars(self@),
            valid_utf8(self@) ==> text@ == decode_utf8(self@),
            self@.len() > 0 && self@[0] < 128 ==> text@.len() > 0 && text@[0] == self@[0] as char,
    {
        lossy_text(self.bytes.as_slice())
    }

    /// Whether the two paths are the same byte string.
    pub fn same_bytes(&self, other: &PathBuf) -> (same: bool)
        ensures
            same == (self@ == other@),
    {
        bytes_equal(self.bytes.as_slice(), other.bytes.as_slice())
    }

    /// Whether the path has no bytes.
    pub fn is_empty(&self) -> (empty: bool)
        ensures
            empty == (self@.len() == 0),
    {
        self.bytes.len() == 0
    }

    /// Whether the path starts at the root.
    pub fn is_absolute(&self) -> (absolute: bool)
        ensures
            absolute == is_absolute_path(self@),
    {
        self.bytes.len() > 0 && self.bytes[0] == SLASH
    }

    /// The components of the path.
    pub fn components(&self) -> (components: Vec<Vec<u8>>)
        ensures
            byte_lists(components@) == path_components(self@),
    {
        let pieces = split_bytes(self.bytes.as_slice(), SLASH);
        let ghost all = split_on(self@, SLASH);
        let ghost keep = |piece: Seq<u8>| is_component(piece);
        let mut components: Vec<Vec<u8>> = Vec::new();
        let ghost mut head: Seq<Seq<u8>> = Seq::empty();
        proof {
            crate::text::lemma_split_nonempty(self@, SLASH);
            assert(pieces@[0]@ == all[0]);
        }
        if self.is_absolute() {
            let mut root: Vec<u8> = Vec::new();
            root.push(SLASH);
            components.push(root);
            proof {
                head = seq![root_dir()];
                assert(components@[0]@ =~= root_dir());
            }
        } else if pieces[0].len() == 1 && pieces[0][0] == DOT {
            let mut dot: Vec<u8> = Vec::new();
            dot.push(DOT);
            components.push(dot);
            proof {
                head = seq![cur_dir()];
                assert(components@[0]@ =~= cur_dir());
                assert(pieces@[0]@ =~= cur_dir());
            }
        }
        assert(byte_lists(components@) =~= head);
        let mut i: usize = 0;
        assert(head + all.take(0).filter(keep) =~= head);
        while i < pieces.len()
            invariant
                i <= pieces.len(),
                byte_lists(pieces@) == all,
                keep == (|piece: Seq<u8>| is_component(piece)),
                byte_lists(components@) == head + all.take(i as int).filter(keep),
            decreases pieces.len() - i,
        {
            let piece = &pieces[i];
            let keeps = piece.len() > 0 && !(piece.len() == 1 && piece[0] == DOT);
            proof {
                assert(piece@ == all[i as int]);
                assert(all.take(i + 1) =~= all.take(i as int).push(piece@));
                all.take(i as int).lemma_filter_push(piece@, keep);
                if piece@.len() == 1 && piece@[0] == DOT {
                    assert(piece@ =~= cur_dir());
                }
                assert(keeps == is_component(piece@));
            }
            let ghost before = byte_lists(components@);
            if keeps {
                let name = byte_vec(piece.as_slice());
                components.push(name);
                assert(byte_lists(components@) =~= before.push(piece@));
                assert(byte_lists(components@) =~= head + all.take(i + 1).filter(keep));
            }
            i += 1;
        }
        assert(all.take(all.len() as int) =~= all);
        components
    }

    /// Whether the path begins with all components of `base`.
    pub fn starts_with(&self, base: &PathBuf) -> (starts: bool)
        ensures
            starts == path_starts_with(self@, base@),
    {
        let ours = self.components();
        let theirs = base.components();
        let ghost a = path_components(self@);
        let ghost b = path_components(base@);
        if theirs.len() > ours.len() {
            return false;
        }
        let mut i: usize = 0;
        while i < theirs.len()
            invariant
                i <= theirs.len() <= ours.len(),
                byte_lists(ours@) == a,
                byte_lists(theirs@) == b,
                forall|k: int| 0 <= k < i ==> a[k] == b[k],
                a == path_components(self@),
                b == path_components(base@),
            decreases theirs.len() - i,
        {
            assert(ours@[i as int]@ == a[i as int] && theirs@[i as int]@ == b[i as int]);
            if !bytes_equal(ours[i].as_slice(), theirs[i].as_slice()) {
                return false;
            }
            i += 1;
        }
        assert(b =~= a.subrange(0, b.len() as int));
        true
    }

    /// `other` taken relative to this path.
    pub fn join(&self, other: &PathBuf) -> (joined: PathBuf)
        ensures
            joined@ == path_join(self@, other@),
    {
        if other.is_absolute() {
            return other.clone();
        }
        let mut bytes = byte_vec(self.bytes.as_slice());
        if bytes.len() > 0 && bytes[bytes.len() - 1] != SLASH {
            bytes.push(SLASH);
        }
        let mut tail = byte_vec(other.bytes.as_slice());
        bytes.append(&mut tail);
        PathBuf { bytes }
    }

    /// The last component, if it is a name.
    pub fn file_name(&self) -> (name: Option<Vec<u8>>)
        ensures
            name is Some <==> path_file_name(self@) is Some,
            name matches Some(n) ==> path_file_name(self@) == Some(n@),
    {
        let mut components = self.components();
        let ghost all = path_components(self@);
        assert(all.len() == components.len());
        match components.pop() {
            None => None,
            Some(last) => {
                proof {
                    assert(last@ == all.last());
                    if last@.len() == 1 && last@[0] == SLASH {
                        assert(last@ =~= root_dir());
                    }
                    if last@.len() == 1 && last@[0] == DOT {
                        assert(last@ =~= cur_dir());
                    }
                    if last@.len() == 2 && last@[0] == DOT && last@[1] == DOT {
                        assert(last@ =~= parent_dir());
                    }
                }
                if last.len() == 1 && (last[0] == SLASH || last[0] == DOT) {
                    None
                } else if last.len() == 2 && last[0] == DOT && last[1] == DOT {
                    None
                } else {
                    Some(last)
                }
            },
        }
    }
}

/// The path with the first `count` of the given components.
pub fn path_from_components(components: &Vec<Vec<u8>>, count: usize) -> (path: PathBuf)
    requires
        count <= components.len(),
    ensures
        path@ == path_of_components(byte_lists(components@).take(count as int)),
{
    let ghost all = byte_lists(components@);
    let mut path = PathBuf { bytes: Vec::new() };
    let mut i: usize = 0;
    assert(path@ =~= path_of_components(all.take(0)));
    while i < count
        invariant
            i <= count <= components.len(),
            all == byte_lists(components@),
            path@ == path_of_components(all.take(i as int)),
        decreases count - i,
    {
        path = path.join(&PathBuf { bytes: byte_vec(components[i].as_slice()) });
        i += 1;
        assert(all.take(i as int).drop_last() =~= all.take(i - 1));
        assert(all.take(i as int).last() == components@[i - 1]@);
    }
    path
}

/// `base` with the components from index `from` on appended in turn.
pub fn join_components(base: &PathBuf, components: &Vec<Vec<u8>>, from: usize) -> (path: PathBuf)
    requires
        from <= components.len(),
    ensures
        path@ == path_join_all(base@, byte_lists(components@).skip(from as int)),
{
    let ghost all = byte_lists(components@).skip(from as int);
    let mut path = base.clone();
    let mut i: usize = from;
    assert(all.take(0) =~= Seq::empty());
    while i < components.len()
        invariant
            from <= i <= components.len(),
            all == byte_lists(components@).skip(from as int),
            path@ == path_join_all(base@, all.take(i - from)),
        decreases components.len() - i,
    {
        path = path.join(&PathBuf { bytes: byte_vec(components[i].as_slice()) });
        i += 1;
        assert(all.take(i - from).drop_last() =~= all.take(i - 1 - from));
        assert(all.take(i - from).last() == components@[i - 1]@);
    }
    assert(all.take(all.len() as int) =~= all);
    path
}

/// Whether two paths have the same components.
pub fn paths_equal(a: &PathBuf, b: &PathBuf) -> (equal: bool)
    ensures
        equal == same_path(a@, b@),
{
    let forward = a.starts_with(b);
    let backward = b.starts_with(a);
    proof {
        let x = path_components(a@);
        let y = path_components(b@);
        if y.is_prefix_of(x) && x.is_prefix_of(y) {
            assert(x =~= y);
        }
        if x == y {
            assert(x =~= y.subrange(0, x.len() as int));
        }
    }
    forward && backward
}

impl PartialEq for PathBuf {
    fn eq(&self, other: &Self) -> (equal: bool) {
        paths_equal(self, other)
    }
}

impl vstd::std_specs::cmp::PartialEqSpecImpl for PathBuf {
    open spec fn obeys_eq_spec() -> bool {
        true
    }

    open spec fn eq_spec(&self, other: &Self) -> bool {
        same_path(self@, other@)
    }
}

impl Eq for PathBuf {

}

/// Containment of paths is transitive: what starts with a path that starts with
/// `base` starts with `base`.
pub proof fn containment_is_transitive(path: Seq<u8>, middle: Seq<u8>, base: Seq<u8>)
    requires
        path_starts_with(path, middle),
        path_starts_with(middle, base),
    ensures
        path_starts_with(path, base),
{
    let p = path_components(path);
    let m = path_components(middle);
    let b = path_components(base);
    assert(b =~= p.subrange(0, b.len() as int));
}

/// Two paths contain each other exactly when they are the same path.
pub proof fn mutual_containment_is_equality(a: Seq<u8>, b: Seq<u8>)
    ensures
        path_starts_with(a, b) && path_starts_with(b, a) <==> same_path(a, b),
{
    let x = path_components(a);
    let y = path_components(b);
    if y.is_prefix_of(x) && x.is_prefix_of(y) {
        assert(x =~= y);
    }
    if x == y {
        assert(x =~= y.subrange(0, x.len() as int));
    }
}

/// A copy of a list of paths.
pub fn copy_paths(paths: &Vec<PathBuf>) -> (copy: Vec<PathBuf>)
    ensures
        path_views(copy@) == path_views(paths@),
{
    let mut copy: Vec<PathBuf> = Vec::new();
    let mut i: usize = 0;
    while i < paths.len()
        invariant
            i <= paths.len(),
            copy@.len() == i,
            forall|k: int| 0 <= k < i ==> (#[trigger] copy@[k])@ == paths@[k]@,
        decreases paths.len() - i,
    {
        copy.push(paths[i].clone());
        i += 1;
    }
    assert(path_views(copy@) =~= path_views(paths@));
    copy
}

} // verus!
