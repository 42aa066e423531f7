//! How paths are taken apart and put together.

use crate::path::{
    cur_dir, is_absolute_path, is_component, parent_dir, path_components, path_file_name, path_join, path_starts_with, root_dir,
    same_path, SLASH,
};
use crate::text::{lemma_split_nonempty, split_on};
use vstd::prelude::*;

verus! {

/// The pieces with a separator between each two.
pub open spec fn put_together<T>(pieces: Seq<Seq<T>>, sep: T) -> Seq<T>
    decreases pieces.len(),
{
    if pieces.len() == 0 {
        Seq::empty()
    } else if pieces.len() == 1 {
        pieces[0]
    } else {
        put_together(pieces.drop_last(), sep).push(sep) + pieces.last()
    }
}

/// The pieces of a text give it back when they are put together again, and none of
/// them holds the separator.
pub proof fn pieces_give_the_whole_back<T>(s: Seq<T>, sep: T)
    ensures
        put_together(split_on(s, sep), sep) == s,
        forall|i: int| 0 <= i < split_on(s, sep).len() ==> !(#[trigger] split_on(s, sep)[i]).contains(sep),
    decreases s.len(),
{
    let pieces = split_on(s, sep);
    if s.len() > 0 {
        let shorter = s.drop_last();
        let before = split_on(shorter, sep);
        pieces_give_the_whole_back(shorter, sep);
        lemma_split_nonempty(shorter, sep);
        assert(s =~= shorter.push(s.last()));
        if s.last() == sep {
            assert(pieces.drop_last() =~= before);
            assert(put_together(pieces, sep) =~= s);
        } else {
            assert(pieces.drop_last() =~= before.drop_last());
            assert(put_together(pieces, sep) =~= s);
            assert forall|i: int| 0 <= i < pieces.len() implies !(#[trigger] pieces[i]).contains(sep) by {
                if i < before.len() - 1 {
                    assert(pieces[i] == before[i]);
                } else {
                    assert(!before[before.len() - 1].contains(sep));
                    let last = before.last().push(s.last());
                    assert(pieces[i] == last);
                    if last.contains(sep) {
                        let k = choose|k: int| 0 <= k < last.len() && last[k] == sep;
                        assert(before.last()[k] == sep);
                    }
                }
            }
        }
    } else {
        assert(put_together(pieces, sep) =~= s);
    }
}

/// What stands on both sides of a separator is taken apart by itself.
pub proof fn sides_are_split_apart<T>(a: Seq<T>, b: Seq<T>, sep: T)
    ensures
        split_on(a.push(sep) + b, sep) == split_on(a, sep) + split_on(b, sep),
    decreases b.len(),
{
    let whole = a.push(sep) + b;
    if b.len() == 0 {
        assert(whole =~= a.push(sep));
        assert(whole.drop_last() =~= a);
        assert(split_on(b, sep) =~= seq![Seq::<T>::empty()]);
        assert(split_on(whole, sep) =~= split_on(a, sep) + split_on(b, sep));
    } else {
        let shorter = b.drop_last();
        sides_are_split_apart(a, shorter, sep);
        lemma_split_nonempty(shorter, sep);
        assert(whole.drop_last() =~= a.push(sep) + shorter);
        assert(whole.last() == b.last());
        assert(split_on(whole, sep) =~= split_on(a, sep) + split_on(b, sep));
    }
}

/// A text without the separator is its only piece.
pub proof fn undivided_texts_are_one_piece<T>(s: Seq<T>, sep: T)
    requires
        !s.contains(sep),
    ensures
        split_on(s, sep) == seq![s],
    decreases s.len(),
{
    if s.len() > 0 {
        let shorter = s.drop_last();
        assert forall|k: int| 0 <= k < shorter.len() implies shorter[k] != sep by {
            assert(s[k] == shorter[k]);
        }
        undivided_texts_are_one_piece(shorter, sep);
        assert(s[s.len() - 1] != sep);
        assert(shorter.push(s.last()) =~= s);
        assert(split_on(s, sep) =~= seq![s]);
    } else {
        assert(s =~= Seq::<T>::empty());
    }
}

spec fn kept(pieces: Seq<Seq<u8>>) -> Seq<Seq<u8>> {
    pieces.filter(|piece: Seq<u8>| is_component(piece))
}

proof fn lemma_kept_sides(a: Seq<Seq<u8>>, b: Seq<Seq<u8>>)
    ensures
        kept(a + b) == kept(a) + kept(b),
{
    Seq::filter_distributes_over_add(a, b, |piece: Seq<u8>| is_component(piece));
}

/// The components of `base` and of a path below it, where a separator stands between.
proof fn lemma_joined_components(base: Seq<u8>, other: Seq<u8>)
    requires
        base.len() > 0,
        !is_absolute_path(other),
    ensures
        path_components(path_join(base, other)) == path_components(base) + kept(split_on(other, SLASH)),
{
    let joined = path_join(base, other);
    let below = split_on(other, SLASH);
    if base.last() == SLASH {
        let front = base.drop_last();
        assert(base =~= front.push(SLASH) + Seq::<u8>::empty());
        assert(joined =~= front.push(SLASH) + other);
        sides_are_split_apart(front, Seq::<u8>::empty(), SLASH);
        sides_are_split_apart(front, other, SLASH);
        let pieces = split_on(front, SLASH);
        let nothing = seq![Seq::<u8>::empty()];
        assert(split_on(Seq::<u8>::empty(), SLASH) =~= nothing);
        lemma_kept_sides(pieces, nothing);
        lemma_kept_sides(pieces, below);
        assert(kept(nothing) =~= Seq::empty()) by {
            reveal_with_fuel(Seq::filter, 2);
            assert(nothing.drop_last() =~= Seq::empty());
        }
        lemma_split_nonempty(front, SLASH);
        assert((pieces + nothing)[0] == pieces[0]);
        assert((pieces + below)[0] == pieces[0]);
        assert(joined[0] == base[0]);
        assert(path_components(joined) =~= path_components(base) + kept(below));
    } else {
        assert(joined =~= base.push(SLASH) + other);
        sides_are_split_apart(base, other, SLASH);
        let pieces = split_on(base, SLASH);
        lemma_kept_sides(pieces, below);
        lemma_split_nonempty(base, SLASH);
        assert((pieces + below)[0] == pieces[0]);
        assert(joined[0] == base[0]);
        assert(path_components(joined) =~= path_components(base) + kept(below));
    }
}

/// A relative path taken from a directory lies in it, and an absolute path stays what
/// it is.
pub proof fn joined_paths_lie_below(base: Seq<u8>, other: Seq<u8>)
    ensures
        !is_absolute_path(other) ==> path_starts_with(path_join(base, other), base),
        !is_absolute_path(other) && is_absolute_path(base) ==> is_absolute_path(path_join(base, other)),
        is_absolute_path(other) ==> path_join(base, other) == other,
{
    if !is_absolute_path(other) {
        if base.len() == 0 {
            undivided_texts_are_one_piece(base, SLASH);
            assert(kept(split_on(base, SLASH)) =~= Seq::empty()) by {
                reveal_with_fuel(Seq::filter, 2);
                assert(seq![base].drop_last() =~= Seq::empty());
            }
            assert(path_components(base) =~= Seq::empty());
            assert(path_components(base) =~= path_components(path_join(base, other)).subrange(0, 0));
        } else {
            lemma_joined_components(base, other);
            let all = path_components(path_join(base, other));
            assert(path_components(base) =~= all.subrange(0, path_components(base).len() as int));
        }
    }
}

/// A name in a directory is the last component of its path, after those of the
/// directory.
pub proof fn names_are_the_last_component(base: Seq<u8>, name: Seq<u8>)
    requires
        name.len() > 0,
        !name.contains(SLASH),
        name != cur_dir(),
    ensures
        path_components(path_join(base, name)) == path_components(base).push(name),
        name != parent_dir() ==> path_file_name(path_join(base, name)) == Some(name),
{
    assert(name[0] != SLASH);
    undivided_texts_are_one_piece(name, SLASH);
    assert(kept(seq![name]) =~= seq![name]) by {
        reveal_with_fuel(Seq::filter, 2);
        assert(seq![name].drop_last() =~= Seq::empty());
    }
    if base.len() == 0 {
        assert(path_join(base, name) =~= name);
        undivided_texts_are_one_piece(base, SLASH);
        assert(kept(seq![base]) =~= Seq::empty()) by {
            reveal_with_fuel(Seq::filter, 2);
            assert(seq![base].drop_last() =~= Seq::empty());
        }
        assert(path_components(base) =~= Seq::empty());
        assert(path_components(name) =~= path_components(base).push(name));
    } else {
        lemma_joined_components(base, name);
        assert(path_components(base) + seq![name] =~= path_components(base).push(name));
    }
    assert(name != root_dir()) by {
        if name == root_dir() {
            assert(name[0] == SLASH);
        }
    }
}

/// Different names in one directory lie apart: neither path contains the other, the
/// directory contains both and is contained in neither.
pub proof fn siblings_lie_apart(base: Seq<u8>, a: Seq<u8>, b: Seq<u8>)
    requires
        a.len() > 0,
        b.len() > 0,
        !a.contains(SLASH),
        !b.contains(SLASH),
        a != cur_dir(),
        b != cur_dir(),
        a != b,
    ensures
        !path_starts_with(path_join(base, a), path_join(base, b)),
        path_starts_with(path_join(base, a), base),
        !path_starts_with(base, path_join(base, a)),
        !same_path(path_join(base, a), path_join(base, b)),
{
    names_are_the_last_component(base, a);
    names_are_the_last_component(base, b);
    let x = path_components(path_join(base, a));
    let y = path_components(path_join(base, b));
    assert(x.last() == a && y.last() == b);
    assert(path_components(base) =~= x.subrange(0, x.len() - 1));
    if y.is_prefix_of(x) {
        assert(y =~= x);
    }
}

/// Every path lies in itself.
pub proof fn containment_is_reflexive(path: Seq<u8>)
    ensures
        path_starts_with(path, path),
        same_path(path, path),
{
    let p = path_components(path);
    assert(p =~= p.subrange(0, p.len() as int));
}

} // verus!
