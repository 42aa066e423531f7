//! Operations on the rows of a table.

use vstd::prelude::*;

verus! {

/// The contents of the rows of a table.
pub open spec fn rows_view<T: View>(rows: Seq<T>) -> Seq<T::V> {
    rows.map_values(|row: T| row@)
}

/// Whether a row of the table has a property.
pub open spec fn some_row<V>(rows: Seq<V>, p: spec_fn(V) -> bool) -> bool {
    exists|i: int| 0 <= i < rows.len() && p(#[trigger] rows[i])
}

/// Removes the rows that are not to be kept.
pub fn retain_rows<T: View>(rows: &mut Vec<T>, keep: impl Fn(&T) -> bool, Ghost(p): Ghost<spec_fn(T::V) -> bool>)
    requires
        forall|row: &T| #[trigger] keep.requires((row,)),
        forall|row: &T, kept: bool| #[trigger] keep.ensures((row,), kept) ==> kept == p(row@),
    ensures
        rows_view(final(rows)@) == rows_view(old(rows)@).filter(p),
{
    let ghost all = rows_view(rows@);
    let ghost before = rows@;
    let ghost mut n: int = 0;
    let mut i: usize = 0;
    assert(rows_view(rows@.take(0)) =~= all.take(0).filter(p));
    assert(before.skip(0) =~= before);
    assert(rows@.skip(0) =~= before.skip(0));
    while i < rows.len()
        invariant
            i <= rows.len(),
            0 <= n <= before.len(),
            all == rows_view(before),
            rows@.len() - i == before.len() - n,
            rows@.skip(i as int) == before.skip(n),
            rows_view(rows@.take(i as int)) == all.take(n).filter(p),
            forall|row: &T| #[trigger] keep.requires((row,)),
            forall|row: &T, kept: bool| #[trigger] keep.ensures((row,), kept) ==> kept == p(row@),
        decreases rows.len() - i,
    {
        let kept = keep(&rows[i]);
        let ghost current = rows@;
        proof {
            assert(current.skip(i as int)[0] == before.skip(n)[0]);
            assert(current[i as int] == before[n]);
            assert(all.take(n + 1) =~= all.take(n).push(before[n]@));
            all.take(n).lemma_filter_push(before[n]@, p);
        }
        if kept {
            i += 1;
            proof {
                assert(current.skip(i as int) =~= current.skip(i - 1).drop_first());
                assert(before.skip(n + 1) =~= before.skip(n).drop_first());
                assert(rows_view(current.take(i as int)) =~= rows_view(current.take(i - 1)).push(current[i - 1]@));
            }
        } else {
            rows.remove(i);
            proof {
                assert(rows@.skip(i as int) =~= current.skip(i as int).drop_first());
                assert(before.skip(n + 1) =~= before.skip(n).drop_first());
                assert(rows@.take(i as int) =~= current.take(i as int));
            }
        }
        proof {
            n = n + 1;
        }
    }
    proof {
        assert(before.skip(n).len() == 0);
        assert(all.take(n) =~= all);
        assert(rows@.take(i as int) =~= rows@);
    }
}

/// Changes rows: where `change` gives a row, it takes the place of the old one.
pub fn update_rows<T: View>(
    rows: &mut Vec<T>,
    change: impl Fn(&T) -> Option<T>,
    Ghost(g): Ghost<spec_fn(T::V) -> T::V>,
)
    requires
        forall|row: &T| #[trigger] change.requires((row,)),
        forall|row: &T, changed: Option<T>| #[trigger]
            change.ensures((row,), changed) ==> match changed {
                Some(new) => new@ == g(row@),
                None => row@ == g(row@),
            },
    ensures
        rows_view(final(rows)@) == rows_view(old(rows)@).map_values(g),
{
    let ghost before = rows@;
    let mut i: usize = 0;
    while i < rows.len()
        invariant
            i <= rows.len(),
            rows@.len() == before.len(),
            forall|k: int| 0 <= k < i ==> (#[trigger] rows@[k])@ == g(before[k]@),
            forall|k: int| i <= k < rows@.len() ==> #[trigger] rows@[k] == before[k],
            forall|row: &T| #[trigger] change.requires((row,)),
            forall|row: &T, changed: Option<T>| #[trigger]
                change.ensures((row,), changed) ==> match changed {
                    Some(new) => new@ == g(row@),
                    None => row@ == g(row@),
                },
        decreases rows.len() - i,
    {
        match change(&rows[i]) {
            Some(new) => {
                rows.set(i, new);
            },
            None => {},
        }
        i += 1;
    }
    assert(rows_view(rows@) =~= rows_view(before).map_values(g));
}

/// The first row with a property.
pub fn find_row<T: View>(rows: &Vec<T>, wanted: impl Fn(&T) -> bool, Ghost(p): Ghost<spec_fn(T::V) -> bool>) -> (found: Option<
    usize,
>)
    requires
        forall|row: &T| #[trigger] wanted.requires((row,)),
        forall|row: &T, is: bool| #[trigger] wanted.ensures((row,), is) ==> is == p(row@),
    ensures
        found is Some <==> some_row(rows_view(rows@), p),
        found matches Some(i) ==> i < rows@.len() && p(rows_view(rows@)[i as int]) && forall|k: int|
            0 <= k < i ==> !p(#[trigger] rows_view(rows@)[k]),
{
    let ghost all = rows_view(rows@);
    let mut i: usize = 0;
    while i < rows.len()
        invariant
            i <= rows.len(),
            all == rows_view(rows@),
            forall|k: int| 0 <= k < i ==> !p(#[trigger] all[k]),
            forall|row: &T| #[trigger] wanted.requires((row,)),
            forall|row: &T, is: bool| #[trigger] wanted.ensures((row,), is) ==> is == p(row@),
        decreases rows.len() - i,
    {
        if wanted(&rows[i]) {
            assert(p(all[i as int]));
            return Some(i);
        }
        i += 1;
    }
    None
}

/// Whether a row has a property.
pub fn any_row<T: View>(rows: &Vec<T>, wanted: impl Fn(&T) -> bool, Ghost(p): Ghost<spec_fn(T::V) -> bool>) -> (found: bool)
    requires
        forall|row: &T| #[trigger] wanted.requires((row,)),
        forall|row: &T, is: bool| #[trigger] wanted.ensures((row,), is) ==> is == p(row@),
    ensures
        found == some_row(rows_view(rows@), p),
{
    find_row(rows, wanted, Ghost(p)).is_some()
}

/// Adds a row at the end.
pub fn push_row<T: View>(rows: &mut Vec<T>, row: T)
    ensures
        rows_view(final(rows)@) == rows_view(old(rows)@).push(row@),
{
    let ghost before = rows_view(rows@);
    rows.push(row);
    assert(rows_view(rows@) =~= before.push(row@));
}

/// The first row with a property, if there is one.
pub open spec fn first_row<V>(rows: Seq<V>, p: spec_fn(V) -> bool) -> Option<V>
    decreases rows.len(),
{
    if rows.len() == 0 {
        None
    } else if p(rows[0]) {
        Some(rows[0])
    } else {
        first_row(rows.drop_first(), p)
    }
}

/// A row before which no row has the property is the first that has it.
pub proof fn first_row_is<V>(rows: Seq<V>, p: spec_fn(V) -> bool, i: int)
    requires
        0 <= i <= rows.len(),
        forall|k: int| 0 <= k < i ==> !p(#[trigger] rows[k]),
    ensures
        i < rows.len() && p(rows[i]) ==> first_row(rows, p) == Some(rows[i]),
        i == rows.len() ==> first_row(rows, p) is None,
    decreases i,
{
    if i > 0 {
        assert(!p(rows[0]));
        assert forall|k: int| 0 <= k < i - 1 implies !p(#[trigger] rows.drop_first()[k]) by {
            assert(!p(rows[k + 1]));
        }
        first_row_is(rows.drop_first(), p, i - 1);
    }
}

/// The index of the first row with a property.
pub fn first_index_of<T: View>(
    rows: &Vec<T>,
    wanted: impl Fn(&T) -> bool,
    Ghost(p): Ghost<spec_fn(T::V) -> bool>,
) -> (found: Option<usize>)
    requires
        forall|row: &T| #[trigger] wanted.requires((row,)),
        forall|row: &T, is: bool| #[trigger] wanted.ensures((row,), is) ==> is == p(row@),
    ensures
        match first_row(rows_view(rows@), p) {
            Some(row) => found matches Some(i) && i < rows@.len() && rows@[i as int]@ == row && p(row),
            None => found is None,
        },
{
    let found = find_row(rows, wanted, Ghost(p));
    proof {
        let all = rows_view(rows@);
        match found {
            Some(i) => {
                first_row_is(all, p, i as int);
            },
            None => {
                first_row_is(all, p, all.len() as int);
            },
        }
    }
    found
}

/// The rows after inserting one: where a row with the same key is there, it is
/// changed instead.
pub open spec fn upserted<V>(rows: Seq<V>, same_key: spec_fn(V) -> bool, merge: spec_fn(V) -> V, new: V) -> Seq<V> {
    if some_row(rows, same_key) {
        rows.map_values(
            |row: V|
                if same_key(row) {
                    merge(row)
                } else {
                    row
                },
        )
    } else {
        rows.push(new)
    }
}

/// Inserts a row, or changes the one with the same key.
pub fn upsert_row<T: View>(
    rows: &mut Vec<T>,
    same_key: impl Fn(&T) -> bool,
    merge: impl Fn(&T) -> T,
    new: T,
    Ghost(p): Ghost<spec_fn(T::V) -> bool>,
    Ghost(g): Ghost<spec_fn(T::V) -> T::V>,
)
    requires
        forall|row: &T| #[trigger] same_key.requires((row,)),
        forall|row: &T, is: bool| #[trigger] same_key.ensures((row,), is) ==> is == p(row@),
        forall|row: &T| #[trigger] merge.requires((row,)),
        forall|row: &T, merged: T| #[trigger] merge.ensures((row,), merged) ==> merged@ == g(row@),
    ensures
        rows_view(final(rows)@) == upserted(rows_view(old(rows)@), p, g, new@),
{
    let ghost before = rows@;
    let ghost all = rows_view(rows@);
    let mut found = false;
    let mut i: usize = 0;
    while i < rows.len()
        invariant
            i <= rows.len(),
            rows@.len() == before.len(),
            all == rows_view(before),
            found == exists|k: int| 0 <= k < i && p(#[trigger] all[k]),
            forall|k: int|
                0 <= k < i ==> (#[trigger] rows@[k])@ == (if p(all[k]) {
                    g(all[k])
                } else {
                    all[k]
                }),
            forall|k: int| i <= k < rows@.len() ==> #[trigger] rows@[k] == before[k],
            forall|row: &T| #[trigger] same_key.requires((row,)),
            forall|row: &T, is: bool| #[trigger] same_key.ensures((row,), is) ==> is == p(row@),
            forall|row: &T| #[trigger] merge.requires((row,)),
            forall|row: &T, merged: T| #[trigger] merge.ensures((row,), merged) ==> merged@ == g(row@),
        decreases rows.len() - i,
    {
        assert(rows@[i as int]@ == all[i as int]);
        if same_key(&rows[i]) {
            let merged = merge(&rows[i]);
            rows.set(i, merged);
            found = true;
            assert(p(all[i as int]));
        }
        i += 1;
    }
    if !found {
        assert(rows_view(rows@) =~= all);
        push_row(rows, new);
    } else {
        assert(some_row(all, p));
        assert(rows_view(rows@) =~= upserted(all, p, g, new@));
    }
}

/// What is picked out of the rows, in their order.
pub open spec fn picked<V, W>(rows: Seq<V>, g: spec_fn(V) -> Option<W>) -> Seq<W>
    decreases rows.len(),
{
    if rows.len() == 0 {
        Seq::empty()
    } else {
        let before = picked(rows.drop_last(), g);
        match g(rows.last()) {
            Some(value) => before.push(value),
            None => before,
        }
    }
}

/// Everything that is picked comes from a row, and everything that a row gives is
/// picked.
pub proof fn picked_are_of_rows<V, W>(rows: Seq<V>, g: spec_fn(V) -> Option<W>)
    ensures
        forall|i: int| 0 <= i < rows.len() && g(rows[i]) is Some ==> picked(rows, g).contains(g(#[trigger] rows[i])->0),
        forall|k: int|
            0 <= k < picked(rows, g).len() ==> exists|i: int|
                0 <= i < rows.len() && g(#[trigger] rows[i]) == Some(#[trigger] picked(rows, g)[k]),
    decreases rows.len(),
{
    if rows.len() > 0 {
        let rest = rows.drop_last();
        let before = picked(rest, g);
        let all = picked(rows, g);
        picked_are_of_rows(rest, g);
        assert forall|i: int| 0 <= i < rows.len() && g(rows[i]) is Some implies all.contains(
            g(#[trigger] rows[i])->0,
        ) by {
            if i < rest.len() {
                assert(rest[i] == rows[i]);
                assert(before.contains(g(rest[i])->0));
                let k = choose|k: int| 0 <= k < before.len() && before[k] == g(rest[i])->0;
                assert(all[k] == before[k]);
            } else {
                assert(all[before.len() as int] == g(rows[i])->0);
            }
        }
        assert forall|k: int| 0 <= k < all.len() implies exists|i: int|
            0 <= i < rows.len() && g(#[trigger] rows[i]) == Some(#[trigger] all[k]) by {
            if k < before.len() {
                let i = choose|i: int| 0 <= i < rest.len() && g(#[trigger] rest[i]) == Some(before[k]);
                assert(rows[i] == rest[i]);
                assert(all[k] == before[k]);
            } else {
                assert(g(rows[rows.len() - 1]) == Some(all[k]));
            }
        }
    }
}

/// Picks values out of the rows, behind those that are there.
pub fn pick_rows<T: View, U: View>(
    rows: &Vec<T>,
    pick: impl Fn(&T) -> Option<U>,
    out: &mut Vec<U>,
    Ghost(g): Ghost<spec_fn(T::V) -> Option<U::V>>,
)
    requires
        forall|row: &T| #[trigger] pick.requires((row,)),
        forall|row: &T, found: Option<U>| #[trigger]
            pick.ensures((row,), found) ==> match found {
                Some(value) => g(row@) == Some(value@),
                None => g(row@) is None,
            },
    ensures
        rows_view(final(out)@) == rows_view(old(out)@) + picked(rows_view(rows@), g),
{
    let ghost all = rows_view(rows@);
    let ghost start = rows_view(out@);
    let mut i: usize = 0;
    assert(picked(all.take(0), g) =~= Seq::empty());
    assert(rows_view(out@) =~= start + picked(all.take(0), g));
    while i < rows.len()
        invariant
            i <= rows.len(),
            all == rows_view(rows@),
            rows_view(out@) == start + picked(all.take(i as int), g),
            forall|row: &T| #[trigger] pick.requires((row,)),
            forall|row: &T, found: Option<U>| #[trigger]
                pick.ensures((row,), found) ==> match found {
                    Some(value) => g(row@) == Some(value@),
                    None => g(row@) is None,
                },
        decreases rows.len() - i,
    {
        let found = pick(&rows[i]);
        proof {
            assert(all.take(i + 1).drop_last() =~= all.take(i as int));
            assert(all.take(i + 1).last() == rows@[i as int]@);
        }
        match found {
            Some(value) => {
                push_row(out, value);
                assert(rows_view(out@) =~= start + picked(all.take(i + 1), g));
            },
            None => {},
        }
        i += 1;
    }
    assert(all.take(i as int) =~= all);
}

/// A row that can be duplicated.
pub trait Row: View + Sized {
    fn duplicate(&self) -> (copy: Self)
        ensures
            copy@ == self@,
    ;
}

/// A copy of the rows.
pub fn copy_rows<T: Row>(rows: &Vec<T>) -> (copy: Vec<T>)
    ensures
        rows_view(copy@) == rows_view(rows@),
{
    let mut copy: Vec<T> = Vec::new();
    let mut i: usize = 0;
    while i < rows.len()
        invariant
            i <= rows.len(),
            copy@.len() == i,
            forall|k: int| 0 <= k < i ==> (#[trigger] copy@[k])@ == rows@[k]@,
        decreases rows.len() - i,
    {
        copy.push(rows[i].duplicate());
        i += 1;
    }
    assert(rows_view(copy@) =~= rows_view(rows@));
    copy
}

/// Copies of the rows with a property, in their order.
pub fn select_rows<T: Row>(rows: &Vec<T>, wanted: impl Fn(&T) -> bool, Ghost(p): Ghost<spec_fn(T::V) -> bool>) -> (found: Vec<T>)
    requires
        forall|row: &T| #[trigger] wanted.requires((row,)),
        forall|row: &T, is: bool| #[trigger] wanted.ensures((row,), is) ==> is == p(row@),
    ensures
        rows_view(found@) == rows_view(rows@).filter(p),
{
    let mut found = copy_rows(rows);
    retain_rows(&mut found, wanted, Ghost(p));
    found
}

/// A list in order with a value put behind those that it is not less than.
pub open spec fn inserted_stably<V>(sorted: Seq<V>, value: V, less: spec_fn(V, V) -> bool) -> Seq<V>
    decreases sorted.len(),
{
    if sorted.len() == 0 || !less(value, sorted.last()) {
        sorted.push(value)
    } else {
        inserted_stably(sorted.drop_last(), value, less).push(sorted.last())
    }
}

/// The values in order; equal ones stay in the order they had.
pub open spec fn stably_sorted<V>(values: Seq<V>, less: spec_fn(V, V) -> bool) -> Seq<V>
    decreases values.len(),
{
    if values.len() == 0 {
        values
    } else {
        inserted_stably(stably_sorted(values.drop_last(), less), values.last(), less)
    }
}

proof fn lemma_insertion_place<V>(sorted: Seq<V>, value: V, less: spec_fn(V, V) -> bool, p: int)
    requires
        0 <= p <= sorted.len(),
        forall|k: int| p <= k < sorted.len() ==> less(value, #[trigger] sorted[k]),
        p > 0 ==> !less(value, sorted[p - 1]),
    ensures
        inserted_stably(sorted, value, less) == sorted.insert(p, value),
    decreases sorted.len(),
{
    if p == sorted.len() {
        assert(sorted.insert(p, value) =~= sorted.push(value));
    } else {
        let rest = sorted.drop_last();
        assert(less(value, sorted[sorted.len() - 1]));
        assert forall|k: int| p <= k < rest.len() implies less(value, #[trigger] rest[k]) by {
            assert(rest[k] == sorted[k]);
        }
        lemma_insertion_place(rest, value, less, p);
        assert(rest.insert(p, value).push(sorted.last()) =~= sorted.insert(p, value));
    }
}

/// Putting a value into a list adds it and nothing else.
pub proof fn lemma_inserted_same<V>(sorted: Seq<V>, value: V, less: spec_fn(V, V) -> bool)
    ensures
        inserted_stably(sorted, value, less).to_multiset() == sorted.to_multiset().insert(value),
        inserted_stably(sorted, value, less).len() == sorted.len() + 1,
    decreases sorted.len(),
{
    broadcast use vstd::seq_lib::group_to_multiset_ensures;

    if sorted.len() > 0 && less(value, sorted.last()) {
        lemma_inserted_same(sorted.drop_last(), value, less);
        assert(sorted =~= sorted.drop_last().push(sorted.last()));
        assert(inserted_stably(sorted, value, less).to_multiset() =~= sorted.to_multiset().insert(value));
    }
}

/// Sorting keeps exactly the values that are there.
pub proof fn sorting_keeps_the_values<V>(values: Seq<V>, less: spec_fn(V, V) -> bool)
    ensures
        stably_sorted(values, less).to_multiset() == values.to_multiset(),
        stably_sorted(values, less).len() == values.len(),
    decreases values.len(),
{
    broadcast use vstd::seq_lib::group_to_multiset_ensures;

    if values.len() > 0 {
        sorting_keeps_the_values(values.drop_last(), less);
        lemma_inserted_same(stably_sorted(values.drop_last(), less), values.last(), less);
        assert(values =~= values.drop_last().push(values.last()));
    }
}

/// Sorts the rows; equal ones stay in the order they had.
pub fn sort_rows<T: View>(rows: &mut Vec<T>, less: impl Fn(&T, &T) -> bool, Ghost(l): Ghost<spec_fn(T::V, T::V) -> bool>)
    requires
        forall|a: &T, b: &T| #[trigger] less.requires((a, b)),
        forall|a: &T, b: &T, is: bool| #[trigger] less.ensures((a, b), is) ==> is == l(a@, b@),
    ensures
        rows_view(final(rows)@) == stably_sorted(rows_view(old(rows)@), l),
{
    let ghost all = rows_view(rows@);
    let ghost before = rows@;
    let mut i: usize = 0;
    assert(rows_view(rows@.take(0)) =~= stably_sorted(all.take(0), l));
    while i < rows.len()
        invariant
            i <= rows.len(),
            rows@.len() == before.len(),
            all == rows_view(before),
            rows_view(rows@.take(i as int)) == stably_sorted(all.take(i as int), l),
            forall|k: int| i <= k < rows@.len() ==> #[trigger] rows@[k] == before[k],
            forall|a: &T, b: &T| #[trigger] less.requires((a, b)),
            forall|a: &T, b: &T, is: bool| #[trigger] less.ensures((a, b), is) ==> is == l(a@, b@),
        decreases rows.len() - i,
    {
        let ghost sorted = rows_view(rows@.take(i as int));
        let mut p: usize = i;
        while p > 0 && less(&rows[i], &rows[p - 1])
            invariant
                p <= i < rows.len(),
                sorted == rows_view(rows@.take(i as int)),
                forall|k: int| p <= k < i ==> l(rows@[i as int]@, #[trigger] sorted[k]),
                forall|a: &T, b: &T| #[trigger] less.requires((a, b)),
                forall|a: &T, b: &T, is: bool| #[trigger] less.ensures((a, b), is) ==> is == l(a@, b@),
            ensures
                p > 0 ==> !l(rows@[i as int]@, sorted[p - 1]),
            decreases p,
        {
            p -= 1;
            assert(sorted[p as int] == rows@[p as int]@);
        }
        let ghost current = rows@;
        let value = rows.remove(i);
        rows.insert(p, value);
        proof {
            assert(all.take(i + 1).drop_last() =~= all.take(i as int));
            assert(all.take(i + 1).last() == value@);
            lemma_insertion_place(sorted, value@, l, p as int);
            assert(rows_view(rows@.take(i + 1)) =~= sorted.insert(p as int, value@));
        }
        i += 1;
    }
    assert(rows@.take(i as int) =~= rows@);
    assert(all.take(i as int) =~= all);
}

} // verus!
