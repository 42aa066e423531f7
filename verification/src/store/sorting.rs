//! What sorting and choosing rows keep.

use crate::store::table::{inserted_stably, lemma_inserted_same, sorting_keeps_the_values, stably_sorted};
use vstd::prelude::*;

verus! {

/// Whether a relation orders values as the keys of the values are ordered.
pub open spec fn orders<V>(less: spec_fn(V, V) -> bool) -> bool {
    &&& forall|a: V, b: V| !(#[trigger] less(a, b) && less(b, a))
    &&& forall|a: V, b: V, c: V| #![trigger less(a, b), less(b, c)] less(a, b) && less(b, c) ==> less(a, c)
    &&& forall|a: V, b: V, c: V| #![trigger less(a, b), less(b, c)] !less(a, b) && !less(b, c) ==> !less(a, c)
}

/// Whether no value of a list is less than one before it.
pub open spec fn is_sorted<V>(list: Seq<V>, less: spec_fn(V, V) -> bool) -> bool {
    forall|i: int, j: int| #![trigger list[i], list[j]] 0 <= i < j < list.len() ==> !less(list[j], list[i])
}

proof fn lemma_same_members<V>(a: Seq<V>, b: Seq<V>)
    requires
        a.to_multiset() == b.to_multiset(),
    ensures
        forall|x: V| #[trigger] a.contains(x) <==> b.contains(x),
{
    broadcast use vstd::seq_lib::group_to_multiset_ensures;

    assert forall|x: V| #[trigger] a.contains(x) <==> b.contains(x) by {
        assert(a.contains(x) <==> a.to_multiset().count(x) > 0);
        assert(b.contains(x) <==> b.to_multiset().count(x) > 0);
    }
}

proof fn lemma_inserted_sorted<V>(sorted: Seq<V>, value: V, less: spec_fn(V, V) -> bool)
    requires
        orders(less),
        is_sorted(sorted, less),
    ensures
        is_sorted(inserted_stably(sorted, value, less), less),
    decreases sorted.len(),
{
    broadcast use vstd::seq_lib::group_to_multiset_ensures;

    let all = inserted_stably(sorted, value, less);
    if sorted.len() == 0 || !less(value, sorted.last()) {
        assert forall|i: int, j: int| #![trigger all[i], all[j]] 0 <= i < j < all.len() implies !less(all[j], all[i]) by {
            if j < sorted.len() {
                assert(all[i] == sorted[i] && all[j] == sorted[j]);
            } else if i < sorted.len() - 1 {
                assert(!less(sorted[sorted.len() - 1], sorted[i]));
                assert(!less(value, sorted[sorted.len() - 1]));
            }
        }
    } else {
        let front = sorted.drop_last();
        let last = sorted.last();
        assert(is_sorted(front, less)) by {
            assert forall|i: int, j: int| #![trigger front[i], front[j]] 0 <= i < j < front.len() implies !less(
                front[j],
                front[i],
            ) by {
                assert(front[i] == sorted[i] && front[j] == sorted[j]);
            }
        }
        lemma_inserted_sorted(front, value, less);
        let inner = inserted_stably(front, value, less);
        lemma_inserted_same(front, value, less);
        lemma_same_members(inner, front.push(value));
        assert forall|i: int, j: int| #![trigger all[i], all[j]] 0 <= i < j < all.len() implies !less(all[j], all[i]) by {
            if j < inner.len() {
                assert(all[i] == inner[i] && all[j] == inner[j]);
            } else {
                assert(all[j] == last && all[i] == inner[i]);
                assert(inner.contains(inner[i]));
                let with = front.push(value);
                assert(with.contains(inner[i]));
                let k = choose|k: int| 0 <= k < with.len() && with[k] == inner[i];
                if k == front.len() {
                    assert(!(less(value, last) && less(last, value)));
                } else {
                    assert(sorted[k] == inner[i]);
                    assert(!less(sorted[sorted.len() - 1], sorted[k]));
                }
            }
        }
    }
}

/// A sorted list is in order, and holds exactly the values that were sorted.
pub proof fn sorting_puts_in_order<V>(values: Seq<V>, less: spec_fn(V, V) -> bool)
    requires
        orders(less),
    ensures
        is_sorted(stably_sorted(values, less), less),
        forall|x: V| #[trigger] stably_sorted(values, less).contains(x) <==> values.contains(x),
        stably_sorted(values, less).len() == values.len(),
        stably_sorted(values, less).to_multiset() == values.to_multiset(),
    decreases values.len(),
{
    sorting_keeps_the_values(values, less);
    lemma_same_members(stably_sorted(values, less), values);
    if values.len() > 0 {
        let front = values.drop_last();
        sorting_puts_in_order(front, less);
        lemma_inserted_sorted(stably_sorted(front, less), values.last(), less);
    }
}

proof fn lemma_inserted_among<V>(sorted: Seq<V>, value: V, less: spec_fn(V, V) -> bool, alike: spec_fn(V) -> bool)
    requires
        forall|a: V, b: V| alike(a) && alike(b) ==> !(#[trigger] less(a, b)),
    ensures
        inserted_stably(sorted, value, less).filter(alike) == if alike(value) {
            sorted.filter(alike).push(value)
        } else {
            sorted.filter(alike)
        },
    decreases sorted.len(),
{
    if sorted.len() == 0 || !less(value, sorted.last()) {
        sorted.lemma_filter_push(value, alike);
    } else {
        let front = sorted.drop_last();
        let inner = inserted_stably(front, value, less);
        lemma_inserted_among(front, value, less, alike);
        inner.lemma_filter_push(sorted.last(), alike);
        front.lemma_filter_push(sorted.last(), alike);
        assert(front.push(sorted.last()) =~= sorted);
    }
}

/// Values of which none is less than another stay in the order they had.
pub proof fn sorting_keeps_the_order_of_equals<V>(values: Seq<V>, less: spec_fn(V, V) -> bool, alike: spec_fn(V) -> bool)
    requires
        forall|a: V, b: V| alike(a) && alike(b) ==> !(#[trigger] less(a, b)),
    ensures
        stably_sorted(values, less).filter(alike) == values.filter(alike),
    decreases values.len(),
{
    if values.len() > 0 {
        let front = values.drop_last();
        sorting_keeps_the_order_of_equals(front, less, alike);
        lemma_inserted_among(stably_sorted(front, less), values.last(), less, alike);
        front.lemma_filter_push(values.last(), alike);
        assert(front.push(values.last()) =~= values);
    }
}

/// Choosing rows keeps exactly the rows with the property.
pub proof fn chosen_rows_have_the_property<V>(rows: Seq<V>, p: spec_fn(V) -> bool)
    ensures
        forall|x: V| #[trigger] rows.filter(p).contains(x) <==> rows.contains(x) && p(x),
        rows.filter(p).len() <= rows.len(),
{
    rows.lemma_filter_len(p);
    assert forall|x: V| #[trigger] rows.filter(p).contains(x) <==> rows.contains(x) && p(x) by {
        if rows.filter(p).contains(x) {
            rows.lemma_filter_contains_rev(p, x);
            let k = choose|k: int| 0 <= k < rows.filter(p).len() && rows.filter(p)[k] == x;
            rows.lemma_filter_pred(p, k);
        }
        if rows.contains(x) && p(x) {
            let k = choose|k: int| 0 <= k < rows.len() && rows[k] == x;
            rows.lemma_filter_contains(p, k);
        }
    }
}

} // verus!
