//! Total orders given by sort keys, and sorting by them.

use crate::path::{cur_dir, parent_dir, path_components, root_dir, PathBuf, DOT, SLASH};
use crate::text::byte_lists;
use vstd::prelude::*;
use vstd::utf8::encode_utf8;

pub mod laws;

verus! {

/// Whether `a` stands before `b` in the lexicographic order.
pub open spec fn lex_less(a: Seq<i16>, b: Seq<i16>) -> bool
    decreases a.len(),
{
    if b.len() == 0 {
        false
    } else if a.len() == 0 {
        true
    } else if a[0] != b[0] {
        a[0] < b[0]
    } else {
        lex_less(a.drop_first(), b.drop_first())
    }
}

/// Nothing stands before itself.
pub proof fn lex_irreflexive(a: Seq<i16>)
    ensures
        !lex_less(a, a),
    decreases a.len(),
{
    if a.len() > 0 {
        lex_irreflexive(a.drop_first());
    }
}

/// The lexicographic order is transitive.
pub proof fn lex_transitive(a: Seq<i16>, b: Seq<i16>, c: Seq<i16>)
    requires
        lex_less(a, b),
        lex_less(b, c),
    ensures
        lex_less(a, c),
    decreases a.len(),
{
    if a.len() > 0 && a[0] == b[0] && b[0] == c[0] {
        lex_transitive(a.drop_first(), b.drop_first(), c.drop_first());
    }
}

/// Of two different sequences one stands before the other.
pub proof fn lex_total(a: Seq<i16>, b: Seq<i16>)
    ensures
        lex_less(a, b) || lex_less(b, a) || a == b,
    decreases a.len(),
{
    if a.len() > 0 && b.len() > 0 && a[0] == b[0] {
        lex_total(a.drop_first(), b.drop_first());
        if a.drop_first() == b.drop_first() {
            assert(a =~= seq![a[0]] + a.drop_first());
            assert(b =~= seq![b[0]] + b.drop_first());
        }
    } else if a.len() == 0 && b.len() == 0 {
        assert(a =~= b);
    }
}

/// A shared prefix does not matter to the order.
proof fn lex_skip(a: Seq<i16>, b: Seq<i16>, n: int)
    requires
        0 <= n <= a.len(),
        n <= b.len(),
        a.take(n) == b.take(n),
    ensures
        lex_less(a, b) == lex_less(a.skip(n), b.skip(n)),
    decreases n,
{
    if n == 0 {
        assert(a.skip(0) =~= a && b.skip(0) =~= b);
    } else {
        assert(a.take(n)[0] == a[0] && b.take(n)[0] == b[0]);
        assert(a.drop_first().take(n - 1) =~= a.take(n).drop_first());
        assert(b.drop_first().take(n - 1) =~= b.take(n).drop_first());
        lex_skip(a.drop_first(), b.drop_first(), n - 1);
        assert(a.drop_first().skip(n - 1) =~= a.skip(n));
        assert(b.drop_first().skip(n - 1) =~= b.skip(n));
    }
}

/// Whether the key `a` stands before the key `b`.
pub fn key_less(a: &Vec<i16>, b: &Vec<i16>) -> (less: bool)
    ensures
        less == lex_less(a@, b@),
{
    let mut i: usize = 0;
    while i < a.len() && i < b.len() && a[i] == b[i]
        invariant
            i <= a.len(),
            i <= b.len(),
            a@.take(i as int) == b@.take(i as int),
        decreases a.len() - i,
    {
        i += 1;
        assert(a@.take(i as int) =~= a@.take(i - 1).push(a@[i - 1]));
        assert(b@.take(i as int) =~= b@.take(i - 1).push(b@[i - 1]));
    }
    proof {
        lex_skip(a@, b@, i as int);
    }
    if i == b.len() {
        false
    } else if i == a.len() {
        true
    } else {
        a[i] < b[i]
    }
}

/// Values that are ordered by a key; values with one key count as equal.
pub trait Ranked: Sized {
    /// The key by which a value is ordered.
    spec fn rank(&self) -> Seq<i16>;

    /// Computes the key of a value.
    fn rank_key(&self) -> (key: Vec<i16>)
        ensures
            key@ == self.rank(),
    ;
}

/// Whether each value stands before all that follow it.
pub open spec fn strictly_ordered<T: Ranked>(values: Seq<T>) -> bool {
    forall|i: int, j: int|
        0 <= i < j < values.len() ==> lex_less((#[trigger] values[i]).rank(), (#[trigger] values[j]).rank())
}

/// Whether `i` is the first index of `values` with a value of this key.
pub open spec fn first_with_key<T: Ranked>(values: Seq<T>, i: int, key: Seq<i16>) -> bool {
    &&& 0 <= i < values.len()
    &&& values[i].rank() == key
    &&& forall|k: int| 0 <= k < i ==> (#[trigger] values[k]).rank() != key
}

/// Whether `value` is the first of `values` with its key.
pub open spec fn is_first<T: Ranked>(values: Seq<T>, value: T) -> bool {
    exists|i: int| first_with_key(values, i, value.rank()) && values[i] == value
}

/// Whether one of `values` has this key.
pub open spec fn has_key<T: Ranked>(values: Seq<T>, key: Seq<i16>) -> bool {
    exists|j: int| 0 <= j < values.len() && (#[trigger] values[j]).rank() == key
}

/// Whether `sorted` lists in order, once for each key that occurs in `values`,
/// the first value with that key.
pub open spec fn sorted_once<T: Ranked>(values: Seq<T>, sorted: Seq<T>) -> bool {
    &&& strictly_ordered(sorted)
    &&& forall|j: int| 0 <= j < sorted.len() ==> #[trigger] is_first(values, sorted[j])
    &&& forall|i: int| 0 <= i < values.len() ==> #[trigger] has_key(sorted, values[i].rank())
}

/// Whether each value stands before all that follow it by the given keys.
pub open spec fn ordered_by<V>(values: Seq<V>, rank: spec_fn(V) -> Seq<i16>) -> bool {
    forall|i: int, j: int|
        0 <= i < j < values.len() ==> lex_less(rank(#[trigger] values[i]), rank(#[trigger] values[j]))
}

/// Whether `value` is the first of `values` with its key.
pub open spec fn is_first_by<V>(values: Seq<V>, value: V, rank: spec_fn(V) -> Seq<i16>) -> bool {
    exists|i: int|
        0 <= i < values.len() && #[trigger] values[i] == value && forall|k: int|
            0 <= k < i ==> rank(#[trigger] values[k]) != rank(value)
}

/// Whether one of `values` has this key.
pub open spec fn has_key_by<V>(values: Seq<V>, key: Seq<i16>, rank: spec_fn(V) -> Seq<i16>) -> bool {
    exists|j: int| 0 <= j < values.len() && rank(#[trigger] values[j]) == key
}

/// Whether `sorted` lists in order, once for each key that occurs in `values`,
/// the first value with that key.
pub open spec fn sorted_once_by<V>(values: Seq<V>, sorted: Seq<V>, rank: spec_fn(V) -> Seq<i16>) -> bool {
    &&& ordered_by(sorted, rank)
    &&& forall|j: int| 0 <= j < sorted.len() ==> #[trigger] is_first_by(values, sorted[j], rank)
    &&& forall|i: int| 0 <= i < values.len() ==> #[trigger] has_key_by(sorted, rank(values[i]), rank)
}

/// The values in the order of their keys, of each key the first.
pub open spec fn sorted_distinct<V>(values: Seq<V>, rank: spec_fn(V) -> Seq<i16>) -> Seq<V> {
    choose|sorted: Seq<V>| sorted_once_by(values, sorted, rank)
}

proof fn lemma_ordered_lists_agree<V>(a: Seq<V>, b: Seq<V>, rank: spec_fn(V) -> Seq<i16>)
    requires
        ordered_by(a, rank),
        ordered_by(b, rank),
        forall|i: int| 0 <= i < a.len() ==> #[trigger] has_key_by(b, rank(a[i]), rank),
        forall|j: int| 0 <= j < b.len() ==> #[trigger] has_key_by(a, rank(b[j]), rank),
    ensures
        a.len() == b.len(),
        forall|i: int| 0 <= i < a.len() ==> rank(#[trigger] a[i]) == rank(b[i]),
    decreases a.len(),
{
    if a.len() == 0 {
        if b.len() > 0 {
            assert(has_key_by(a, rank(b[0]), rank));
        }
    } else if b.len() == 0 {
        assert(has_key_by(b, rank(a[0]), rank));
    } else {
        let m = a.len() - 1;
        let n = b.len() - 1;
        assert(has_key_by(b, rank(a[m]), rank));
        assert(has_key_by(a, rank(b[n]), rank));
        let j = choose|j: int| 0 <= j < b.len() && rank(#[trigger] b[j]) == rank(a[m]);
        let i = choose|i: int| 0 <= i < a.len() && rank(#[trigger] a[i]) == rank(b[n]);
        if j < n && i < m {
            lex_transitive(rank(a[m]), rank(b[n]), rank(a[m]));
        }
        lex_irreflexive(rank(a[m]));
        assert(rank(a[m]) == rank(b[n]));
        let a0 = a.drop_last();
        let b0 = b.drop_last();
        assert forall|x: int| 0 <= x < a0.len() implies #[trigger] has_key_by(b0, rank(a0[x]), rank) by {
            assert(has_key_by(b, rank(a[x]), rank));
            let y = choose|y: int| 0 <= y < b.len() && rank(#[trigger] b[y]) == rank(a[x]);
            assert(lex_less(rank(a[x]), rank(a[m])));
            assert(y < n);
            assert(b0[y] == b[y]);
        }
        assert forall|y: int| 0 <= y < b0.len() implies #[trigger] has_key_by(a0, rank(b0[y]), rank) by {
            assert(has_key_by(a, rank(b[y]), rank));
            let x = choose|x: int| 0 <= x < a.len() && rank(#[trigger] a[x]) == rank(b[y]);
            assert(lex_less(rank(b[y]), rank(b[n])));
            assert(x < m);
            assert(a0[x] == a[x]);
        }
        lemma_ordered_lists_agree(a0, b0, rank);
        assert forall|x: int| 0 <= x < a.len() implies rank(#[trigger] a[x]) == rank(b[x]) by {
            if x < m {
                assert(a0[x] == a[x] && b0[x] == b[x]);
            }
        }
    }
}

/// There is only one such list.
pub proof fn sorted_distinct_unique<V>(values: Seq<V>, sorted: Seq<V>, rank: spec_fn(V) -> Seq<i16>)
    requires
        sorted_once_by(values, sorted, rank),
    ensures
        sorted == sorted_distinct(values, rank),
{
    let other = sorted_distinct(values, rank);
    assert(sorted_once_by(values, other, rank));
    assert forall|i: int| 0 <= i < sorted.len() implies #[trigger] has_key_by(other, rank(sorted[i]), rank) by {
        assert(is_first_by(values, sorted[i], rank));
        let k = choose|k: int|
            0 <= k < values.len() && #[trigger] values[k] == sorted[i] && forall|n: int|
                0 <= n < k ==> rank(#[trigger] values[n]) != rank(sorted[i]);
        assert(has_key_by(other, rank(values[k]), rank));
    }
    assert forall|i: int| 0 <= i < other.len() implies #[trigger] has_key_by(sorted, rank(other[i]), rank) by {
        assert(is_first_by(values, other[i], rank));
        let k = choose|k: int|
            0 <= k < values.len() && #[trigger] values[k] == other[i] && forall|n: int|
                0 <= n < k ==> rank(#[trigger] values[n]) != rank(other[i]);
        assert(has_key_by(sorted, rank(values[k]), rank));
    }
    lemma_ordered_lists_agree(sorted, other, rank);
    assert forall|i: int| 0 <= i < sorted.len() implies sorted[i] == other[i] by {
        assert(is_first_by(values, sorted[i], rank));
        assert(is_first_by(values, other[i], rank));
        let a = choose|k: int|
            0 <= k < values.len() && #[trigger] values[k] == sorted[i] && forall|n: int|
                0 <= n < k ==> rank(#[trigger] values[n]) != rank(sorted[i]);
        let b = choose|k: int|
            0 <= k < values.len() && #[trigger] values[k] == other[i] && forall|n: int|
                0 <= n < k ==> rank(#[trigger] values[n]) != rank(other[i]);
        assert(rank(sorted[i]) == rank(other[i]));
        assert(a == b);
    }
    assert(sorted =~= other);
}

proof fn insertion_point<V>(sorted: Seq<V>, key: Seq<i16>, rank: spec_fn(V) -> Seq<i16>) -> (p: int)
    requires
        ordered_by(sorted, rank),
        !has_key_by(sorted, key, rank),
    ensures
        0 <= p <= sorted.len(),
        forall|k: int| 0 <= k < p ==> lex_less(rank(#[trigger] sorted[k]), key),
        forall|k: int| p <= k < sorted.len() ==> lex_less(key, rank(#[trigger] sorted[k])),
    decreases sorted.len(),
{
    if sorted.len() == 0 {
        0
    } else {
        let rest = sorted.drop_last();
        let last = sorted.last();
        assert(rank(sorted[sorted.len() - 1]) != key);
        lex_total(rank(last), key);
        if lex_less(rank(last), key) {
            assert forall|k: int| 0 <= k < sorted.len() implies lex_less(rank(#[trigger] sorted[k]), key) by {
                if k < sorted.len() - 1 {
                    assert(lex_less(rank(sorted[k]), rank(sorted[sorted.len() - 1])));
                    lex_transitive(rank(sorted[k]), rank(last), key);
                }
            }
            sorted.len() as int
        } else {
            assert forall|i: int, j: int| 0 <= i < j < rest.len() implies lex_less(
                rank(#[trigger] rest[i]),
                rank(#[trigger] rest[j]),
            ) by {
                assert(rest[i] == sorted[i] && rest[j] == sorted[j]);
            }
            assert forall|k: int| 0 <= k < rest.len() implies rank(#[trigger] rest[k]) != key by {
                assert(rest[k] == sorted[k]);
            }
            let p = insertion_point(rest, key, rank);
            assert forall|k: int| 0 <= k < p implies lex_less(rank(#[trigger] sorted[k]), key) by {
                assert(rest[k] == sorted[k]);
            }
            assert forall|k: int| p <= k < sorted.len() implies lex_less(key, rank(#[trigger] sorted[k])) by {
                if k < rest.len() {
                    assert(rest[k] == sorted[k]);
                }
            }
            p
        }
    }
}

/// Every list of values can be sorted.
pub proof fn sorted_distinct_exists<V>(values: Seq<V>, rank: spec_fn(V) -> Seq<i16>)
    ensures
        sorted_once_by(values, sorted_distinct(values, rank), rank),
    decreases values.len(),
{
    if values.len() == 0 {
        assert(sorted_once_by(values, Seq::<V>::empty(), rank));
    } else {
        let rest = values.drop_last();
        let last = values.last();
        let s = sorted_distinct(rest, rank);
        sorted_distinct_exists(rest, rank);
        assert forall|j: int| 0 <= j < s.len() implies #[trigger] is_first_by(values, s[j], rank) by {
            assert(is_first_by(rest, s[j], rank));
            let i = choose|i: int|
                0 <= i < rest.len() && #[trigger] rest[i] == s[j] && forall|k: int|
                    0 <= k < i ==> rank(#[trigger] rest[k]) != rank(s[j]);
            assert(values[i] == rest[i]);
            assert forall|k: int| 0 <= k < i implies rank(#[trigger] values[k]) != rank(s[j]) by {
                assert(values[k] == rest[k]);
            }
        }
        assert forall|i: int| 0 <= i < rest.len() implies #[trigger] has_key_by(s, rank(values[i]), rank) by {
            assert(values[i] == rest[i]);
            assert(has_key_by(s, rank(rest[i]), rank));
        }
        if has_key_by(s, rank(last), rank) {
            assert(sorted_once_by(values, s, rank));
        } else {
            let p = insertion_point(s, rank(last), rank);
            let t = s.insert(p, last);
            assert forall|i: int, j: int| 0 <= i < j < t.len() implies lex_less(
                rank(#[trigger] t[i]),
                rank(#[trigger] t[j]),
            ) by {
                let a = if i < p {
                    i
                } else {
                    i - 1
                };
                let b = if j < p {
                    j
                } else {
                    j - 1
                };
                if i != p && j != p {
                    assert(t[i] == s[a] && t[j] == s[b]);
                    assert(lex_less(rank(s[a]), rank(s[b])));
                } else if i == p {
                    assert(t[j] == s[b]);
                } else {
                    assert(t[i] == s[a]);
                }
            }
            assert(is_first_by(values, last, rank)) by {
                assert(values[values.len() - 1] == last);
                assert forall|k: int| 0 <= k < values.len() - 1 implies rank(#[trigger] values[k]) != rank(last) by {
                    assert(has_key_by(s, rank(values[k]), rank));
                }
            }
            assert forall|j: int| 0 <= j < t.len() implies #[trigger] is_first_by(values, t[j], rank) by {
                if j < p {
                    assert(t[j] == s[j]);
                    assert(is_first_by(values, s[j], rank));
                } else if j > p {
                    assert(t[j] == s[j - 1]);
                    assert(is_first_by(values, s[j - 1], rank));
                }
            }
            assert forall|i: int| 0 <= i < values.len() implies #[trigger] has_key_by(t, rank(values[i]), rank) by {
                if i < rest.len() {
                    assert(has_key_by(s, rank(values[i]), rank));
                    let k = choose|k: int| 0 <= k < s.len() && rank(#[trigger] s[k]) == rank(values[i]);
                    if k < p {
                        assert(t[k] == s[k]);
                    } else {
                        assert(t[k + 1] == s[k]);
                    }
                } else {
                    assert(t[p] == last);
                }
            }
            assert(sorted_once_by(values, t, rank));
        }
    }
}

/// The sorted list holds the values and no others, up to their keys.
pub proof fn sorted_distinct_holds<V>(values: Seq<V>, rank: spec_fn(V) -> Seq<i16>)
    ensures
        forall|i: int|
            0 <= i < values.len() ==> has_key_by(sorted_distinct(values, rank), rank(#[trigger] values[i]), rank),
        forall|j: int|
            0 <= j < sorted_distinct(values, rank).len() ==> values.contains(
                #[trigger] sorted_distinct(values, rank)[j],
            ),
{
    let s = sorted_distinct(values, rank);
    sorted_distinct_exists(values, rank);
    assert forall|j: int| 0 <= j < s.len() implies values.contains(#[trigger] s[j]) by {
        assert(is_first_by(values, s[j], rank));
    }
}

/// Sorting values sorts what they stand for, where their keys depend on that
/// alone.
pub proof fn sorted_views<T: Ranked, V>(
    values: Seq<T>,
    sorted: Seq<T>,
    view: spec_fn(T) -> V,
    rank: spec_fn(V) -> Seq<i16>,
)
    requires
        sorted_once(values, sorted),
        forall|t: T| rank(#[trigger] view(t)) == t.rank(),
    ensures
        sorted.map_values(view) == sorted_distinct(values.map_values(view), rank),
{
    let before = values.map_values(view);
    let after = sorted.map_values(view);
    assert forall|i: int, j: int| 0 <= i < j < after.len() implies lex_less(
        rank(#[trigger] after[i]),
        rank(#[trigger] after[j]),
    ) by {
        assert(after[i] == view(sorted[i]) && after[j] == view(sorted[j]));
    }
    assert forall|j: int| 0 <= j < after.len() implies #[trigger] is_first_by(before, after[j], rank) by {
        assert(is_first(values, sorted[j]));
        let i = choose|i: int| first_with_key(values, i, sorted[j].rank()) && values[i] == sorted[j];
        assert(before[i] == view(values[i]));
        assert forall|k: int| 0 <= k < i implies rank(#[trigger] before[k]) != rank(after[j]) by {
            assert(before[k] == view(values[k]));
        }
    }
    assert forall|i: int| 0 <= i < before.len() implies #[trigger] has_key_by(after, rank(before[i]), rank) by {
        assert(has_key(sorted, values[i].rank()));
        let j = choose|j: int| 0 <= j < sorted.len() && (#[trigger] sorted[j]).rank() == values[i].rank();
        assert(after[j] == view(sorted[j]));
        assert(before[i] == view(values[i]));
    }
    sorted_distinct_unique(before, after, rank);
}

/// The place of a key among ordered values: everything before it is smaller and
/// everything from it on is not.
fn lower_bound<T: Ranked>(sorted: &Vec<T>, key: &Vec<i16>) -> (place: usize)
    requires
        strictly_ordered(sorted@),
    ensures
        place <= sorted.len(),
        forall|k: int| 0 <= k < place ==> lex_less((#[trigger] sorted@[k]).rank(), key@),
        forall|k: int| place <= k < sorted.len() ==> !lex_less((#[trigger] sorted@[k]).rank(), key@),
{
    let mut place: usize = 0;
    while place < sorted.len()
        invariant
            place <= sorted.len(),
            strictly_ordered(sorted@),
            forall|k: int| 0 <= k < place ==> lex_less((#[trigger] sorted@[k]).rank(), key@),
        decreases sorted.len() - place,
    {
        let here = sorted[place].rank_key();
        if !key_less(&here, key) {
            proof {
                assert forall|k: int| place <= k < sorted.len() implies !lex_less(
                    (#[trigger] sorted@[k]).rank(),
                    key@,
                ) by {
                    if lex_less(sorted@[k].rank(), key@) && k > place {
                        lex_transitive(sorted@[place as int].rank(), sorted@[k].rank(), key@);
                    }
                }
            }
            return place;
        }
        place += 1;
    }
    place
}

/// Inserts a value into ordered values unless its key is there already.
pub fn insert_once<T: Ranked>(sorted: &mut Vec<T>, value: T)
    requires
        strictly_ordered(old(sorted)@),
    ensures
        strictly_ordered(final(sorted)@),
        has_key(old(sorted)@, value.rank()) ==> final(sorted)@ == old(sorted)@,
        !has_key(old(sorted)@, value.rank()) ==> exists|place: int|
            0 <= place <= old(sorted)@.len() && final(sorted)@ == #[trigger] old(sorted)@.insert(place, value),
{
    let key = value.rank_key();
    let place = lower_bound(sorted, &key);
    let ghost before = sorted@;
    if place < sorted.len() {
        let here = sorted[place].rank_key();
        if !key_less(&key, &here) {
            proof {
                lex_total(key@, here@);
                assert(before[place as int].rank() == value.rank());
            }
            return;
        }
    }
    proof {
        assert forall|j: int| 0 <= j < before.len() implies (#[trigger] before[j]).rank() != value.rank() by {
            lex_irreflexive(key@);
            if j > place {
                lex_transitive(key@, before[place as int].rank(), before[j].rank());
            }
        }
    }
    sorted.insert(place, value);
    proof {
        let after = sorted@;
        assert forall|i: int, j: int| 0 <= i < j < after.len() implies lex_less(
            (#[trigger] after[i]).rank(),
            (#[trigger] after[j]).rank(),
        ) by {
            let i0 = if i < place { i } else { i - 1 };
            let j0 = if j < place { j } else { j - 1 };
            if i == place {
                assert(after[j] == before[j0]);
                if j0 > place {
                    lex_transitive(key@, before[place as int].rank(), before[j0].rank());
                }
            } else if j == place {
                assert(after[i] == before[i]);
            } else {
                assert(after[i] == before[i0] && after[j] == before[j0]);
            }
        }
    }
}

/// Sorts values by their keys and keeps, of the values with one key, the first.
pub fn sort_and_deduplicate<T: Ranked>(values: &mut Vec<T>)
    ensures
        sorted_once(old(values)@, final(values)@),
{
    let ghost all = values@;
    let mut sorted: Vec<T> = Vec::new();
    let ghost mut n: int = 0;
    while values.len() > 0
        invariant
            0 <= n <= all.len(),
            values@ == all.skip(n),
            sorted_once(all.take(n), sorted@),
        decreases values.len(),
    {
        let ghost before = sorted@;
        let value = values.remove(0);
        proof {
            assert(value == all[n]);
            assert(values@ =~= all.skip(n + 1));
        }
        insert_once(&mut sorted, value);
        proof {
            lemma_insert_once_step(all, n, before, sorted@);
            n = n + 1;
        }
    }
    assert(all.take(n) =~= all);
    values.append(&mut sorted);
}

proof fn lemma_insert_once_step<T: Ranked>(all: Seq<T>, n: int, before: Seq<T>, after: Seq<T>)
    requires
        0 <= n < all.len(),
        sorted_once(all.take(n), before),
        strictly_ordered(after),
        has_key(before, all[n].rank()) ==> after == before,
        !has_key(before, all[n].rank()) ==> exists|place: int|
            0 <= place <= before.len() && after == #[trigger] before.insert(place, all[n]),
    ensures
        sorted_once(all.take(n + 1), after),
{
    let old_values = all.take(n);
    let new_values = all.take(n + 1);
    let value = all[n];
    assert(new_values =~= old_values.push(value));
    assert forall|v: T| is_first(old_values, v) implies is_first(new_values, v) by {
        let i = choose|i: int| first_with_key(old_values, i, v.rank()) && old_values[i] == v;
        assert(first_with_key(new_values, i, v.rank()) && new_values[i] == v);
    }
    if has_key(before, value.rank()) {
        assert forall|i: int| 0 <= i < new_values.len() implies #[trigger] has_key(after, new_values[i].rank()) by {
            if i < n {
                assert(has_key(before, old_values[i].rank()));
            }
        }
    } else {
        let place = choose|place: int|
            0 <= place <= before.len() && after == #[trigger] before.insert(place, value);
        assert(after[place] == value);
        assert forall|j: int| 0 <= j < after.len() implies #[trigger] is_first(new_values, after[j]) by {
            if j == place {
                assert forall|k: int| 0 <= k < n implies (#[trigger] new_values[k]).rank() != value.rank() by {
                    assert(has_key(before, old_values[k].rank()));
                }
                assert(first_with_key(new_values, n, after[j].rank()) && new_values[n] == after[j]);
            } else {
                let j0 = if j < place { j } else { j - 1 };
                assert(after[j] == before[j0]);
                assert(is_first(old_values, before[j0]));
            }
        }
        assert forall|i: int| 0 <= i < new_values.len() implies #[trigger] has_key(after, new_values[i].rank()) by {
            if i < n {
                assert(has_key(before, old_values[i].rank()));
                let j0 = choose|j0: int|
                    0 <= j0 < before.len() && (#[trigger] before[j0]).rank() == old_values[i].rank();
                let j = if j0 < place { j0 } else { j0 + 1 };
                assert(after[j] == before[j0]);
            }
        }
    }
}

/// Bytes as a sort key.
pub open spec fn bytes_rank(bytes: Seq<u8>) -> Seq<i16> {
    Seq::new(bytes.len(), |i: int| bytes[i] as i16)
}

/// The sort key of a byte slice.
pub fn bytes_rank_key(bytes: &[u8]) -> (key: Vec<i16>)
    ensures
        key@ == bytes_rank(bytes@),
{
    let mut key: Vec<i16> = Vec::new();
    let mut i: usize = 0;
    while i < bytes.len()
        invariant
            i <= bytes.len(),
            key@ == bytes_rank(bytes@.take(i as int)),
        decreases bytes.len() - i,
    {
        key.push(bytes[i] as i16);
        i += 1;
        assert(key@ =~= bytes_rank(bytes@.take(i as int)));
    }
    assert(bytes@.take(bytes@.len() as int) =~= bytes@);
    key
}

/// The sort key of a text.
pub open spec fn text_rank(s: Seq<char>) -> Seq<i16> {
    bytes_rank(encode_utf8(s))
}

/// Strings are ordered by their UTF-8 bytes.
impl Ranked for String {
    open spec fn rank(&self) -> Seq<i16> {
        text_rank(self@)
    }

    fn rank_key(&self) -> (key: Vec<i16>) {
        bytes_rank_key(self.as_str().as_bytes())
    }
}

/// The place of a component's kind: the root, then `.`, then `..`, then names.
pub open spec fn component_kind(component: Seq<u8>) -> i16 {
    if component == root_dir() {
        1
    } else if component == cur_dir() {
        2
    } else if component == parent_dir() {
        3
    } else {
        4
    }
}

/// The sort key of one component: its kind, its bytes, and an end mark that
/// stands before every byte.
pub open spec fn component_rank(component: Seq<u8>) -> Seq<i16> {
    Seq::new(
        component.len() + 2,
        |i: int|
            if i == 0 {
                component_kind(component)
            } else if i <= component.len() {
                (component[i - 1] + 1) as i16
            } else {
                0
            },
    )
}

/// The sort key of a list of components.
pub open spec fn components_rank(components: Seq<Seq<u8>>) -> Seq<i16>
    decreases components.len(),
{
    if components.len() == 0 {
        Seq::empty()
    } else {
        components_rank(components.drop_last()) + component_rank(components.last())
    }
}

/// The sort key of a path.
pub open spec fn path_rank(path: Seq<u8>) -> Seq<i16> {
    components_rank(path_components(path))
}

fn component_rank_key(component: &Vec<u8>) -> (key: Vec<i16>)
    ensures
        key@ == component_rank(component@),
{
    let single = component.len() == 1;
    let kind: i16 = if single && component[0] == SLASH {
        assert(component@ =~= root_dir());
        1
    } else if single && component[0] == DOT {
        assert(component@ =~= cur_dir());
        2
    } else if component.len() == 2 && component[0] == DOT && component[1] == DOT {
        assert(component@ =~= parent_dir());
        3
    } else {
        4
    };
    assert(kind == component_kind(component@));
    let mut key: Vec<i16> = Vec::new();
    key.push(kind);
    let mut i: usize = 0;
    while i < component.len()
        invariant
            i <= component.len(),
            key@ == component_rank(component@).take(i + 1),
        decreases component.len() - i,
    {
        key.push(component[i] as i16 + 1);
        i += 1;
        assert(key@ =~= component_rank(component@).take(i + 1));
    }
    key.push(0);
    assert(key@ =~= component_rank(component@));
    key
}

/// Paths are ordered component by component.
impl Ranked for PathBuf {
    open spec fn rank(&self) -> Seq<i16> {
        path_rank(self@)
    }

    fn rank_key(&self) -> (key: Vec<i16>) {
        let components = self.components();
        let ghost all = path_components(self@);
        let mut key: Vec<i16> = Vec::new();
        let mut i: usize = 0;
        while i < components.len()
            invariant
                i <= components.len(),
                byte_lists(components@) == all,
                key@ == components_rank(all.take(i as int)),
            decreases components.len() - i,
        {
            let mut part = component_rank_key(&components[i]);
            key.append(&mut part);
            proof {
                assert(all.take(i + 1).drop_last() =~= all.take(i as int));
                assert(all[i as int] == components@[i as int]@);
            }
            i += 1;
        }
        assert(all.take(all.len() as int) =~= all);
        key
    }
}

proof fn lemma_component_rank_injective(a: Seq<u8>, b: Seq<u8>)
    requires
        component_rank(a) == component_rank(b),
    ensures
        a == b,
{
    assert(component_rank(a).len() == a.len() + 2);
    assert(component_rank(b).len() == b.len() + 2);
    assert forall|i: int| 0 <= i < a.len() implies a[i] == b[i] by {
        assert(component_rank(a)[i + 1] == (a[i] + 1) as i16);
        assert(component_rank(b)[i + 1] == (b[i] + 1) as i16);
    }
    assert(a =~= b);
}

/// Two lists of components have one sort key only if they are the same list.
pub proof fn components_rank_injective(a: Seq<Seq<u8>>, b: Seq<Seq<u8>>)
    requires
        components_rank(a) == components_rank(b),
    ensures
        a == b,
    decreases a.len(),
{
    let key = components_rank(a);
    if a.len() == 0 {
        if b.len() > 0 {
            assert(component_rank(b.last()).len() >= 2);
            assert(key == components_rank(b.drop_last()) + component_rank(b.last()));
            assert(key.len() >= 2);
            assert(key == Seq::<i16>::empty());
        }
        assert(a =~= b);
    } else if b.len() == 0 {
        assert(component_rank(a.last()).len() >= 2);
        assert(key == components_rank(a.drop_last()) + component_rank(a.last()));
        assert(key.len() >= 2);
        assert(components_rank(b) == Seq::<i16>::empty());
    } else {
        let x = component_rank(a.last());
        let y = component_rank(b.last());
        let front_a = components_rank(a.drop_last());
        let front_b = components_rank(b.drop_last());
        lemma_components_rank_end(a.drop_last());
        lemma_components_rank_end(b.drop_last());
        if x.len() < y.len() {
            let p = key.len() - x.len() - 1;
            assert(key[p] == front_a[p]);
            assert(key[p] == y[p - front_b.len()]);
        } else if y.len() < x.len() {
            let p = key.len() - y.len() - 1;
            assert(key[p] == front_b[p]);
            assert(key[p] == x[p - front_a.len()]);
        }
        assert(front_a =~= key.take(key.len() - x.len()));
        assert(front_b =~= key.take(key.len() - x.len()));
        assert(x =~= key.skip(key.len() - x.len()));
        assert(y =~= key.skip(key.len() - x.len()));
        lemma_component_rank_injective(a.last(), b.last());
        components_rank_injective(a.drop_last(), b.drop_last());
        assert(a =~= a.drop_last().push(a.last()));
        assert(b =~= b.drop_last().push(b.last()));
    }
}

proof fn lemma_components_rank_end(a: Seq<Seq<u8>>)
    ensures
        components_rank(a).len() > 0 ==> components_rank(a).last() == 0,
{
    if a.len() > 0 {
        assert(component_rank(a.last()).last() == 0);
    }
}

/// Paths with one sort key are the same path.
pub proof fn path_rank_is_path_equality(a: Seq<u8>, b: Seq<u8>)
    ensures
        path_rank(a) == path_rank(b) <==> crate::path::same_path(a, b),
{
    if path_rank(a) == path_rank(b) {
        components_rank_injective(path_components(a), path_components(b));
    }
}

/// Texts with one sort key have the same characters.
pub proof fn text_rank_is_text_equality(a: Seq<char>, b: Seq<char>)
    ensures
        text_rank(a) == text_rank(b) <==> a == b,
{
    if text_rank(a) == text_rank(b) {
        let x = encode_utf8(a);
        let y = encode_utf8(b);
        assert(bytes_rank(x).len() == bytes_rank(y).len());
        assert forall|i: int| 0 <= i < x.len() implies x[i] == y[i] by {
            assert(bytes_rank(x)[i] == bytes_rank(y)[i]);
        }
        assert(x =~= y);
        vstd::utf8::encode_utf8_decode_utf8(a);
        vstd::utf8::encode_utf8_decode_utf8(b);
    }
}

/// In the sort key of a list of components no end mark begins it or follows another.
proof fn lemma_components_marks(a: Seq<Seq<u8>>)
    ensures
        forall|p: int|
            0 <= p < components_rank(a).len() && #[trigger] components_rank(a)[p] == 0 ==> p > 0 && components_rank(
                a,
            )[p - 1] != 0,
    decreases a.len(),
{
    if a.len() > 0 {
        let front = components_rank(a.drop_last());
        let end = component_rank(a.last());
        lemma_components_marks(a.drop_last());
        let key = components_rank(a);
        assert forall|p: int| 0 <= p < key.len() && #[trigger] key[p] == 0 implies p > 0 && key[p - 1] != 0 by {
            if p < front.len() {
                assert(front[p] == 0);
                assert(key[p - 1] == front[p - 1]);
            } else {
                let q = p - front.len();
                assert(end[q] == 0);
                assert(q == end.len() - 1);
                assert(key[p - 1] == end[q - 1]);
            }
        }
    }
}

/// The sort key of a path ends where an end mark stands that no component has.
pub proof fn path_rank_ends(a: Seq<u8>, b: Seq<u8>, x: Seq<i16>, y: Seq<i16>)
    requires
        path_rank(a) + seq![0i16] + x == path_rank(b) + seq![0i16] + y,
    ensures
        path_rank(a) == path_rank(b),
        x == y,
{
    let front_a = path_rank(a);
    let front_b = path_rank(b);
    let key = front_a + seq![0i16] + x;
    lemma_components_marks(path_components(a));
    lemma_components_marks(path_components(b));
    lemma_components_rank_end(path_components(a));
    lemma_components_rank_end(path_components(b));
    if front_a.len() < front_b.len() {
        let p = front_a.len() as int;
        assert(key[p] == front_b[p]);
        if p > 0 {
            assert(key[p - 1] == front_a[p - 1]);
            assert(key[p - 1] == front_b[p - 1]);
        }
    } else if front_b.len() < front_a.len() {
        let p = front_b.len() as int;
        assert(key[p] == front_a[p]);
        if p > 0 {
            assert(key[p - 1] == front_b[p - 1]);
            assert(key[p - 1] == front_a[p - 1]);
        }
    }
    let n = front_a.len() as int;
    assert(front_a =~= key.take(n));
    assert(front_b =~= key.take(n));
    assert(x =~= key.skip(n + 1));
    assert(y =~= key.skip(n + 1));
}

} // verus!
